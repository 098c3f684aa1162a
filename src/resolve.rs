//! Resolution of a stat's value. A static stat resolves to its literal. A
//! dynamic stat's formula has every word that names a sibling stat replaced by
//! that sibling's resolved value, and is then rolled by the dice evaluator.
//! A formula that leads back to a stat already being resolved is a cycle.

use vstd::prelude::*;
use vstd::set_lib::{lemma_int_range, lemma_len_subset, set_int_range};
use crate::stat::{Stat, StatView, stats_view};
use crate::command::strings_view;
use crate::character::Character;
use crate::dice::{RollError, no_division, roll, rollable};
use crate::text::{chars_of, is_digit, lowercase_of, str_eq, substring, to_lowercase};

verus! {

/// The characters that make up the words of a formula.
pub open spec fn is_word_char(c: char) -> bool {
    ('a' <= c && c <= 'z') || ('A' <= c && c <= 'Z') || ('0' <= c && c <= '9') || c == '_'
}

pub fn is_word_char_exec(c: char) -> (r: bool)
    ensures
        r == is_word_char(c),
{
    ('a' <= c && c <= 'z') || ('A' <= c && c <= 'Z') || ('0' <= c && c <= '9') || c == '_'
}

/// The end of the word that starts at `i`.
pub open spec fn word_end(v: Seq<char>, i: int) -> int
    decreases v.len() - i,
{
    if i >= v.len() || !is_word_char(v[i]) {
        i
    } else {
        word_end(v, i + 1)
    }
}

pub proof fn lemma_word_end(v: Seq<char>, i: int)
    requires
        0 <= i <= v.len(),
    ensures
        i <= word_end(v, i) <= v.len(),
        i < v.len() && is_word_char(v[i]) ==> i < word_end(v, i),
        word_end(v, i) < v.len() ==> !is_word_char(v[word_end(v, i)]),
        forall|k: int| i <= k < word_end(v, i) ==> is_word_char(v[k]),
    decreases v.len() - i,
{
    if i < v.len() && is_word_char(v[i]) {
        lemma_word_end(v, i + 1);
    }
}

/// Whether a word of the formula in `v` starts at `s`. The formula follows
/// the leading `=` of a dynamic stat's value, which is no word character.
pub open spec fn is_token_start(v: Seq<char>, s: int) -> bool {
    1 <= s < v.len() && is_word_char(v[s]) && !is_word_char(v[s - 1])
}

pub open spec fn token_at(v: Seq<char>, s: int) -> Seq<char> {
    v.subrange(s, word_end(v, s))
}

/// The keys of `stats`, in order.
pub open spec fn keys_of(stats: Seq<StatView>) -> Seq<Seq<char>> {
    stats.map_values(|s: StatView| s.key())
}

/// The position of the first key at or after `i` equal to `k`; `keys.len()` where none is.
pub open spec fn key_index(keys: Seq<Seq<char>>, k: Seq<char>, i: int) -> int
    decreases keys.len() - i,
{
    if i >= keys.len() {
        keys.len() as int
    } else if keys[i] == k {
        i
    } else {
        key_index(keys, k, i + 1)
    }
}

pub proof fn lemma_key_index(keys: Seq<Seq<char>>, k: Seq<char>, i: int)
    requires
        0 <= i <= keys.len(),
    ensures
        i <= key_index(keys, k, i) <= keys.len(),
        key_index(keys, k, i) < keys.len() ==> keys[key_index(keys, k, i)] == k,
        forall|j: int| i <= j < key_index(keys, k, i) ==> keys[j] != k,
    decreases keys.len() - i,
{
    if i < keys.len() && keys[i] != k {
        lemma_key_index(keys, k, i + 1);
    }
}

/// The stat that a lookup of `k` finds: the first with that key.
pub open spec fn lookup(stats: Seq<StatView>, k: Seq<char>) -> int {
    key_index(keys_of(stats), k, 0)
}

/// Stat `a`'s formula names stat `b`: some word of it, lower-cased, is looked up as `b`.
pub open spec fn refers(stats: Seq<StatView>, a: int, b: int) -> bool {
    &&& 0 <= a < stats.len()
    &&& 0 <= b < stats.len()
    &&& stats[a].is_dynamic()
    &&& exists|s: int|
        is_token_start(stats[a].value, s) && lookup(stats, lowercase_of(#[trigger] token_at(stats[a].value, s)))
            == b
}

/// A chain of references among `stats`.
pub open spec fn is_path(stats: Seq<StatView>, p: Seq<int>) -> bool {
    &&& p.len() >= 1
    &&& forall|k: int| 0 <= k < p.len() ==> 0 <= #[trigger] p[k] < stats.len()
    &&& forall|i: int, j: int| 0 <= i && j == i + 1 && j < p.len() ==> #[trigger] refers(stats, p[i], p[j])
}

/// Following references from stat `a` can come back to a stat already passed.
pub open spec fn cyclic_from(stats: Seq<StatView>, a: int) -> bool {
    exists|p: Seq<int>| is_path(stats, p) && p[0] == a && !p.no_duplicates()
}

/// No chain of references from `a` repeats a stat or meets one of `visiting`.
pub open spec fn clean(stats: Seq<StatView>, a: int, visiting: Seq<int>) -> bool {
    forall|p: Seq<int>|
        #![trigger is_path(stats, p)]
        is_path(stats, p) && p[0] == a ==> p.no_duplicates() && forall|k: int|
            0 <= k < p.len() ==> !visiting.contains(#[trigger] p[k])
}

pub open spec fn stack_view(v: Seq<usize>) -> Seq<int> {
    v.map_values(|x: usize| x as int)
}

/// A stack of distinct stat positions is no longer than the stats.
proof fn lemma_stack_bound(p: Seq<int>, n: int)
    requires
        0 <= n,
        p.no_duplicates(),
        forall|k: int| 0 <= k < p.len() ==> 0 <= #[trigger] p[k] < n,
    ensures
        p.len() <= n,
{
    p.unique_seq_to_set();
    lemma_int_range(0, n);
    assert(p.to_set().subset_of(set_int_range(0, n)));
    lemma_len_subset(p.to_set(), set_int_range(0, n));
}

/// A stat none of whose references leads back is clean.
proof fn lemma_clean_step(stats: Seq<StatView>, a: int, visiting: Seq<int>)
    requires
        0 <= a < stats.len(),
        !visiting.contains(a),
        forall|b: int| refers(stats, a, b) ==> #[trigger] clean(stats, b, visiting.push(a)),
    ensures
        clean(stats, a, visiting),
{
    assert forall|p: Seq<int>| is_path(stats, p) && p[0] == a implies p.no_duplicates() && forall|k: int|
        0 <= k < p.len() ==> !visiting.contains(#[trigger] p[k]) by {
        if p.len() > 1 {
            let q = p.drop_first();
            assert(refers(stats, p[0], p[1]));
            assert(is_path(stats, q)) by {
                assert forall|i: int, j: int| 0 <= i && j == i + 1 && j < q.len() implies #[trigger] refers(stats, q[i], q[j]) by {
                    assert(refers(stats, p[i + 1], p[j + 1]));
                }
            }
            assert(clean(stats, p[1], visiting.push(a)));
            assert(q[0] == p[1]);
            assert forall|k: int| 0 <= k < q.len() implies #[trigger] q[k] != a && !visiting.contains(q[k]) by {
                assert(!visiting.push(a).contains(q[k]));
                assert(visiting.push(a)[visiting.len() as int] == a);
                if visiting.contains(q[k]) {
                    let w = choose|w: int| 0 <= w < visiting.len() && visiting[w] == q[k];
                    assert(visiting.push(a)[w] == q[k]);
                }
            }
            assert forall|i: int, j: int| 0 <= i < p.len() && 0 <= j < p.len() && i != j implies p[i] != p[j] by {
                if i == 0 {
                    assert(p[j] == q[j - 1]);
                } else if j == 0 {
                    assert(p[i] == q[i - 1]);
                } else {
                    assert(p[i] == q[i - 1] && p[j] == q[j - 1]);
                }
            }
            assert forall|k: int| 0 <= k < p.len() implies !visiting.contains(#[trigger] p[k]) by {
                if k > 0 {
                    assert(p[k] == q[k - 1]);
                }
            }
        }
    }
}

/// The value of a run of decimal digits.
pub open spec fn digits_value(d: Seq<char>) -> nat
    decreases d.len(),
{
    if d.len() == 0 {
        0
    } else {
        digits_value(d.drop_last()) * 10 + ((d.last() as u32) - ('0' as u32)) as nat
    }
}

pub open spec fn all_digits(d: Seq<char>) -> bool {
    forall|i: int| 0 <= i < d.len() ==> is_digit(#[trigger] d[i])
}

/// The integer that `s` writes in decimal, with an optional leading `-`,
/// where it fits an `i64` (whose least value is left out).
pub open spec fn integer_value(s: Seq<char>) -> Option<int> {
    let neg = s.len() > 0 && s[0] == '-';
    let d = if neg { s.drop_first() } else { s };
    if d.len() > 0 && all_digits(d) && digits_value(d) <= i64::MAX {
        Some(if neg { -(digits_value(d) as int) } else { digits_value(d) as int })
    } else {
        None
    }
}

proof fn lemma_digits_prefix(d: Seq<char>, k: int)
    requires
        0 <= k <= d.len(),
    ensures
        digits_value(d.subrange(0, k)) <= digits_value(d),
    decreases d.len(),
{
    if k < d.len() {
        assert(d.drop_last().subrange(0, k) =~= d.subrange(0, k));
        lemma_digits_prefix(d.drop_last(), k);
    } else {
        assert(d.subrange(0, k) =~= d);
    }
}

/// Reads `s` as a decimal integer.
pub fn parse_integer(s: &str) -> (r: Option<i64>)
    ensures
        r is Some <==> integer_value(s@) is Some,
        r is Some ==> r->0 as int == integer_value(s@)->0,
{
    let v = chars_of(s);
    let neg = v.len() > 0 && v[0] == '-';
    let start: usize = if neg { 1 } else { 0 };
    let ghost d = if neg { s@.drop_first() } else { s@ };
    assert(d =~= v@.subrange(start as int, v@.len() as int));
    if start >= v.len() {
        return None;
    }
    let mut acc: u64 = 0;
    let mut i: usize = start;
    while i < v.len()
        invariant
            v@ == s@,
            start <= i <= v@.len(),
            d == v@.subrange(start as int, v@.len() as int),
            d == (if s@.len() > 0 && s@[0] == '-' { s@.drop_first() } else { s@ }),
            d.len() > 0,
            all_digits(d.subrange(0, i - start)),
            acc as nat == digits_value(d.subrange(0, i - start)),
            acc <= i64::MAX,
        decreases v@.len() - i,
    {
        let c = v[i];
        if !('0' <= c && c <= '9') {
            assert(!is_digit(d[i - start]));
            return None;
        }
        let digit = (c as u32 - '0' as u32) as u64;
        assert(d.subrange(0, i + 1 - start).drop_last() =~= d.subrange(0, i - start));
        assert(d.subrange(0, i + 1 - start).last() == c);
        assert(digits_value(d.subrange(0, i + 1 - start)) == acc * 10 + digit);
        if acc > 922337203685477580 || (acc == 922337203685477580 && digit > 7) {
            proof {
                lemma_digits_prefix(d, i + 1 - start);
            }
            return None;
        }
        acc = acc * 10 + digit;
        assert(all_digits(d.subrange(0, i + 1 - start)));
        i = i + 1;
    }
    assert(d.subrange(0, i - start) =~= d);
    if neg {
        Some(-(acc as i64))
    } else {
        Some(acc as i64)
    }
}

/// A resolved stat: a number where the value reads as one, else its text.
pub enum ResolvedValue {
    Number(i64),
    Text(String),
}

pub enum ResolvedView {
    Number(i64),
    Text(Seq<char>),
}

impl View for ResolvedValue {
    type V = ResolvedView;

    open spec fn view(&self) -> ResolvedView {
        match self {
            ResolvedValue::Number(n) => ResolvedView::Number(*n),
            ResolvedValue::Text(t) => ResolvedView::Text(t@),
        }
    }
}

/// What a value's text resolves to.
pub open spec fn value_of_text(t: Seq<char>) -> ResolvedView {
    match integer_value(t) {
        Some(n) => ResolvedView::Number(n as i64),
        None => ResolvedView::Text(t),
    }
}

pub fn value_from_text(t: String) -> (r: ResolvedValue)
    ensures
        r@ == value_of_text(t@),
{
    match parse_integer(t.as_str()) {
        Some(n) => ResolvedValue::Number(n),
        None => ResolvedValue::Text(t),
    }
}

/// Why a stat could not be resolved.
#[derive(Debug)]
pub enum ResolutionError {
    /// No stat has the key asked for.
    UnknownStat,
    /// A formula leads back to a stat that is being resolved.
    CyclicReference,
    /// The formula, references replaced, is not in the plain dice notation.
    Unrollable(String),
    /// The dice evaluator refused the formula, with its message.
    Evaluator(String),
}

/// The text that replaces the word `tok` of a formula: the value of the stat it
/// looks up, where that stat has a value in `vals`; else the word itself.
pub open spec fn replacement(tok: Seq<char>, keys: Seq<Seq<char>>, vals: Seq<Option<Seq<char>>>) -> Seq<char> {
    let b = key_index(keys, lowercase_of(tok), 0);
    if 0 <= b < keys.len() && b < vals.len() && vals[b] is Some {
        vals[b]->0
    } else {
        tok
    }
}

/// The formula in `v` from position `i` on, each word replaced.
pub open spec fn substituted_from(
    v: Seq<char>,
    i: int,
    keys: Seq<Seq<char>>,
    vals: Seq<Option<Seq<char>>>,
) -> Seq<char>
    decreases v.len() - i,
    via substituted_from_decreases
{
    if i >= v.len() || i < 0 {
        seq![]
    } else if is_word_char(v[i]) {
        let j = word_end(v, i);
        replacement(v.subrange(i, j), keys, vals) + substituted_from(v, j, keys, vals)
    } else {
        seq![v[i]] + substituted_from(v, i + 1, keys, vals)
    }
}

#[via_fn]
proof fn substituted_from_decreases(v: Seq<char>, i: int, keys: Seq<Seq<char>>, vals: Seq<Option<Seq<char>>>) {
    if 0 <= i < v.len() {
        lemma_word_end(v, i);
    }
}

pub open spec fn options_view(v: Seq<Option<String>>) -> Seq<Option<Seq<char>>> {
    v.map_values(|o: Option<String>| crate::stat::option_view(o))
}

/// The formula of the dynamic stat value `value` (after its `=`), each word
/// that looks up a stat with a value in `values` replaced by that value.
pub fn substitute(value: &str, keys: &Vec<String>, values: &Vec<Option<String>>) -> (r: String)
    ensures
        r@ == substituted_from(value@, 1, strings_view(keys@), options_view(values@)),
{
    let ghost kv = strings_view(keys@);
    let ghost vv = options_view(values@);
    let v = chars_of(value);
    let n = v.len();
    let mut r = String::new();
    if n == 0 {
        return r;
    }
    let mut i: usize = 1;
    while i < n
        invariant
            v@ == value@,
            n == v@.len(),
            1 <= i <= n,
            kv == strings_view(keys@),
            vv == options_view(values@),
            vv.len() == values@.len(),
            substituted_from(v@, 1, kv, vv) == r@ + substituted_from(v@, i as int, kv, vv),
        decreases n - i,
    {
        if is_word_char_exec(v[i]) {
            let j = scan_word(&v, i);
            proof {
                lemma_word_end(v@, i as int);
            }
            let tok = substring(value, i, j);
            let low = to_lowercase(tok.as_str());
            let b = key_position(keys, low.as_str());
            proof {
                lemma_key_index(kv, low@, 0);
            }
            let ghost before = r@;
            if b < keys.len() && b < values.len() && values[b].is_some() {
                match &values[b] {
                    Some(t) => r.append(t.as_str()),
                    None => {},
                }
            } else {
                r.append(tok.as_str());
            }
            assert(r@ == before + replacement(v@.subrange(i as int, j as int), kv, vv));
            assert(substituted_from(v@, 1, kv, vv) =~= r@ + substituted_from(v@, j as int, kv, vv));
            i = j;
        } else {
            let c = substring(value, i, i + 1);
            let ghost before = r@;
            r.append(c.as_str());
            assert(c@ =~= seq![v@[i as int]]);
            assert(substituted_from(v@, 1, kv, vv) =~= r@ + substituted_from(v@, i + 1, kv, vv));
            i = i + 1;
        }
    }
    assert(substituted_from(v@, 1, kv, vv) =~= r@);
    r
}

/// The keys of `stats`, in order.
pub fn stat_keys(stats: &Vec<Stat>) -> (keys: Vec<String>)
    ensures
        strings_view(keys@) == keys_of(stats_view(stats@)),
{
    let mut keys: Vec<String> = Vec::new();
    let mut i: usize = 0;
    while i < stats.len()
        invariant
            i <= stats@.len(),
            strings_view(keys@) == keys_of(stats_view(stats@)).subrange(0, i as int),
        decreases stats@.len() - i,
    {
        let k = stats[i].name();
        let ghost before = keys@;
        keys.push(k);
        assert(strings_view(keys@) =~= strings_view(before).push(k@));
        assert(keys_of(stats_view(stats@)).subrange(0, i + 1) =~= keys_of(stats_view(stats@)).subrange(0, i as int).push(k@));
        i = i + 1;
    }
    assert(keys_of(stats_view(stats@)).subrange(0, i as int) =~= keys_of(stats_view(stats@)));
    keys
}

/// The position of the first of `keys` equal to `k`, or `keys.len()`.
pub fn key_position(keys: &Vec<String>, k: &str) -> (r: usize)
    ensures
        r == key_index(strings_view(keys@), k@, 0),
{
    let mut i: usize = 0;
    while i < keys.len()
        invariant
            i <= keys@.len(),
            key_index(strings_view(keys@), k@, 0) == key_index(strings_view(keys@), k@, i as int),
        decreases keys@.len() - i,
    {
        if str_eq(keys[i].as_str(), k) {
            return i;
        }
        i = i + 1;
    }
    i
}

fn stack_contains(stack: &Vec<usize>, b: usize) -> (r: bool)
    ensures
        r == stack_view(stack@).contains(b as int),
{
    let mut i: usize = 0;
    while i < stack.len()
        invariant
            i <= stack@.len(),
            forall|k: int| 0 <= k < i ==> stack@[k] != b,
        decreases stack@.len() - i,
    {
        if stack[i] == b {
            assert(stack_view(stack@)[i as int] == b as int);
            return true;
        }
        i = i + 1;
    }
    assert(!stack_view(stack@).contains(b as int)) by {
        if stack_view(stack@).contains(b as int) {
            let w = choose|w: int| 0 <= w < stack_view(stack@).len() && stack_view(stack@)[w] == b as int;
            assert(stack@[w] == b);
        }
    }
    false
}

/// The end of the word of `v` that starts at `i`.
fn scan_word(v: &Vec<char>, i: usize) -> (j: usize)
    requires
        i <= v@.len(),
    ensures
        j == word_end(v@, i as int),
{
    let mut j: usize = i;
    while j < v.len() && is_word_char_exec(v[j])
        invariant
            i <= j <= v@.len(),
            word_end(v@, i as int) == word_end(v@, j as int),
        decreases v@.len() - j,
    {
        j = j + 1;
    }
    j
}

/// Searches the references from stat `a` for a way back to a stat already on
/// the stack `visiting` (whose last stat refers to `a`) or passed twice.
fn find_cycle(stats: &Vec<Stat>, keys: &Vec<String>, a: usize, visiting: &Vec<usize>) -> (r: bool)
    requires
        strings_view(keys@) == keys_of(stats_view(stats@)),
        a < stats@.len(),
        stack_view(visiting@).push(a as int).no_duplicates(),
        is_path(stats_view(stats@), stack_view(visiting@).push(a as int)),
    ensures
        r ==> cyclic_from(stats_view(stats@), stack_view(visiting@).push(a as int)[0]),
        !r ==> clean(stats_view(stats@), a as int, stack_view(visiting@)),
    decreases stats@.len() - visiting@.len(),
{
    let ghost sv = stats_view(stats@);
    let mut stack = visiting.clone();
    stack.push(a);
    let ghost sk = stack_view(stack@);
    assert(sk =~= stack_view(visiting@).push(a as int));
    proof {
        lemma_stack_bound(sk, sv.len() as int);
    }
    assert(!stack_view(visiting@).contains(a as int)) by {
        if stack_view(visiting@).contains(a as int) {
            let w = choose|w: int| 0 <= w < stack_view(visiting@).len() && stack_view(visiting@)[w] == a as int;
            assert(sk[w] == sk[sk.len() - 1]);
        }
    }
    if !stats[a].is_dynamic() {
        proof {
            lemma_clean_step(sv, a as int, stack_view(visiting@));
        }
        return false;
    }
    let v = chars_of(stats[a].value.as_str());
    let n = v.len();
    let mut i: usize = 1;
    while i < n
        invariant
            v@ == sv[a as int].value,
            sv == stats_view(stats@),
            sk == stack_view(stack@),
            sk == stack_view(visiting@).push(a as int),
            sk.no_duplicates(),
            is_path(sv, sk),
            sv[a as int].is_dynamic(),
            strings_view(keys@) == keys_of(sv),
            n == v@.len(),
            a < sv.len(),
            1 <= i <= n,
            i < n && is_word_char(v@[i as int]) ==> !is_word_char(v@[i - 1]),
            forall|s: int|
                #![trigger token_at(v@, s)]
                is_token_start(v@, s) && s < i && lookup(sv, lowercase_of(token_at(v@, s))) < sv.len()
                    ==> clean(sv, lookup(sv, lowercase_of(token_at(v@, s))), sk),
        decreases n - i,
    {
        if is_word_char_exec(v[i]) {
            let j = scan_word(&v, i);
            proof {
                lemma_word_end(v@, i as int);
            }
            let tok = substring(stats[a].value.as_str(), i, j);
            let low = to_lowercase(tok.as_str());
            let b = key_position(keys, low.as_str());
            assert(tok@ == token_at(v@, i as int));
            assert(b as int == lookup(sv, lowercase_of(token_at(v@, i as int))));
            if b < stats.len() {
                assert(refers(sv, a as int, b as int)) by {
                    assert(is_token_start(v@, i as int));
                }
                let ghost p = sk.push(b as int);
                assert(is_path(sv, p)) by {
                    assert forall|x: int, y: int| 0 <= x && y == x + 1 && y < p.len() implies #[trigger] refers(sv, p[x], p[y]) by {
                        if y < sk.len() {
                            assert(refers(sv, sk[x], sk[y]));
                        }
                    }
                }
                if stack_contains(&stack, b) {
                    proof {
                        let w = choose|w: int| 0 <= w < sk.len() && sk[w] == b as int;
                        assert(p[w] == p[p.len() - 1]);
                        assert(p[0] == sk[0]);
                        assert(!p.no_duplicates());
                        assert(is_path(sv, p) && p[0] == sk[0] && !p.no_duplicates());
                    }
                    return true;
                }
                assert(p.no_duplicates());
                assert(stack_view(stack@.push(b)) =~= p);
                proof {
                    lemma_stack_bound(p, sv.len() as int);
                }
                if find_cycle(stats, keys, b, &stack) {
                    return true;
                }
            }
            proof {
                assert forall|s: int| i < s < j implies !is_token_start(v@, s) by {
                    assert(is_word_char(v@[s - 1]));
                }
            }
            i = j;
        } else {
            i = i + 1;
        }
    }
    proof {
        assert forall|b: int| refers(sv, a as int, b) implies #[trigger] clean(sv, b, stack_view(visiting@).push(a as int)) by {
            let s = choose|s: int| is_token_start(sv[a as int].value, s) && lookup(sv, lowercase_of(#[trigger] token_at(sv[a as int].value, s))) == b;
            assert(s < i);
        }
        lemma_clean_step(sv, a as int, stack_view(visiting@));
    }
    false
}

/// Two stats whose formulas name each other (`A:=B`, `B:=A`) are each on a
/// cycle, so resolving either fails with `CyclicReference` (see `resolve_stat`).
pub proof fn lemma_mutual_reference_is_cyclic(stats: Seq<StatView>, a: int, b: int)
    requires
        refers(stats, a, b),
        refers(stats, b, a),
    ensures
        cyclic_from(stats, a),
        cyclic_from(stats, b),
{
    let p = seq![a, b, a];
    assert(is_path(stats, p) && p[0] == a && !p.no_duplicates()) by {
        assert(p[0] == p[2]);
    }
    let q = seq![b, a, b];
    assert(is_path(stats, q) && q[0] == b && !q.no_duplicates()) by {
        assert(q[0] == q[2]);
    }
}

/// `vals` gives a value to every stat that stat `a` refers to, and to each
/// static one among them its literal.
pub open spec fn covers(stats: Seq<StatView>, a: int, vals: Seq<Option<Seq<char>>>) -> bool {
    &&& vals.len() == stats.len()
    &&& forall|b: int|
        #[trigger] refers(stats, a, b) ==> vals[b] is Some && (!stats[b].is_dynamic() ==> vals[b] == Some(
            stats[b].value,
        ))
}

/// What a dynamic stat `a` hands the evaluator, given the values `vals` of
/// the stats it refers to.
pub open spec fn formula_with(stats: Seq<StatView>, a: int, vals: Seq<Option<Seq<char>>>) -> Seq<char> {
    substituted_from(stats[a].value, 1, keys_of(stats), vals)
}

/// Each stat's literal value, as the value of a reference to it.
pub open spec fn literals(stats: Seq<StatView>) -> Seq<Option<Seq<char>>> {
    stats.map_values(|s: StatView| Some(s.value))
}

/// Two value lists that agree on every stat that a word of the formula from
/// position `i` on looks up give the same substituted formula.
proof fn lemma_substitution_agrees(
    v: Seq<char>,
    i: int,
    keys: Seq<Seq<char>>,
    v1: Seq<Option<Seq<char>>>,
    v2: Seq<Option<Seq<char>>>,
)
    requires
        1 <= i <= v.len(),
        v.len() > 0 && !is_word_char(v[0]),
        i == v.len() || !is_word_char(v[i - 1]) || !is_word_char(v[i]),
        v1.len() == keys.len(),
        v2.len() == keys.len(),
        forall|s: int|
            #![trigger token_at(v, s)]
            is_token_start(v, s) && s >= i && key_index(keys, lowercase_of(token_at(v, s)), 0) < keys.len() ==> v1[key_index(
                keys,
                lowercase_of(token_at(v, s)),
                0,
            )] == v2[key_index(keys, lowercase_of(token_at(v, s)), 0)],
    ensures
        substituted_from(v, i, keys, v1) == substituted_from(v, i, keys, v2),
    decreases v.len() - i,
{
    if i < v.len() {
        if is_word_char(v[i]) {
            let j = word_end(v, i);
            lemma_word_end(v, i);
            lemma_key_index(keys, lowercase_of(token_at(v, i)), 0);
            assert(is_token_start(v, i));
            lemma_substitution_agrees(v, j, keys, v1, v2);
        } else {
            lemma_substitution_agrees(v, i + 1, keys, v1, v2);
        }
    }
}

/// Where every stat that dynamic stat `a` refers to is static, the formula it
/// hands the evaluator is its own with each reference replaced by the
/// referenced stat's literal (`Reflex:=1d20+DEX` with `DEX:16` rolls
/// `1d20+16`); see `resolve_stat`.
pub proof fn lemma_static_references_substitute_literals(
    stats: Seq<StatView>,
    a: int,
    vals: Seq<Option<Seq<char>>>,
)
    requires
        0 <= a < stats.len(),
        stats[a].is_dynamic(),
        covers(stats, a, vals),
        forall|b: int| #[trigger] refers(stats, a, b) ==> !stats[b].is_dynamic(),
    ensures
        formula_with(stats, a, vals) == formula_with(stats, a, literals(stats)),
{
    let v = stats[a].value;
    let keys = keys_of(stats);
    assert forall|s: int|
        #![trigger token_at(v, s)]
        is_token_start(v, s) && s >= 1 && key_index(keys, lowercase_of(token_at(v, s)), 0) < keys.len() implies vals[key_index(
            keys,
            lowercase_of(token_at(v, s)),
            0,
        )] == literals(stats)[key_index(keys, lowercase_of(token_at(v, s)), 0)] by {
        let b = key_index(keys, lowercase_of(token_at(v, s)), 0);
        lemma_key_index(keys, lowercase_of(token_at(v, s)), 0);
        assert(refers(stats, a, b));
    }
    if v.len() > 1 {
        lemma_substitution_agrees(v, 1, keys, vals, literals(stats));
    }
}

/// `e` is the formula of a dynamic stat, its references replaced by values,
/// and is not in the plain dice notation.
pub open spec fn unrollable_formula(stats: Seq<StatView>, e: Seq<char>) -> bool {
    exists|c: int, vals: Seq<Option<Seq<char>>>|
        0 <= c < stats.len() && stats[c].is_dynamic() && covers(stats, c, vals) && e == formula_with(stats, c, vals)
            && !rollable(e)
}

/// A static stat refers to nothing, so no chain from it repeats.
proof fn lemma_static_not_cyclic(stats: Seq<StatView>, a: int)
    requires
        0 <= a < stats.len(),
        !stats[a].is_dynamic(),
    ensures
        !cyclic_from(stats, a),
{
    assert forall|p: Seq<int>| is_path(stats, p) && p[0] == a implies p.no_duplicates() by {
        if p.len() >= 2 {
            assert(refers(stats, p[0], p[1]));
        }
    }
}

/// A clean stat starts no repeating chain of references.
proof fn lemma_clean_not_cyclic(stats: Seq<StatView>, a: int)
    requires
        clean(stats, a, Seq::empty()),
    ensures
        !cyclic_from(stats, a),
{
}

/// Resolves stat `a` to the text of its value: a static stat's literal, or the
/// total that the evaluator rolled for a dynamic stat's formula once each
/// reference is replaced by the referenced stat's resolved text. `visiting`
/// holds the stats being resolved, the last of which refers to `a`.
fn resolve_text(stats: &Vec<Stat>, keys: &Vec<String>, a: usize, visiting: &Vec<usize>) -> (r: Result<
    String,
    ResolutionError,
>)
    requires
        strings_view(keys@) == keys_of(stats_view(stats@)),
        a < stats@.len(),
        stack_view(visiting@).push(a as int).no_duplicates(),
        is_path(stats_view(stats@), stack_view(visiting@).push(a as int)),
    ensures
        !stats@[a as int]@.is_dynamic() ==> r is Ok && r->Ok_0@ == stats@[a as int]@.value,
        !(r matches Err(ResolutionError::UnknownStat)),
        r matches Err(ResolutionError::CyclicReference) ==> cyclic_from(
            stats_view(stats@),
            stack_view(visiting@).push(a as int)[0],
        ),
        stats@[a as int]@.is_dynamic() && r is Ok ==> exists|vals: Seq<Option<Seq<char>>>|
            covers(stats_view(stats@), a as int, vals) && rollable(formula_with(stats_view(stats@), a as int, vals))
                && (no_division(formula_with(stats_view(stats@), a as int, vals)) ==> integer_value(r->Ok_0@) is Some),
        r matches Err(ResolutionError::Unrollable(e)) ==> unrollable_formula(stats_view(stats@), e@),
    decreases stats@.len() - visiting@.len(),
{
    let ghost sv = stats_view(stats@);
    assert(sv[a as int] == stats@[a as int]@);
    if !stats[a].is_dynamic() {
        return Ok(stats[a].value.clone());
    }
    let mut stack = visiting.clone();
    stack.push(a);
    let ghost sk = stack_view(stack@);
    assert(sk =~= stack_view(visiting@).push(a as int));
    proof {
        lemma_stack_bound(sk, sv.len() as int);
    }
    let mut values: Vec<Option<String>> = Vec::new();
    while values.len() < stats.len()
        invariant
            values@.len() <= stats@.len(),
            forall|b: int| 0 <= b < values@.len() ==> values@[b] is None,
        decreases stats@.len() - values@.len(),
    {
        values.push(None);
    }
    let value = stats[a].value.as_str();
    let v = chars_of(value);
    let n = v.len();
    let mut i: usize = 1;
    while i < n
        invariant
            v@ == sv[a as int].value,
            sv == stats_view(stats@),
            sk == stack_view(stack@),
            sk == stack_view(visiting@).push(a as int),
            sk.no_duplicates(),
            is_path(sv, sk),
            sv[a as int].is_dynamic(),
            strings_view(keys@) == keys_of(sv),
            values@.len() == stats@.len(),
            v@ == value@,
            n == v@.len(),
            a < sv.len(),
            1 <= i <= n,
            forall|b: int|
                0 <= b < sv.len() && #[trigger] values@[b] is Some && !sv[b].is_dynamic() ==> values@[b]->0@
                    == sv[b].value,
            forall|s: int|
                #![trigger token_at(v@, s)]
                is_token_start(v@, s) && s < i && lookup(sv, lowercase_of(token_at(v@, s))) < sv.len()
                    ==> values@[lookup(sv, lowercase_of(token_at(v@, s)))] is Some,
        decreases n - i,
    {
        let ghost values0 = values@;
        if is_word_char_exec(v[i]) {
            let j = scan_word(&v, i);
            proof {
                lemma_word_end(v@, i as int);
            }
            let tok = substring(value, i, j);
            let low = to_lowercase(tok.as_str());
            let b = key_position(keys, low.as_str());
            assert(tok@ == token_at(v@, i as int));
            assert(b as int == lookup(sv, lowercase_of(token_at(v@, i as int))));
            if b < stats.len() && i >= 1 && !is_word_char_exec(v[i - 1]) {
                assert(refers(sv, a as int, b as int)) by {
                    assert(is_token_start(v@, i as int));
                }
                let ghost p = sk.push(b as int);
                assert(is_path(sv, p)) by {
                    assert forall|x: int, y: int| 0 <= x && y == x + 1 && y < p.len() implies #[trigger] refers(sv, p[x], p[y]) by {
                        if y < sk.len() {
                            assert(refers(sv, sk[x], sk[y]));
                        }
                    }
                }
                if stack_contains(&stack, b) {
                    proof {
                        let w = choose|w: int| 0 <= w < sk.len() && sk[w] == b as int;
                        assert(p[w] == p[p.len() - 1]);
                        assert(!p.no_duplicates());
                        assert(is_path(sv, p) && p[0] == sk[0] && !p.no_duplicates());
                    }
                    return Err(ResolutionError::CyclicReference);
                }
                if values[b].is_none() {
                    assert(p.no_duplicates());
                    assert(stack_view(stack@.push(b)) =~= p);
                    proof {
                        lemma_stack_bound(p, sv.len() as int);
                    }
                    match resolve_text(stats, keys, b, &stack) {
                        Ok(t) => {
                            assert(!sv[b as int].is_dynamic() ==> t@ == sv[b as int].value);
                            values.set(b, Some(t));
                        },
                        Err(e) => {
                            return Err(e);
                        },
                    }
                }
            }
            proof {
                assert forall|s: int| i < s < j implies !is_token_start(v@, s) by {
                    assert(is_word_char(v@[s - 1]));
                }
                assert forall|c: int| 0 <= c < values@.len() && values0[c] is Some implies #[trigger] values@[c] is Some by {
                    if c != b {
                        assert(values@[c] == values0[c]);
                    }
                }
                assert forall|s: int|
                    #![trigger token_at(v@, s)]
                    is_token_start(v@, s) && s < j && lookup(sv, lowercase_of(token_at(v@, s))) < sv.len() implies values@[lookup(
                        sv,
                        lowercase_of(token_at(v@, s)),
                    )] is Some by {
                    if s < i {
                        let c = lookup(sv, lowercase_of(token_at(v@, s)));
                        assert(values0[c] is Some);
                        assert(0 <= c < values@.len()) by {
                            lemma_key_index(keys_of(sv), lowercase_of(token_at(v@, s)), 0);
                        }
                        assert(values@[c] is Some);
                    } else if s > i {
                        assert(is_word_char(v@[s - 1]));
                    } else {
                        assert(b < sv.len());
                        assert(values@[b as int] is Some);
                    }
                }
            }
            i = j;
        } else {
            i = i + 1;
        }
    }
    let ghost vals = options_view(values@);
    assert(covers(sv, a as int, vals)) by {
        assert forall|b: int| #[trigger] refers(sv, a as int, b) implies vals[b] is Some && (!sv[b].is_dynamic()
            ==> vals[b] == Some(sv[b].value)) by {
            let s = choose|s: int| is_token_start(sv[a as int].value, s) && lookup(sv, lowercase_of(#[trigger] token_at(sv[a as int].value, s))) == b;
            assert(s < i);
            assert(values@[b] is Some);
        }
    }
    let expr = substitute(value, keys, &values);
    assert(expr@ == formula_with(sv, a as int, vals));
    match roll(expr.as_str()) {
        Ok(d) => Ok(d.total),
        Err(RollError::Unsupported) => Err(ResolutionError::Unrollable(expr)),
        Err(RollError::Evaluator(m)) => Err(ResolutionError::Evaluator(m)),
    }
}

/// Resolves a formula `value` (with its leading `=`) that stands beside
/// `stats` without being one of them, such as a stat's maximum: each word that
/// names a stat is replaced by that stat's resolved value, and the result is
/// rolled.
pub fn resolve_formula(stats: &Vec<Stat>, keys: &Vec<String>, value: &str) -> (r: Result<String, ResolutionError>)
    requires
        strings_view(keys@) == keys_of(stats_view(stats@)),
    ensures
        r is Ok ==> exists|vals: Seq<Option<Seq<char>>>|
            vals.len() == stats@.len() && rollable(substituted_from(value@, 1, keys_of(stats_view(stats@)), vals)),
{
    let ghost sv = stats_view(stats@);
    let mut values: Vec<Option<String>> = Vec::new();
    while values.len() < stats.len()
        invariant
            values@.len() <= stats@.len(),
        decreases stats@.len() - values@.len(),
    {
        values.push(None);
    }
    let empty: Vec<usize> = Vec::new();
    let v = chars_of(value);
    let n = v.len();
    let mut i: usize = 1;
    while i < n
        invariant
            sv == stats_view(stats@),
            strings_view(keys@) == keys_of(sv),
            values@.len() == stats@.len(),
            empty@.len() == 0,
            v@ == value@,
            n == v@.len(),
            1 <= i <= n || n == 0,
        decreases n - i,
    {
        if is_word_char_exec(v[i]) {
            let j = scan_word(&v, i);
            proof {
                lemma_word_end(v@, i as int);
            }
            let tok = substring(value, i, j);
            let low = to_lowercase(tok.as_str());
            let b = key_position(keys, low.as_str());
            if b < stats.len() && values[b].is_none() {
                assert(stack_view(empty@).push(b as int) =~= seq![b as int]);
                assert(is_path(sv, seq![b as int]));
                if find_cycle(stats, keys, b, &empty) {
                    return Err(ResolutionError::CyclicReference);
                }
                match resolve_text(stats, keys, b, &empty) {
                    Ok(t) => {
                        values.set(b, Some(t));
                    },
                    Err(e) => {
                        return Err(e);
                    },
                }
            }
            i = j;
        } else {
            i = i + 1;
        }
    }
    let expr = substitute(value, keys, &values);
    match roll(expr.as_str()) {
        Ok(d) => Ok(d.total),
        Err(RollError::Unsupported) => Err(ResolutionError::Unrollable(expr)),
        Err(RollError::Evaluator(m)) => Err(ResolutionError::Evaluator(m)),
    }
}

/// The stats of `character`, as a lookup sees them.
pub open spec fn character_stats(character: &Character) -> Seq<StatView> {
    stats_view(character.stats@)
}

/// Resolves the stat of `character` whose key is `key` lower-cased (the first
/// such stat). A static stat gives its literal, read as a number where it is
/// one. A dynamic stat gives the evaluator's total for its formula, each word
/// that names a sibling replaced by that sibling's resolved value; a formula
/// that leads back to a stat being resolved fails as a cycle, before any dice
/// are rolled.
pub fn resolve_stat(character: &Character, key: &str) -> (r: Result<ResolvedValue, ResolutionError>)
    ensures
        lookup(character_stats(character), lowercase_of(key@)) >= character.stats@.len() <==> r matches Err(
            ResolutionError::UnknownStat,
        ),
        ({
            let a = lookup(character_stats(character), lowercase_of(key@));
            a < character.stats@.len() ==> {
                &&& !character_stats(character)[a].is_dynamic() ==> r is Ok && r->Ok_0@ == value_of_text(
                    character_stats(character)[a].value,
                )
                &&& (r matches Err(ResolutionError::CyclicReference)) <==> cyclic_from(character_stats(character), a)
                &&& character_stats(character)[a].is_dynamic() && r is Ok ==> exists|vals: Seq<Option<Seq<char>>>|
                    covers(character_stats(character), a, vals) && rollable(
                        formula_with(character_stats(character), a, vals),
                    ) && (no_division(formula_with(character_stats(character), a, vals)) ==> r->Ok_0 is Number)
            }
        }),
        r matches Err(ResolutionError::Unrollable(e)) ==> unrollable_formula(character_stats(character), e@),
{
    let stats = &character.stats;
    let ghost sv = stats_view(stats@);
    let keys = stat_keys(stats);
    let low = to_lowercase(key);
    let a = key_position(&keys, low.as_str());
    proof {
        lemma_key_index(keys_of(sv), lowercase_of(key@), 0);
    }
    if a >= stats.len() {
        return Err(ResolutionError::UnknownStat);
    }
    let empty: Vec<usize> = Vec::new();
    assert(stack_view(empty@).push(a as int) =~= seq![a as int]);
    assert(is_path(sv, seq![a as int]));
    assert(stack_view(empty@).push(a as int)[0] == a);
    if find_cycle(stats, &keys, a, &empty) {
        proof {
            if !sv[a as int].is_dynamic() {
                lemma_static_not_cyclic(sv, a as int);
            }
        }
        return Err(ResolutionError::CyclicReference);
    }
    assert(stack_view(empty@) =~= Seq::<int>::empty());
    proof {
        lemma_clean_not_cyclic(sv, a as int);
    }
    match resolve_text(stats, &keys, a, &empty) {
        Ok(t) => Ok(value_from_text(t)),
        Err(e) => Err(e),
    }
}

} // verus!
