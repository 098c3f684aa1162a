//! Characters and the effects that name them.

use vstd::prelude::*;
use crate::command::{ParseError, NounTargetStatsView, noun_target_stats, parse_noun_target_stats_command};
use crate::resolve::{integer_value, options_view, key_index, keys_of, parse_integer, stat_keys, key_position, lemma_key_index};
use crate::command::strings_view;
use crate::stat::{Stat, StatView, stats_view};

verus! {

/// Who controls a character.
#[derive(PartialEq, Eq, Structural, Clone, Copy, Debug)]
pub enum CharacterKind {
    Player,
    Npc,
}

/// A status effect. It names the characters it involves instead of holding
/// them, so a named character may since have been removed.
pub struct Effect {
    pub name: String,
    /// Whole seconds of the duration.
    pub duration_seconds: i64,
    /// The part of the duration below a second, in nanoseconds.
    pub duration_nanoseconds: i32,
    /// The name of the character the effect comes from.
    pub owner: String,
    /// The name of the character the effect acts on.
    pub target: String,
}

pub struct EffectView {
    pub name: Seq<char>,
    pub duration_seconds: i64,
    pub duration_nanoseconds: i32,
    pub owner: Seq<char>,
    pub target: Seq<char>,
}

impl View for Effect {
    type V = EffectView;

    open spec fn view(&self) -> EffectView {
        EffectView {
            name: self.name@,
            duration_seconds: self.duration_seconds,
            duration_nanoseconds: self.duration_nanoseconds,
            owner: self.owner@,
            target: self.target@,
        }
    }
}

pub open spec fn effects_view(v: Seq<Effect>) -> Seq<EffectView> {
    v.map_values(|e: Effect| e@)
}

/// A player character or a non-player character.
pub struct Character {
    pub kind: CharacterKind,
    pub name: String,
    /// The chat user who owns the character.
    pub owner: u64,
    pub effects: Vec<Effect>,
    pub stats: Vec<Stat>,
}

pub struct CharacterView {
    pub kind: CharacterKind,
    pub name: Seq<char>,
    pub owner: u64,
    pub effects: Seq<EffectView>,
    pub stats: Seq<StatView>,
}

impl View for Character {
    type V = CharacterView;

    open spec fn view(&self) -> CharacterView {
        CharacterView {
            kind: self.kind,
            name: self.name@,
            owner: self.owner,
            effects: effects_view(self.effects@),
            stats: stats_view(self.stats@),
        }
    }
}

pub open spec fn characters_view(v: Seq<Character>) -> Seq<CharacterView> {
    v.map_values(|c: Character| c@)
}

/// The value a set stores: the new value, clamped to `[0, bound]` where both
/// read as integers, `bound` being the resolved maximum. A value below zero
/// becomes `0`, one above the bound becomes the bound's text.
pub open spec fn clamped_value(value: Seq<char>, bound: Option<Seq<char>>) -> Seq<char> {
    match (integer_value(value), bound) {
        (Some(x), Some(m)) => match integer_value(m) {
            Some(top) => if x < 0 {
                "0"@
            } else if x > top {
                m
            } else {
                value
            },
            None => value,
        },
        _ => value,
    }
}

/// Whether a value or a maximum is a formula.
pub open spec fn is_formula(v: Seq<char>) -> bool {
    v.len() > 0 && v[0] == '='
}

/// What a value is clamped to: a literal maximum itself; for a formula
/// maximum, `resolved`, what the formula resolved to (`None` where it could
/// not be resolved, which leaves the value unclamped).
pub open spec fn clamp_bound(maximum: Option<Seq<char>>, resolved: Option<Seq<char>>) -> Option<Seq<char>> {
    match maximum {
        None => None,
        Some(m) => if is_formula(m) {
            resolved
        } else {
            Some(m)
        },
    }
}

/// The stat `old` after a set by `new`: the value replaced and clamped, the
/// maximum replaced only where `new` gives one; name and display unchanged.
/// `resolved` is what a formula maximum resolved to.
pub open spec fn set_stat_view(old: StatView, new: StatView, resolved: Option<Seq<char>>) -> StatView {
    let maximum = if new.maximum_value is Some { new.maximum_value } else { old.maximum_value };
    StatView { value: clamped_value(new.value, clamp_bound(maximum, resolved)), maximum_value: maximum, ..old }
}

/// Setting a stat without a `/max` keeps its maximum; the key never changes.
pub proof fn lemma_set_keeps_maximum(old: StatView, new: StatView, resolved: Option<Seq<char>>)
    requires
        new.maximum_value is None,
    ensures
        set_stat_view(old, new, resolved).maximum_value == old.maximum_value,
        set_stat_view(old, new, resolved).key() == old.key(),
{
}

/// A set whose value and maximum both read as integers, with the maximum not
/// below zero, stores a value within `[0, maximum]`.
pub proof fn lemma_set_value_in_range(value: Seq<char>, maximum: Seq<char>)
    requires
        integer_value(value) is Some,
        integer_value(maximum) is Some,
        integer_value(maximum)->0 >= 0,
    ensures
        integer_value(clamped_value(value, Some(maximum))) is Some,
        0 <= integer_value(clamped_value(value, Some(maximum)))->0 <= integer_value(maximum)->0,
{
    reveal_strlit("0");
    let z = "0"@;
    assert(!(z.len() > 0 && z[0] == '-'));
    assert(crate::resolve::all_digits(z));
    assert(z.drop_last() =~= Seq::<char>::empty());
    assert(crate::resolve::digits_value(z.drop_last()) == 0);
    assert(z.last() == '0');
    assert(crate::resolve::digits_value(z) == 0);
}

/// The stats after each of `news` in turn set the first stat with its key,
/// `resolved[i]` being what a formula maximum of the `i`-th resolved to;
/// `None` where one of them has no such stat.
pub open spec fn stats_after_set(
    stats: Seq<StatView>,
    news: Seq<StatView>,
    resolved: Seq<Option<Seq<char>>>,
) -> Option<Seq<StatView>>
    decreases news.len(),
{
    if news.len() == 0 {
        Some(stats)
    } else {
        match stats_after_set(stats, news.drop_last(), resolved) {
            None => None,
            Some(before) => {
                let k = key_index(keys_of(before), news.last().key(), 0);
                if k < before.len() {
                    Some(before.update(k, set_stat_view(before[k], news.last(), resolved[news.len() - 1])))
                } else {
                    None
                }
            },
        }
    }
}

/// Every one of `news` finds a stat with its key among `stats`.
pub open spec fn all_found(stats: Seq<StatView>, news: Seq<StatView>) -> bool {
    forall|i: int| 0 <= i < news.len() ==> key_index(keys_of(stats), #[trigger] news[i].key(), 0) < stats.len()
}

/// Setting stats keeps their keys, so a set succeeds exactly when each key is found.
proof fn lemma_set_keeps_keys(stats: Seq<StatView>, news: Seq<StatView>, resolved: Seq<Option<Seq<char>>>)
    ensures
        stats_after_set(stats, news, resolved) is Some <==> all_found(stats, news),
        stats_after_set(stats, news, resolved) is Some ==> keys_of(stats_after_set(stats, news, resolved)->0)
            == keys_of(stats) && stats_after_set(stats, news, resolved)->0.len() == stats.len(),
    decreases news.len(),
{
    if news.len() > 0 {
        let front = news.drop_last();
        lemma_set_keeps_keys(stats, front, resolved);
        assert forall|i: int| 0 <= i < front.len() implies #[trigger] front[i].key() == news[i].key() by {}
        if stats_after_set(stats, front, resolved) is Some {
            let before = stats_after_set(stats, front, resolved)->0;
            let k = key_index(keys_of(before), news.last().key(), 0);
            lemma_key_index(keys_of(before), news.last().key(), 0);
            if k < before.len() {
                let after = before.update(k, set_stat_view(before[k], news.last(), resolved[news.len() - 1]));
                assert(keys_of(after) =~= keys_of(before));
            }
            if all_found(stats, news) {
                assert(key_index(keys_of(stats), news[news.len() - 1].key(), 0) < stats.len());
            }
            if all_found(stats, front) && k < before.len() {
                assert forall|i: int| 0 <= i < news.len() implies key_index(keys_of(stats), #[trigger] news[i].key(), 0)
                    < stats.len() by {
                    if i < front.len() {
                        assert(front[i].key() == news[i].key());
                    }
                }
            }
        } else {
            if all_found(stats, news) {
                assert forall|i: int| 0 <= i < front.len() implies key_index(keys_of(stats), #[trigger] front[i].key(), 0)
                    < stats.len() by {
                    assert(front[i].key() == news[i].key());
                }
            }
        }
    }
}

/// Decides `is_formula`.
pub fn is_formula_text(v: &str) -> (r: bool)
    ensures
        r == is_formula(v@),
{
    v.unicode_len() > 0 && v.get_char(0) == '='
}

/// The value that a set by `new` stores, given the bound it is clamped to.
fn clamp_value(value: String, bound: &Option<String>) -> (r: String)
    ensures
        r@ == clamped_value(value@, crate::stat::option_view(*bound)),
{
    match (parse_integer(value.as_str()), bound) {
        (Some(x), Some(m)) => match parse_integer(m.as_str()) {
            Some(top) => if x < 0 {
                String::from_str("0")
            } else if x > top {
                m.clone()
            } else {
                value
            },
            None => value,
        },
        _ => value,
    }
}

impl Character {
    /// A character with no effects and no stats.
    pub fn new(kind: CharacterKind, name: String, owner: u64) -> (r: Character)
        ensures
            r@ == (CharacterView {
                kind,
                name: name@,
                owner,
                effects: Seq::empty(),
                stats: Seq::empty(),
            }),
    {
        let r = Character { kind, name, owner, effects: Vec::new(), stats: Vec::new() };
        assert(effects_view(r.effects@) =~= Seq::empty());
        assert(stats_view(r.stats@) =~= Seq::empty());
        r
    }

    /// Appends the stats that a `noun target stat...` command assigns. On a
    /// command that cannot be read nothing changes.
    pub fn add_stat(&mut self, arguments: &str) -> (r: Result<(), ParseError>)
        ensures
            r is Ok <==> noun_target_stats(arguments@) is Ok,
            r is Ok ==> final(self)@ == (CharacterView {
                stats: old(self)@.stats + noun_target_stats(arguments@)->Ok_0.stats,
                ..old(self)@
            }),
            r is Err ==> *final(self) == *old(self),
            r is Err ==> noun_target_stats(arguments@) == Err::<NounTargetStatsView, ParseError>(r->Err_0),
    {
        let parsed = match parse_noun_target_stats_command(arguments) {
            Ok(parsed) => parsed,
            Err(e) => return Err(e),
        };
        self.append_stats(parsed.stats);
        Ok(())
    }

    /// Sets the first stat whose key is `new`'s key, as `set_stat_view` says,
    /// with `resolved` what a formula maximum resolved to.
    pub fn set_stat(&mut self, new: &Stat, resolved: &Option<String>) -> (r: bool)
        ensures
            ({
                let k = key_index(keys_of(old(self)@.stats), new@.key(), 0);
                &&& r <==> k < old(self)@.stats.len()
                &&& r ==> final(self)@ == (CharacterView {
                    stats: old(self)@.stats.update(
                        k,
                        set_stat_view(old(self)@.stats[k], new@, crate::stat::option_view(*resolved)),
                    ),
                    ..old(self)@
                })
                &&& !r ==> *final(self) == *old(self)
            }),
    {
        let keys = stat_keys(&self.stats);
        let key = new.name();
        let k = key_position(&keys, key.as_str());
        proof {
            lemma_key_index(keys_of(stats_view(self.stats@)), key@, 0);
        }
        if k >= self.stats.len() {
            return false;
        }
        let ghost start = stats_view(self.stats@);
        let old_stat = self.stats.remove(k);
        let maximum_value = match &new.maximum_value {
            Some(m) => Some(m.clone()),
            None => old_stat.maximum_value,
        };
        let bound = match &maximum_value {
            None => None,
            Some(m) => if is_formula_text(m.as_str()) {
                match resolved {
                    Some(t) => Some(t.clone()),
                    None => None,
                }
            } else {
                Some(m.clone())
            },
        };
        let value = clamp_value(new.value.clone(), &bound);
        let updated = Stat {
            display_name: old_stat.display_name,
            display_on_tracker: old_stat.display_on_tracker,
            value,
            maximum_value,
        };
        assert(updated@ == set_stat_view(start[k as int], new@, crate::stat::option_view(*resolved)));
        self.stats.insert(k, updated);
        assert(stats_view(self.stats@) =~= start.update(
            k as int,
            set_stat_view(start[k as int], new@, crate::stat::option_view(*resolved)),
        ));
        true
    }

    /// Sets each of `news` in turn, as `stats_after_set` says, with
    /// `resolved` what their formula maxima resolved to; where one of them
    /// names no stat, nothing changes.
    pub fn set_stats(&mut self, news: &Vec<Stat>, resolved: &Vec<Option<String>>) -> (r: bool)
        requires
            resolved@.len() == news@.len(),
        ensures
            r <==> all_found(old(self)@.stats, stats_view(news@)),
            r ==> final(self)@ == (CharacterView {
                stats: stats_after_set(old(self)@.stats, stats_view(news@), options_view(resolved@))->0,
                ..old(self)@
            }),
            !r ==> *final(self) == *old(self),
    {
        let ghost start = self@;
        let ghost nv = stats_view(news@);
        let ghost rv = options_view(resolved@);
        let keys = stat_keys(&self.stats);
        let mut i: usize = 0;
        while i < news.len()
            invariant
                *self == *old(self),
                start == self@,
                nv == stats_view(news@),
                strings_view(keys@) == keys_of(start.stats),
                i <= news@.len(),
                all_found(start.stats, nv.subrange(0, i as int)),
            decreases news@.len() - i,
        {
            let key = news[i].name();
            let k = key_position(&keys, key.as_str());
            if k >= self.stats.len() {
                proof {
                    assert(nv[i as int].key() == key@);
                    lemma_set_keeps_keys(start.stats, nv, rv);
                }
                return false;
            }
            assert(nv[i as int].key() == key@);
            assert forall|j: int| 0 <= j < i + 1 implies key_index(keys_of(start.stats), #[trigger] nv.subrange(0, i + 1)[j].key(), 0)
                < start.stats.len() by {
                if j < i {
                    assert(nv.subrange(0, i as int)[j] == nv.subrange(0, i + 1)[j]);
                }
            }
            i = i + 1;
        }
        assert(nv.subrange(0, i as int) =~= nv);
        proof {
            lemma_set_keeps_keys(start.stats, nv, rv);
        }
        let mut i: usize = 0;
        while i < news.len()
            invariant
                nv == stats_view(news@),
                rv == options_view(resolved@),
                resolved@.len() == news@.len(),
                i <= news@.len(),
                all_found(start.stats, nv),
                stats_after_set(start.stats, nv.subrange(0, i as int), rv) is Some,
                self@ == (CharacterView { stats: stats_after_set(start.stats, nv.subrange(0, i as int), rv)->0, ..start }),
            decreases news@.len() - i,
        {
            let ghost front = nv.subrange(0, i as int);
            let ghost next = nv.subrange(0, i + 1);
            assert(next.drop_last() =~= front);
            assert(next.last() == nv[i as int]);
            proof {
                lemma_set_keeps_keys(start.stats, front, rv);
                lemma_set_keeps_keys(start.stats, next, rv);
                assert(all_found(start.stats, next)) by {
                    assert forall|j: int| 0 <= j < next.len() implies key_index(keys_of(start.stats), #[trigger] next[j].key(), 0)
                        < start.stats.len() by {
                        assert(next[j] == nv[j]);
                    }
                }
            }
            self.set_stat(&news[i], &resolved[i]);
            assert(rv[i as int] == crate::stat::option_view(resolved@[i as int]));
            assert(news@[i as int]@ == nv[i as int]);
            i = i + 1;
        }
        assert(nv.subrange(0, i as int) =~= nv);
        true
    }

    /// Appends `stats` in their order.
    pub fn append_stats(&mut self, stats: Vec<Stat>)
        ensures
            final(self)@ == (CharacterView { stats: old(self)@.stats + stats_view(stats@), ..old(self)@ }),
    {
        let mut stats = stats;
        let ghost added = stats_view(stats@);
        let ghost start = stats_view(self.stats@);
        self.stats.append(&mut stats);
        assert(stats_view(self.stats@) =~= start + added);
    }
}

} // verus!
