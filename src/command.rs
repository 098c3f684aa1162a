//! The command grammar: words, stat assignments, and `noun target stats...`.
//!
//! A word is a run of characters that are not separators, or a `"`-quoted run
//! that may hold separators (the quotes are dropped). A stat assignment is
//! `[!]Name:Value[/Max]`.

use vstd::prelude::*;
use crate::stat::{Stat, StatView, stats_view};
use crate::text::{chars_of, find_char, index_of, is_space, is_space_char, lemma_index_of, substring};

verus! {

/// Why a command could not be read.
#[derive(PartialEq, Eq, Structural, Clone, Copy, Debug)]
pub enum ParseError {
    /// The command holds no word.
    NoNoun,
    /// The command holds a noun but no target.
    NoTarget,
    /// A stat assignment holds no `:`.
    MissingColon,
    /// A stat assignment has nothing before its `:`.
    EmptyStatName,
}

/// The reply to a command that cannot be read.
pub open spec fn parse_error_text(e: ParseError) -> Seq<char> {
    match e {
        ParseError::NoNoun => "Failed to parse command. No noun found. Remember the add command should follow the verb-noun-target syntax. For more help, consult `!help add`."@,
        ParseError::NoTarget => "Failed to parse command. No target found. Remember the add command should follow the verb-noun-target syntax. For more help, consult `!help add`."@,
        ParseError::MissingColon => "Failed to parse command. A stat needs a colon between its name and its value, like `HP:35/35`. Remember the add command should follow the verb-noun-target syntax. For more help, consult `!help add`."@,
        ParseError::EmptyStatName => "Failed to parse command. A stat needs a name before its colon, like `HP:35/35`. Remember the add command should follow the verb-noun-target syntax. For more help, consult `!help add`."@,
    }
}

impl ParseError {
    /// The reply shown to the user.
    pub fn message(&self) -> (r: String)
        ensures
            r@ == parse_error_text(*self),
    {
        match self {
            ParseError::NoNoun => String::from_str(
                "Failed to parse command. No noun found. Remember the add command should follow the verb-noun-target syntax. For more help, consult `!help add`.",
            ),
            ParseError::NoTarget => String::from_str(
                "Failed to parse command. No target found. Remember the add command should follow the verb-noun-target syntax. For more help, consult `!help add`.",
            ),
            ParseError::MissingColon => String::from_str(
                "Failed to parse command. A stat needs a colon between its name and its value, like `HP:35/35`. Remember the add command should follow the verb-noun-target syntax. For more help, consult `!help add`.",
            ),
            ParseError::EmptyStatName => String::from_str(
                "Failed to parse command. A stat needs a name before its colon, like `HP:35/35`. Remember the add command should follow the verb-noun-target syntax. For more help, consult `!help add`.",
            ),
        }
    }
}

/// The stat that `w` assigns.
pub open spec fn stat_from_text(w: Seq<char>) -> Result<StatView, ParseError> {
    let flag = w.len() > 0 && w[0] == '!';
    let start: int = if flag { 1 } else { 0 };
    let colon = index_of(w, ':', start);
    let slash = index_of(w, '/', colon + 1);
    if colon >= w.len() {
        Err(ParseError::MissingColon)
    } else if colon == start {
        Err(ParseError::EmptyStatName)
    } else {
        Ok(
            StatView {
                display_name: w.subrange(start, colon),
                display_on_tracker: flag,
                value: w.subrange(colon + 1, slash),
                maximum_value: if slash < w.len() {
                    Some(w.subrange(slash + 1, w.len() as int))
                } else {
                    None
                },
            },
        )
    }
}

/// Reads a stat assignment such as `HP:35/35`, `!FP:2/3` or `Reflex:=1d20+DEX`.
pub fn parse_stat_assignment(text: &str) -> (r: Result<Stat, ParseError>)
    ensures
        r is Ok <==> stat_from_text(text@) is Ok,
        r is Ok ==> stat_from_text(text@)->Ok_0 == r->Ok_0@,
        r is Err ==> stat_from_text(text@) == Err::<StatView, ParseError>(r->Err_0),
{
    let v = chars_of(text);
    let n = v.len();
    let flag = n > 0 && v[0] == '!';
    let start: usize = if flag { 1 } else { 0 };
    let colon = find_char(&v, ':', start);
    proof {
        lemma_index_of(v@, ':', start as int);
    }
    if colon >= n {
        return Err(ParseError::MissingColon);
    }
    if colon == start {
        return Err(ParseError::EmptyStatName);
    }
    let slash = find_char(&v, '/', colon + 1);
    proof {
        lemma_index_of(v@, '/', colon + 1);
    }
    let display_name = substring(text, start, colon);
    let value = substring(text, colon + 1, slash);
    let maximum_value = if slash < n {
        Some(substring(text, slash + 1, n))
    } else {
        None
    };
    Ok(Stat { display_name, display_on_tracker: flag, value, maximum_value })
}

/// The end of the unquoted word that starts at `i`.
pub open spec fn bare_end(s: Seq<char>, i: int) -> int
    decreases s.len() - i,
{
    if i >= s.len() || is_space(s[i]) {
        i
    } else {
        bare_end(s, i + 1)
    }
}

pub proof fn lemma_bare_end(s: Seq<char>, i: int)
    requires
        0 <= i <= s.len(),
    ensures
        i <= bare_end(s, i) <= s.len(),
        i < s.len() && !is_space(s[i]) ==> i < bare_end(s, i),
    decreases s.len() - i,
{
    if i < s.len() && !is_space(s[i]) {
        lemma_bare_end(s, i + 1);
    }
}

/// The words of `s` from position `i` on.
pub open spec fn words_from(s: Seq<char>, i: int) -> Seq<Seq<char>>
    decreases s.len() + 1 - i,
    via words_from_decreases
{
    if i >= s.len() || i < 0 {
        seq![]
    } else if is_space(s[i]) {
        words_from(s, i + 1)
    } else if s[i] == '"' {
        let j = index_of(s, '"', i + 1);
        seq![s.subrange(i + 1, j)] + words_from(s, j + 1)
    } else {
        let j = bare_end(s, i);
        seq![s.subrange(i, j)] + words_from(s, j)
    }
}

#[via_fn]
proof fn words_from_decreases(s: Seq<char>, i: int) {
    if 0 <= i < s.len() {
        lemma_index_of(s, '"', i + 1);
        lemma_bare_end(s, i);
    }
}

/// The words of `s`.
pub open spec fn words(s: Seq<char>) -> Seq<Seq<char>> {
    words_from(s, 0)
}

pub open spec fn strings_view(v: Seq<String>) -> Seq<Seq<char>> {
    v.map_values(|w: String| w@)
}

/// Splits `s` into its words.
pub fn split_words(s: &str) -> (ws: Vec<String>)
    ensures
        strings_view(ws@) == words(s@),
{
    let v = chars_of(s);
    let n = v.len();
    let mut ws: Vec<String> = Vec::new();
    let mut i: usize = 0;
    while i < n
        invariant
            v@ == s@,
            n == v@.len(),
            i <= n,
            words(s@) == strings_view(ws@) + words_from(s@, i as int),
        decreases n - i,
    {
        if is_space_char(v[i]) {
            i = i + 1;
        } else if v[i] == '"' {
            let j = find_char(&v, '"', i + 1);
            proof {
                lemma_index_of(v@, '"', i + 1);
            }
            let w = substring(s, i + 1, j);
            let ghost before = ws@;
            ws.push(w);
            assert(strings_view(ws@) =~= strings_view(before).push(w@));
            assert(words(s@) =~= strings_view(ws@) + words_from(s@, j + 1));
            if j < n {
                i = j + 1;
            } else {
                i = n;
            }
        } else {
            let mut j: usize = i;
            while j < n && !is_space_char(v[j])
                invariant
                    v@ == s@,
                    n == v@.len(),
                    i <= j <= n,
                    bare_end(s@, i as int) == bare_end(s@, j as int),
                decreases n - j,
            {
                j = j + 1;
            }
            proof {
                lemma_bare_end(s@, i as int);
            }
            let w = substring(s, i, j);
            let ghost before = ws@;
            ws.push(w);
            assert(strings_view(ws@) =~= strings_view(before).push(w@));
            assert(words(s@) =~= strings_view(ws@) + words_from(s@, j as int));
            i = j;
        }
    }
    assert(words(s@) =~= strings_view(ws@));
    ws
}

/// The first word of a command: its noun.
pub fn get_noun(arguments: &str) -> (r: Result<String, ParseError>)
    ensures
        r is Ok <==> words(arguments@).len() > 0,
        r is Ok ==> r->Ok_0@ == words(arguments@)[0],
        r is Err ==> r->Err_0 == ParseError::NoNoun,
{
    let ws = split_words(arguments);
    if ws.len() == 0 {
        Err(ParseError::NoNoun)
    } else {
        Ok(ws[0].clone())
    }
}

/// The stats that the words `ws` assign; the first word that fails decides the error.
pub open spec fn stats_from_words(ws: Seq<Seq<char>>) -> Result<Seq<StatView>, ParseError>
    decreases ws.len(),
{
    if ws.len() == 0 {
        Ok(seq![])
    } else {
        match stats_from_words(ws.drop_last()) {
            Err(e) => Err(e),
            Ok(prefix) => match stat_from_text(ws.last()) {
                Err(e) => Err(e),
                Ok(st) => Ok(prefix.push(st)),
            },
        }
    }
}

/// A command of the shape `noun target stat...`.
pub struct NounTargetStatsCommand {
    pub noun: String,
    pub target: String,
    pub stats: Vec<Stat>,
}

pub struct NounTargetStatsView {
    pub noun: Seq<char>,
    pub target: Seq<char>,
    pub stats: Seq<StatView>,
}

impl View for NounTargetStatsCommand {
    type V = NounTargetStatsView;

    open spec fn view(&self) -> NounTargetStatsView {
        NounTargetStatsView { noun: self.noun@, target: self.target@, stats: stats_view(self.stats@) }
    }
}

/// What a `noun target stat...` command reads as.
pub open spec fn noun_target_stats(s: Seq<char>) -> Result<NounTargetStatsView, ParseError> {
    let ws = words(s);
    if ws.len() == 0 {
        Err(ParseError::NoNoun)
    } else if ws.len() == 1 {
        Err(ParseError::NoTarget)
    } else {
        match stats_from_words(ws.subrange(2, ws.len() as int)) {
            Err(e) => Err(e),
            Ok(stats) => Ok(NounTargetStatsView { noun: ws[0], target: ws[1], stats }),
        }
    }
}

/// Reads a command of the longer `noun target stat...` shape, such as `player Plunk HP:35/35`.
pub fn parse_noun_target_stats_command(arguments: &str) -> (r: Result<NounTargetStatsCommand, ParseError>)
    ensures
        r is Ok <==> noun_target_stats(arguments@) is Ok,
        r is Ok ==> noun_target_stats(arguments@)->Ok_0 == r->Ok_0@,
        r is Err ==> noun_target_stats(arguments@) == Err::<NounTargetStatsView, ParseError>(r->Err_0),
{
    let ws = split_words(arguments);
    let ghost wv = words(arguments@);
    if ws.len() == 0 {
        return Err(ParseError::NoNoun);
    }
    if ws.len() == 1 {
        return Err(ParseError::NoTarget);
    }
    let ghost rest = wv.subrange(2, wv.len() as int);
    let mut stats: Vec<Stat> = Vec::new();
    let mut k: usize = 2;
    assert(rest.subrange(0, 0) =~= Seq::<Seq<char>>::empty());
    assert(stats_view(stats@) =~= Seq::<StatView>::empty());
    while k < ws.len()
        invariant
            strings_view(ws@) == wv,
            wv.len() == ws@.len(),
            wv == words(arguments@),
            rest == wv.subrange(2, wv.len() as int),
            2 <= k <= ws@.len(),
            stats_from_words(rest.subrange(0, k - 2)) == Ok::<Seq<StatView>, ParseError>(stats_view(stats@)),
        decreases ws@.len() - k,
    {
        let parsed = parse_stat_assignment(ws[k].as_str());
        let ghost pre = rest.subrange(0, k - 2);
        assert(ws@[k as int]@ == wv[k as int]);
        assert(rest.subrange(0, k - 1).drop_last() =~= pre);
        assert(rest.subrange(0, k - 1).last() == wv[k as int]);
        match parsed {
            Err(e) => {
                assert(stats_from_words(rest.subrange(0, k - 1)) == Err::<Seq<StatView>, ParseError>(e));
                proof {
                    lemma_first_error_stays(rest, (k - 1) as int);
                }
                assert(stats_from_words(rest) == Err::<Seq<StatView>, ParseError>(e));
                return Err(e);
            },
            Ok(st) => {
                let ghost before = stats@;
                stats.push(st);
                assert(stats_view(stats@) =~= stats_view(before).push(st@));
            },
        }
        k = k + 1;
    }
    assert(rest.subrange(0, k - 2) =~= rest);
    let noun = ws[0].clone();
    let target = ws[1].clone();
    Ok(NounTargetStatsCommand { noun, target, stats })
}

/// An error in a prefix of the words is the error of all of them.
proof fn lemma_first_error_stays(ws: Seq<Seq<char>>, k: int)
    requires
        0 <= k <= ws.len(),
        stats_from_words(ws.subrange(0, k)) is Err,
    ensures
        stats_from_words(ws) == stats_from_words(ws.subrange(0, k)),
    decreases ws.len() - k,
{
    if k < ws.len() {
        assert(ws.subrange(0, k + 1).drop_last() =~= ws.subrange(0, k));
        lemma_first_error_stays(ws, k + 1);
    } else {
        assert(ws.subrange(0, k) =~= ws);
    }
}

} // verus!
