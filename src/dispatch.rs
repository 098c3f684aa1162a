//! The verbs that a scope's document answers: what each does to the document,
//! what it replies, and whether the document must then be stored.

use vstd::prelude::*;
use crate::character::{Character, CharacterKind, CharacterView, all_found, is_formula_text, stats_after_set};
use crate::command::strings_view;
use crate::stat::{Stat, stats_view};
use crate::command::{ParseError, parse_error_text, get_noun, noun_target_stats, parse_noun_target_stats_command, split_words, words};
use crate::dice::{RollError, roll, rollable};
use crate::omni::{Omnidata, OmnidataView, is_first_named, none_named};
use crate::resolve::{
    ResolutionError, ResolvedValue, ResolvedView, cyclic_from, integer_value, key_position, keys_of, lookup,
    resolve_formula, resolve_stat, stat_keys, unrollable_formula,
    value_of_text,
};
use crate::text::lowercase_of;
use crate::text::str_eq;

verus! {

/// Why a command changed nothing.
pub enum CommandError {
    /// The command does not follow the grammar.
    Parse(ParseError),
    /// The noun names nothing that can be added this way.
    UnknownNoun(String),
    /// No character has the target's name.
    UnknownCharacter(String),
    /// A stat to set is not among the character's stats.
    UnknownStat,
}

/// `prefix`, then `middle`, then `suffix`.
fn framed(prefix: &str, middle: &str, suffix: &str) -> (r: String)
    ensures
        r@ == prefix@ + middle@ + suffix@,
{
    let mut r = String::from_str(prefix);
    r.append(middle);
    r.append(suffix);
    r
}

/// The reply to a command that changed nothing.
pub open spec fn command_error_text(e: CommandError) -> Seq<char> {
    match e {
        CommandError::Parse(p) => parse_error_text(p),
        CommandError::UnknownNoun(noun) => "Failed to parse command. Unknown noun of '"@ + noun@
            + "'. For more help, consult `!help add`."@,
        CommandError::UnknownCharacter(name) => unknown_character_text(name@),
        CommandError::UnknownStat => "That character lacks one of those stats; add it first with `!add stat`. Nothing was changed."@,
    }
}

/// The reply where no character has the name `name`.
pub open spec fn unknown_character_text(name: Seq<char>) -> Seq<char> {
    "Could not find a character named '"@ + name + "'."@
}

impl CommandError {
    /// The reply shown to the user.
    pub fn message(&self) -> (r: String)
        ensures
            r@ == command_error_text(*self),
    {
        match self {
            CommandError::Parse(e) => e.message(),
            CommandError::UnknownNoun(noun) => framed(
                "Failed to parse command. Unknown noun of '",
                noun.as_str(),
                "'. For more help, consult `!help add`.",
            ),
            CommandError::UnknownCharacter(name) => framed(
                "Could not find a character named '",
                name.as_str(),
                "'.",
            ),
            CommandError::UnknownStat => String::from_str(
                "That character lacks one of those stats; add it first with `!add stat`. Nothing was changed.",
            ),
        }
    }
}

/// The kind of character that a noun adds.
pub open spec fn kind_of_noun(noun: Seq<char>) -> Option<CharacterKind> {
    if noun == "player"@ {
        Some(CharacterKind::Player)
    } else if noun == "enemy"@ {
        Some(CharacterKind::Npc)
    } else {
        None
    }
}

/// The document after `add player|enemy Name stat...` by `owner`; `None` where it changes nothing.
pub open spec fn added_character(doc: OmnidataView, arguments: Seq<char>, owner: u64) -> Option<OmnidataView> {
    let p = noun_target_stats(arguments);
    if p is Ok && kind_of_noun(p->Ok_0.noun) is Some {
        Some(
            OmnidataView {
                is_dirty: true,
                characters: doc.characters.push(
                    CharacterView {
                        kind: kind_of_noun(p->Ok_0.noun)->0,
                        name: p->Ok_0.target,
                        owner,
                        effects: Seq::empty(),
                        stats: p->Ok_0.stats,
                    },
                ),
                ..doc
            },
        )
    } else {
        None
    }
}

/// The document after `add stat Name stat...`; `None` where it changes nothing.
pub open spec fn added_stats(doc: OmnidataView, arguments: Seq<char>) -> Option<OmnidataView> {
    let p = noun_target_stats(arguments);
    if p is Ok && !none_named(doc.characters, p->Ok_0.target) {
        let i = choose|i: int| is_first_named(doc.characters, p->Ok_0.target, i);
        Some(
            OmnidataView {
                is_dirty: true,
                characters: doc.characters.update(
                    i,
                    CharacterView { stats: doc.characters[i].stats + p->Ok_0.stats, ..doc.characters[i] },
                ),
                ..doc
            },
        )
    } else {
        None
    }
}

/// The document after `add ...`, by the noun; `None` where it changes nothing.
pub open spec fn after_add(doc: OmnidataView, arguments: Seq<char>, owner: u64) -> Option<OmnidataView> {
    let ws = words(arguments);
    if ws.len() == 0 {
        None
    } else if ws[0] == "player"@ || ws[0] == "enemy"@ {
        added_character(doc, arguments, owner)
    } else if ws[0] == "stat"@ {
        added_stats(doc, arguments)
    } else {
        None
    }
}

/// Whether `set stat Name stat...` changes the document: the first character
/// so named has a stat with the key of each stat given.
pub open spec fn set_applies(doc: OmnidataView, arguments: Seq<char>) -> bool {
    let p = noun_target_stats(arguments);
    &&& p is Ok
    &&& p->Ok_0.noun == "stat"@
    &&& !none_named(doc.characters, p->Ok_0.target)
    &&& all_found(doc.characters[choose|i: int| is_first_named(doc.characters, p->Ok_0.target, i)].stats, p->Ok_0.stats)
}

/// The document after a `set stat Name stat...` that applies, `resolved[i]`
/// being what the formula maximum of the `i`-th stat given resolved to.
pub open spec fn after_set(doc: OmnidataView, arguments: Seq<char>, resolved: Seq<Option<Seq<char>>>) -> OmnidataView {
    let p = noun_target_stats(arguments);
    let i = choose|i: int| is_first_named(doc.characters, p->Ok_0.target, i);
    OmnidataView {
        is_dirty: true,
        characters: doc.characters.update(
            i,
            CharacterView {
                stats: stats_after_set(doc.characters[i].stats, p->Ok_0.stats, resolved)->0,
                ..doc.characters[i]
            },
        ),
        ..doc
    }
}

/// The document after `remove player|enemy Name`: the first character so
/// named leaves; `None` where it changes nothing.
pub open spec fn after_remove(doc: OmnidataView, arguments: Seq<char>) -> Option<OmnidataView> {
    let p = noun_target_stats(arguments);
    if p is Ok && kind_of_noun(p->Ok_0.noun) is Some && !none_named(doc.characters, p->Ok_0.target) {
        let i = choose|i: int| is_first_named(doc.characters, p->Ok_0.target, i);
        Some(OmnidataView { is_dirty: true, characters: doc.characters.remove(i), ..doc })
    } else {
        None
    }
}

proof fn lemma_first_named_unique(cs: Seq<CharacterView>, name: Seq<char>, i: int, j: int)
    requires
        is_first_named(cs, name, i),
        is_first_named(cs, name, j),
    ensures
        i == j,
{
}

/// Adds a player or an enemy, with the stats the command assigns, owned by `owner`.
pub fn add_character(omnidata: &mut Omnidata, arguments: &str, owner: u64) -> (r: Result<String, CommandError>)
    ensures
        r is Ok <==> added_character(old(omnidata)@, arguments@, owner) is Some,
        r is Ok ==> final(omnidata)@ == added_character(old(omnidata)@, arguments@, owner)->0,
        r is Ok ==> r->Ok_0@ == "Added new character named "@ + noun_target_stats(arguments@)->Ok_0.target,
        r is Err ==> *final(omnidata) == *old(omnidata),
        noun_target_stats(arguments@) is Err ==> r == Err::<String, CommandError>(
            CommandError::Parse(noun_target_stats(arguments@)->Err_0),
        ),
        noun_target_stats(arguments@) is Ok && kind_of_noun(noun_target_stats(arguments@)->Ok_0.noun) is None ==> r is Err
            && r->Err_0 is UnknownNoun && r->Err_0->UnknownNoun_0@ == noun_target_stats(arguments@)->Ok_0.noun,
{
    let parsed = match parse_noun_target_stats_command(arguments) {
        Ok(parsed) => parsed,
        Err(e) => return Err(CommandError::Parse(e)),
    };
    let kind = if str_eq(parsed.noun.as_str(), "player") {
        CharacterKind::Player
    } else if str_eq(parsed.noun.as_str(), "enemy") {
        CharacterKind::Npc
    } else {
        return Err(CommandError::UnknownNoun(parsed.noun));
    };
    let mut reply = String::from_str("Added new character named ");
    reply.append(parsed.target.as_str());
    let c = Character { kind, name: parsed.target, owner, effects: Vec::new(), stats: parsed.stats };
    assert(c@.effects =~= Seq::empty());
    omnidata.push_character(c);
    assert(reply@ =~= "Added new character named "@ + noun_target_stats(arguments@)->Ok_0.target);
    Ok(reply)
}

/// Appends the stats a `stat Name stat...` command assigns to the first character so named.
pub fn add_stats_command(omnidata: &mut Omnidata, arguments: &str) -> (r: Result<(), CommandError>)
    ensures
        r is Ok <==> added_stats(old(omnidata)@, arguments@) is Some,
        r is Ok ==> final(omnidata)@ == added_stats(old(omnidata)@, arguments@)->0,
        r is Err ==> *final(omnidata) == *old(omnidata),
        noun_target_stats(arguments@) is Err ==> r == Err::<(), CommandError>(
            CommandError::Parse(noun_target_stats(arguments@)->Err_0),
        ),
        noun_target_stats(arguments@) is Ok && none_named(old(omnidata)@.characters, noun_target_stats(arguments@)->Ok_0.target)
            ==> r is Err && r->Err_0 is UnknownCharacter && r->Err_0->UnknownCharacter_0@ == noun_target_stats(
            arguments@,
        )->Ok_0.target,
{
    let parsed = match parse_noun_target_stats_command(arguments) {
        Ok(parsed) => parsed,
        Err(e) => return Err(CommandError::Parse(e)),
    };
    match omnidata.find_character_index(parsed.target.as_str()) {
        None => Err(CommandError::UnknownCharacter(parsed.target)),
        Some(i) => {
            proof {
                let j = choose|j: int| is_first_named(old(omnidata)@.characters, parsed.target@, j);
                lemma_first_named_unique(old(omnidata)@.characters, parsed.target@, i as int, j);
            }
            omnidata.add_stats_to(i, parsed.stats);
            Ok(())
        },
    }
}

/// Handles `set stat Name stat...`: each stat's value is replaced and
/// clamped to `[0, maximum]`, its maximum only where one is given. A formula
/// maximum is resolved, against the character as it stood before the command,
/// to clamp against; where it cannot be, the value stays unclamped.
pub fn set_stats_command(omnidata: &mut Omnidata, arguments: &str) -> (r: Result<(), CommandError>)
    ensures
        r is Ok <==> set_applies(old(omnidata)@, arguments@),
        r is Ok ==> exists|resolved: Seq<Option<Seq<char>>>|
            resolved.len() == noun_target_stats(arguments@)->Ok_0.stats.len() && final(omnidata)@ == after_set(
                old(omnidata)@,
                arguments@,
                resolved,
            ),
        r is Err ==> final(omnidata)@ == old(omnidata)@,
{
    let parsed = match parse_noun_target_stats_command(arguments) {
        Ok(parsed) => parsed,
        Err(e) => return Err(CommandError::Parse(e)),
    };
    if !str_eq(parsed.noun.as_str(), "stat") {
        return Err(CommandError::UnknownNoun(parsed.noun));
    }
    match omnidata.find_character_index(parsed.target.as_str()) {
        None => Err(CommandError::UnknownCharacter(parsed.target)),
        Some(i) => {
            proof {
                let j = choose|j: int| is_first_named(old(omnidata)@.characters, parsed.target@, j);
                lemma_first_named_unique(old(omnidata)@.characters, parsed.target@, i as int, j);
            }
            let resolved = resolve_maxima(&omnidata.characters[i], &parsed.stats);
            if omnidata.set_stats_of(i, &parsed.stats, &resolved) {
                assert(crate::resolve::options_view(resolved@).len() == resolved@.len());
                assert(omnidata@ == after_set(old(omnidata)@, arguments@, crate::resolve::options_view(resolved@)));
                Ok(())
            } else {
                Err(CommandError::UnknownStat)
            }
        },
    }
}

/// For each stat of `news`, what the maximum it will have on `c` resolves to
/// where that maximum is a formula; `None` otherwise, or where it cannot be
/// resolved.
fn resolve_maxima(c: &Character, news: &Vec<Stat>) -> (r: Vec<Option<String>>)
    ensures
        r@.len() == news@.len(),
{
    let keys = stat_keys(&c.stats);
    let mut resolved: Vec<Option<String>> = Vec::new();
    let mut k: usize = 0;
    while k < news.len()
        invariant
            k <= news@.len(),
            resolved@.len() == k,
            strings_view(keys@) == keys_of(stats_view(c.stats@)),
        decreases news@.len() - k,
    {
        let new = &news[k];
        let pos = key_position(&keys, new.name().as_str());
        let maximum: Option<&String> = match &new.maximum_value {
            Some(m) => Some(m),
            None => if pos < c.stats.len() {
                match &c.stats[pos].maximum_value {
                    Some(m) => Some(m),
                    None => None,
                }
            } else {
                None
            },
        };
        let r = match maximum {
            Some(m) => if is_formula_text(m.as_str()) {
                match resolve_formula(&c.stats, &keys, m.as_str()) {
                    Ok(t) => Some(t),
                    Err(_) => None,
                }
            } else {
                None
            },
            None => None,
        };
        resolved.push(r);
        k = k + 1;
    }
    resolved
}

/// Handles `remove player|enemy Name`: the first character so named leaves.
/// Effects that name it keep the name.
pub fn remove_character_command(omnidata: &mut Omnidata, arguments: &str) -> (r: Result<String, CommandError>)
    ensures
        r is Ok <==> after_remove(old(omnidata)@, arguments@) is Some,
        r is Ok ==> final(omnidata)@ == after_remove(old(omnidata)@, arguments@)->0,
        r is Err ==> *final(omnidata) == *old(omnidata),
{
    let parsed = match parse_noun_target_stats_command(arguments) {
        Ok(parsed) => parsed,
        Err(e) => return Err(CommandError::Parse(e)),
    };
    if !(str_eq(parsed.noun.as_str(), "player") || str_eq(parsed.noun.as_str(), "enemy")) {
        return Err(CommandError::UnknownNoun(parsed.noun));
    }
    match omnidata.find_character_index(parsed.target.as_str()) {
        None => Err(CommandError::UnknownCharacter(parsed.target)),
        Some(i) => {
            proof {
                let j = choose|j: int| is_first_named(old(omnidata)@.characters, parsed.target@, j);
                lemma_first_named_unique(old(omnidata)@.characters, parsed.target@, i as int, j);
            }
            omnidata.remove_character(i);
            Ok(framed("Removed the character named ", parsed.target.as_str(), "."))
        },
    }
}

/// How a reply reads to its user.
#[derive(PartialEq, Eq, Structural, Clone, Copy, Debug)]
pub enum ReplyKind {
    Success,
    /// The command was malformed or named nothing; the document is unchanged.
    UserError,
}

pub struct Reply {
    pub kind: ReplyKind,
    pub text: String,
}

fn user_error(text: String) -> (r: Reply)
    ensures
        r.kind == ReplyKind::UserError,
        r.text == text,
{
    Reply { kind: ReplyKind::UserError, text }
}

/// The reply to a malformed `add`.
pub open spec fn add_syntax_text() -> Seq<char> {
    "Failed to parse command. Remember the add command should follow the verb-noun-target syntax. For more help, consult `!help add`."@
}

/// What `add` with `arguments` by `owner` does to the document (from `old`
/// to `new`) and replies.
pub open spec fn add_reply(old: Omnidata, new: Omnidata, arguments: Seq<char>, owner: u64, r: Reply) -> bool {
    let ws = words(arguments);
    let p = noun_target_stats(arguments);
    &&& (r.kind == ReplyKind::Success) <==> after_add(old@, arguments, owner) is Some
    &&& r.kind == ReplyKind::Success ==> new@ == after_add(old@, arguments, owner)->0
    &&& r.kind == ReplyKind::UserError ==> new == old
    &&& ws.len() == 0 ==> r.text@ == add_syntax_text()
    &&& ws.len() > 0 && (ws[0] == "player"@ || ws[0] == "enemy"@) ==> {
        &&& r.kind == ReplyKind::Success ==> r.text@ == "Added new character named "@ + p->Ok_0.target
        &&& r.kind == ReplyKind::UserError ==> r.text@ == parse_error_text(p->Err_0)
    }
    &&& ws.len() > 0 && ws[0] == "stat"@ ==> {
        &&& r.kind == ReplyKind::Success ==> r.text@ == "Added new stat"@
        &&& p is Err ==> r.text@ == parse_error_text(p->Err_0)
        &&& p is Ok && none_named(old@.characters, p->Ok_0.target) ==> r.text@ == unknown_character_text(p->Ok_0.target)
    }
    &&& ws.len() > 0 && ws[0] != "player"@ && ws[0] != "enemy"@ && ws[0] != "stat"@ ==> r.kind == ReplyKind::UserError
        && r.text@ == "Sorry, I don't know how to add a '"@ + ws[0] + "'. For more help, consult `!help add`."@
}

/// Handles `add`: a player, an enemy, or stats of a character.
pub fn handle_add_command(omnidata: &mut Omnidata, arguments: &str, owner: u64) -> (r: Reply)
    ensures
        add_reply(*old(omnidata), *final(omnidata), arguments@, owner, r),
{
    let noun = match get_noun(arguments) {
        Ok(noun) => noun,
        Err(_) => {
            return user_error(
                String::from_str(
                    "Failed to parse command. Remember the add command should follow the verb-noun-target syntax. For more help, consult `!help add`.",
                ),
            );
        },
    };
    let ghost ws = words(arguments@);
    let ghost p = noun_target_stats(arguments@);
    assert(noun@ == ws[0]);
    proof {
        reveal_strlit("player");
        reveal_strlit("enemy");
        reveal_strlit("stat");
        assert("player"@[0] != "stat"@[0]);
        assert("enemy"@[0] != "stat"@[0]);
        assert("player"@[0] != "enemy"@[0]);
    }
    if str_eq(noun.as_str(), "player") || str_eq(noun.as_str(), "enemy") {
        let r = match add_character(omnidata, arguments, owner) {
            Ok(text) => Reply { kind: ReplyKind::Success, text },
            Err(e) => user_error(e.message()),
        };
        assert(p is Ok ==> p->Ok_0.noun == ws[0]);
        assert(r.kind == ReplyKind::UserError ==> r.text@ == parse_error_text(p->Err_0));
        assert(r.kind == ReplyKind::Success ==> r.text@ == "Added new character named "@ + p->Ok_0.target);
        r
    } else if str_eq(noun.as_str(), "stat") {
        let r = match add_stats_command(omnidata, arguments) {
            Ok(()) => Reply { kind: ReplyKind::Success, text: String::from_str("Added new stat") },
            Err(e) => user_error(e.message()),
        };
        assert(p is Err ==> r.text@ == parse_error_text(p->Err_0));
        r
    } else {
        let r = user_error(
            framed(
                "Sorry, I don't know how to add a '",
                noun.as_str(),
                "'. For more help, consult `!help add`.",
            ),
        );
        assert(after_add(old(omnidata)@, arguments@, owner) is None);
        r
    }
}

/// Relies on `i64`'s `to_string`: the decimal text of `n`, which reads back as `n`.
#[verifier::external_body]
fn i64_text(n: i64) -> (r: String)
    ensures
        n != i64::MIN ==> crate::resolve::integer_value(r@) == Some(n as int),
{
    n.to_string()
}

/// The text of a resolved value.
pub fn resolved_text(v: ResolvedValue) -> (r: String)
    ensures
        v matches ResolvedValue::Text(t) ==> r == t,
        v is Number && v->Number_0 != i64::MIN ==> crate::resolve::integer_value(r@) == Some(
            v->Number_0 as int,
        ),
{
    match v {
        ResolvedValue::Number(n) => i64_text(n),
        ResolvedValue::Text(t) => t,
    }
}

/// Whether a roll asks for a stat: `stat Character key`.
pub open spec fn is_stat_roll(arguments: Seq<char>) -> bool {
    words(arguments).len() == 3 && words(arguments)[0] == "stat"@
}

/// `text` writes the resolved value `v`.
pub open spec fn reads_as(text: Seq<char>, v: ResolvedView) -> bool {
    match v {
        ResolvedView::Number(n) => integer_value(text) == Some(n as int),
        ResolvedView::Text(t) => text == t,
    }
}

/// The reply to a stat roll: `Name's key: value`.
pub open spec fn stat_value_text(name: Seq<char>, key: Seq<char>, value: Seq<char>) -> Seq<char> {
    name + "'s "@ + key + ": "@ + value
}

/// The reply to a roll that the evaluator refused, with its message.
pub open spec fn evaluator_text(m: Seq<char>) -> Seq<char> {
    "```\n"@ + m + "```"@
}

/// The reply to dice outside the plain notation.
pub open spec fn unsupported_roll_text() -> Seq<char> {
    "Sorry, I can only roll plain dice such as `3d6+5`: numbers of up to three digits, dice with their sides (or `%`) and keep or drop modifiers, `+`, `-`, `/` and up to two `*`, in up to 64 characters."@
}

/// What `roll` with `arguments` replies on the document `doc`, which it leaves as it is.
pub open spec fn roll_reply(doc: OmnidataView, arguments: Seq<char>, r: Reply) -> bool {
    let ws = words(arguments);
    if is_stat_roll(arguments) {
        if none_named(doc.characters, ws[1]) {
            r.kind == ReplyKind::UserError && r.text@ == unknown_character_text(ws[1])
        } else {
            let i = choose|i: int| is_first_named(doc.characters, ws[1], i);
            let st = doc.characters[i].stats;
            let a = lookup(st, lowercase_of(ws[2]));
            if a >= st.len() {
                r.kind == ReplyKind::UserError && r.text@ == "That character has no stat named '"@ + ws[2] + "'."@
            } else if cyclic_from(st, a) {
                r.kind == ReplyKind::UserError && r.text@ == "The stat '"@ + ws[2]
                    + "' refers back to itself through its formula."@
            } else if !st[a].is_dynamic() {
                r.kind == ReplyKind::Success && exists|vt: Seq<char>|
                    r.text@ == stat_value_text(ws[1], ws[2], vt) && reads_as(vt, value_of_text(st[a].value))
            } else {
                ||| r.kind == ReplyKind::Success && exists|vt: Seq<char>| r.text@ == stat_value_text(ws[1], ws[2], vt)
                ||| r.kind == ReplyKind::UserError && exists|e: Seq<char>|
                    unrollable_formula(st, e) && r.text@ == "The stat's formula came to `"@ + e
                        + "`, which is not plain dice notation."@
                ||| r.kind == ReplyKind::UserError && exists|m: Seq<char>| r.text@ == evaluator_text(m)
            }
        }
    } else if !rollable(arguments) {
        r.kind == ReplyKind::UserError && r.text@ == unsupported_roll_text()
    } else {
        ||| r.kind == ReplyKind::Success && exists|rolled: Seq<char>, total: Seq<char>|
            r.text@ == "```\n"@ + arguments + " = "@ + rolled + " = "@ + total + "```"@
        ||| r.kind == ReplyKind::UserError && exists|m: Seq<char>| r.text@ == evaluator_text(m)
    }
}

/// Handles `roll`: dice in plain notation, or `stat Character key`, which
/// resolves that character's stat. The document is only read.
pub fn handle_roll_command(omnidata: &Omnidata, arguments: &str) -> (r: Reply)
    ensures
        roll_reply(omnidata@, arguments@, r),
{
    let ws = split_words(arguments);
    if ws.len() == 3 && str_eq(ws[0].as_str(), "stat") {
        assert(ws@[1]@ == words(arguments@)[1]);
        assert(ws@[2]@ == words(arguments@)[2]);
        assert(is_stat_roll(arguments@));
        let character = match omnidata.find_character(ws[1].as_str()) {
            Some(c) => c,
            None => {
                return user_error(
                    framed("Could not find a character named '", ws[1].as_str(), "'."),
                );
            },
        };
        let ghost chars = omnidata@.characters;
        proof {
            let i = choose|i: int| is_first_named(chars, ws@[1]@, i) && character@ == chars[i];
            let j = choose|j: int| is_first_named(chars, ws@[1]@, j);
            lemma_first_named_unique(chars, ws@[1]@, i, j);
            assert(character@ == chars[choose|i: int| is_first_named(chars, words(arguments@)[1], i)]);
            assert(!none_named(chars, words(arguments@)[1]));
        }
        let ghost st = crate::resolve::character_stats(character);
        assert(st == character@.stats);
        let res = resolve_stat(character, ws[2].as_str());
        let r = match res {
            Ok(v) => {
                let value = resolved_text(v);
                let mut text = framed(ws[1].as_str(), "'s ", ws[2].as_str());
                text.append(": ");
                text.append(value.as_str());
                assert(text@ =~= stat_value_text(ws@[1]@, ws@[2]@, value@));
                proof {
                    let a = lookup(st, lowercase_of(ws@[2]@));
                    if a < st.len() && !st[a].is_dynamic() {
                        assert(reads_as(value@, value_of_text(st[a].value)));
                    }
                }
                Reply { kind: ReplyKind::Success, text }
            },
            Err(ResolutionError::UnknownStat) => user_error(
                framed("That character has no stat named '", ws[2].as_str(), "'."),
            ),
            Err(ResolutionError::CyclicReference) => user_error(
                framed("The stat '", ws[2].as_str(), "' refers back to itself through its formula."),
            ),
            Err(ResolutionError::Unrollable(expr)) => user_error(
                framed("The stat's formula came to `", expr.as_str(), "`, which is not plain dice notation."),
            ),
            Err(ResolutionError::Evaluator(m)) => {
                let r = user_error(framed("```\n", m.as_str(), "```"));
                assert(r.text@ == evaluator_text(m@));
                r
            },
        };
        return r;
    }
    assert(!is_stat_roll(arguments@)) by {
        if ws@.len() == 3 {
            assert(ws@[0]@ == words(arguments@)[0]);
        }
    }
    match roll(arguments) {
        Ok(d) => {
            let text = framed("```\n", d.text.as_str(), "```");
            proof {
                let rolled = choose|rolled: Seq<char>|
                    d.text@ == arguments@ + seq![' ', '=', ' '] + rolled + seq![' ', '=', ' '] + d.total@;
                reveal_strlit(" = ");
                assert(" = "@ =~= seq![' ', '=', ' ']);
                assert(text@ =~= "```\n"@ + arguments@ + " = "@ + rolled + " = "@ + d.total@ + "```"@);
            }
            let r = Reply { kind: ReplyKind::Success, text };
            r
        },
        Err(RollError::Unsupported) => {
            let r = user_error(
                String::from_str(
                    "Sorry, I can only roll plain dice such as `3d6+5`: numbers of up to three digits, dice with their sides (or `%`) and keep or drop modifiers, `+`, `-`, `/` and up to two `*`, in up to 64 characters.",
                ),
            );
            r
        },
        Err(RollError::Evaluator(m)) => {
            let r = user_error(framed("```\n", m.as_str(), "```"));
            assert(r.text@ == evaluator_text(m@));
            r
        },
    }
}

/// The verbs that a document answers.
#[derive(PartialEq, Eq, Structural, Clone, Copy, Debug)]
pub enum Verb {
    Add,
    SetStat,
    Remove,
    Roll,
}

pub open spec fn verb_of(command: Seq<char>) -> Option<Verb> {
    if command == "add"@ {
        Some(Verb::Add)
    } else if command == "set"@ {
        Some(Verb::SetStat)
    } else if command == "remove"@ {
        Some(Verb::Remove)
    } else if command == "roll"@ {
        Some(Verb::Roll)
    } else {
        None
    }
}

pub fn parse_verb(command: &str) -> (r: Option<Verb>)
    ensures
        r == verb_of(command@),
{
    if str_eq(command, "add") {
        Some(Verb::Add)
    } else if str_eq(command, "set") {
        Some(Verb::SetStat)
    } else if str_eq(command, "remove") {
        Some(Verb::Remove)
    } else if str_eq(command, "roll") {
        Some(Verb::Roll)
    } else {
        None
    }
}

/// A handled command: the reply, and whether the document must now be stored.
pub struct Outcome {
    pub reply: Reply,
    pub persist: bool,
}

/// Runs one command on the document of its scope, by `author`. The document
/// is to be stored after it exactly when it is dirty, so a command that
/// changes nothing on a stored document is not stored again.
pub fn handle_command(omnidata: &mut Omnidata, command: &str, arguments: &str, author: u64) -> (r: Outcome)
    ensures
        r.persist == final(omnidata)@.is_dirty,
        !old(omnidata)@.is_dirty && final(omnidata)@ == old(omnidata)@ ==> !r.persist,
        verb_of(command@) == Some(Verb::Add) ==> add_reply(*old(omnidata), *final(omnidata), arguments@, author, r.reply),
        verb_of(command@) == Some(Verb::SetStat) ==> {
            &&& (r.reply.kind == ReplyKind::Success) <==> set_applies(old(omnidata)@, arguments@)
            &&& r.reply.kind == ReplyKind::Success ==> exists|resolved: Seq<Option<Seq<char>>>|
                resolved.len() == noun_target_stats(arguments@)->Ok_0.stats.len() && final(omnidata)@ == after_set(
                    old(omnidata)@,
                    arguments@,
                    resolved,
                )
            &&& r.reply.kind == ReplyKind::UserError ==> final(omnidata)@ == old(omnidata)@
        },
        verb_of(command@) == Some(Verb::Remove) ==> {
            &&& (r.reply.kind == ReplyKind::Success) <==> after_remove(old(omnidata)@, arguments@) is Some
            &&& r.reply.kind == ReplyKind::Success ==> final(omnidata)@ == after_remove(old(omnidata)@, arguments@)->0
            &&& r.reply.kind == ReplyKind::UserError ==> *final(omnidata) == *old(omnidata)
        },
        verb_of(command@) == Some(Verb::Roll) ==> *final(omnidata) == *old(omnidata) && roll_reply(
            old(omnidata)@,
            arguments@,
            r.reply,
        ),
        verb_of(command@) is None ==> *final(omnidata) == *old(omnidata) && r.reply.kind == ReplyKind::UserError,
{
    let reply = match parse_verb(command) {
        Some(Verb::Add) => handle_add_command(omnidata, arguments, author),
        Some(Verb::SetStat) => match set_stats_command(omnidata, arguments) {
            Ok(()) => Reply { kind: ReplyKind::Success, text: String::from_str("Updated the stats") },
            Err(e) => user_error(e.message()),
        },
        Some(Verb::Remove) => match remove_character_command(omnidata, arguments) {
            Ok(text) => Reply { kind: ReplyKind::Success, text },
            Err(e) => user_error(e.message()),
        },
        Some(Verb::Roll) => handle_roll_command(omnidata, arguments),
        None => user_error(
            framed("Sorry, I don't know the command '", command, "'. For more help, consult `!help`."),
        ),
    };
    Outcome { reply, persist: omnidata.is_dirty }
}

} // verus!
