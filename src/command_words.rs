//! The command words the bot understands, and the help it gives on them.

use vstd::prelude::*;
use crate::text::str_eq;

verus! {

#[derive(PartialEq, Eq, Structural, Clone, Copy, Debug)]
pub enum WordType {
    Verb,
    Noun,
    Target,
}

/// A command word and its help.
#[derive(Clone, Copy)]
pub struct Word<'a> {
    pub kind: WordType,
    pub term: &'a str,
    pub short_help: &'a str,
    pub long_help: &'a str,
    pub usage_examples: &'a str,
}

impl Word<'_> {
    /// The title of the word's help.
    pub fn embed_title(&self) -> (r: String)
        ensures
            r@ == "Help for "@ + self.term@,
    {
        let mut r = String::from_str("Help for ");
        r.append(self.term);
        r
    }
}

pub open spec fn terms_of(ws: Seq<Word>) -> Seq<Seq<char>> {
    ws.map_values(|w: Word| w.term@)
}

/// The terms of the verbs, in order.
pub open spec fn verbs_terms() -> Seq<Seq<char>> {
    seq!["add"@, "help"@, "lookup"@, "roll"@]
}

/// The verbs the bot understands.
pub fn verbs() -> (r: Vec<Word<'static>>)
    ensures
        terms_of(r@) == verbs_terms(),
{
    let r = vec![
        Word {
            kind: WordType::Verb,
            term: "add",
            short_help: "Add a new <noun>",
            long_help: "Use the add command to add a new <noun>, such as an enemy, or something like an effect to a player. Most nouns are supported, but consult the help pages for each for specifics about adding them.",
            usage_examples: "!add player Plunk\n!add enemy Slurk",
        },
        Word {
            kind: WordType::Verb,
            term: "help",
            short_help: "Get help on any bot command or term",
            long_help: "Use the help command to get detailed help about any command word the bot recognizes. Which you probably already knew, since you just typed `!help help`. Clever girl.",
            usage_examples: "!help roll\n!help effect\n!help lookup",
        },
        Word {
            kind: WordType::Verb,
            term: "lookup",
            short_help: "Get definitions of feats, spells, rules, etc",
            long_help: "The lookup command can look up the definitions of just about any Pathfinder thing there is, using the power of the Pathfinder 2 Easy Library. Feats, skills, spells, creatures, gods, you name it. If searching terns up more than one result, a list of options will be presented to you as reaction buttons to click. Simply click the correct button to select your choice.",
            usage_examples: "!lookup mage hand\n!lookup goblin dog\n!lookup cast a spell",
        },
        Word {
            kind: WordType::Verb,
            term: "roll",
            short_help: "Roll some dice",
            long_help: "The roll command can be used to roll discrete dice and/or a stored property on a character. If a character is not supplied, it defaults to the character owned by you. If you own multiple, and you're in combaat, it defaults to the active character.",
            usage_examples: "!roll 3d6+5\n!roll perception",
        },
    ];
    assert(terms_of(r@) =~= verbs_terms());
    r
}

/// The terms of the nouns, in order.
pub open spec fn nouns_terms() -> Seq<Seq<char>> {
    seq!["enemy"@, "stat"@]
}

/// The nouns the bot understands.
pub fn nouns() -> (r: Vec<Word<'static>>)
    ensures
        terms_of(r@) == nouns_terms(),
{
    let r = vec![
        Word {
            kind: WordType::Noun,
            term: "enemy",
            short_help: "Enemies are characters whose stats are hidden from players",
            long_help: "Enemies are typically GM controlled characters and serve as things for a <player> for fight. They behave much like player characters in that they have stats, can roll dice, take damage, etc. Where they differ is that their stats are automatically hidden or obfuscated from those without the GM role.",
            usage_examples: "!remove enemy Goblin\n!add enemy Slurk",
        },
        Word {
            kind: WordType::Noun,
            term: "stat",
            short_help: "Information about a character like HP or attacks",
            long_help: "A stat can be almost anything. Use stats to remember your HP, level, focus points, or store complex dice rolls. A stat can either be static or dynamic.\n\nStatic stats are those with a value that only changes when you tell it to change, such as your level or hero points. When creating a static stat, simply give the name and the value seperated by a colon. If dice notation or references are included, they are resolved immediately and only the final result is stored.\n\nDynamic stats are a whole different beast. Their value is stored as a dice roll and can reference other stats. When you ask the bot to roll or otherwise return the value, it will *dynamically* compute it, rolling any dice and resolving any references needed. These are often used for things like attack rolls or saves. Dynamic stats are created like static, only prefix an equal sign before the value, like an Excel formula.\n\nStats can also be ranges with a maximum value, such as HP. To give a stat a maximum value, include a forward slash after the value, followed by the maximum. The maximum is only adjusted when the bot is asked to, so future set commands will only adjust the value unless the maximum is also given.",
            usage_examples: "!add stat Bob HP:35/35\n!set stat Bob HP:20\n!add stat Frank Reflex:=1d20+DEX\n!set stat Bob Level:5\n!roll stat Frank Reflex",
        },
    ];
    assert(terms_of(r@) =~= nouns_terms());
    r
}

/// The terms of the targets, in order.
pub open spec fn targets_terms() -> Seq<Seq<char>> {
    seq![]
}

/// The targets the bot understands.
pub fn targets() -> (r: Vec<Word<'static>>)
    ensures
        terms_of(r@) == targets_terms(),
{
    let r: Vec<Word<'static>> = Vec::new();
    assert(terms_of(r@) =~= targets_terms());
    r
}

/// The verbs, the nouns and the targets.
pub fn all_words() -> (r: Vec<Vec<Word<'static>>>)
    ensures
        r@.len() == 3,
        terms_of(r@[0]@) == verbs_terms(),
        terms_of(r@[1]@) == nouns_terms(),
        terms_of(r@[2]@) == targets_terms(),
{
    let mut r: Vec<Vec<Word<'static>>> = Vec::new();
    r.push(verbs());
    r.push(nouns());
    r.push(targets());
    r
}

/// The terms `ts` with `sep` between each two.
pub open spec fn join(ts: Seq<Seq<char>>, sep: Seq<char>) -> Seq<char>
    decreases ts.len(),
{
    if ts.len() == 0 {
        seq![]
    } else if ts.len() == 1 {
        ts[0]
    } else {
        join(ts.drop_last(), sep) + sep + ts.last()
    }
}

/// The terms of `words` joined by `, `.
pub fn join_terms(words: &Vec<Word>) -> (r: String)
    ensures
        r@ == join(terms_of(words@), ", "@),
{
    let mut r = String::new();
    let mut i: usize = 0;
    while i < words.len()
        invariant
            i <= words@.len(),
            r@ == join(terms_of(words@).subrange(0, i as int), ", "@),
        decreases words@.len() - i,
    {
        let ghost ts = terms_of(words@).subrange(0, i + 1);
        assert(ts.drop_last() =~= terms_of(words@).subrange(0, i as int));
        if i > 0 {
            r.append(", ");
        } else {
            assert(r@ =~= Seq::<char>::empty());
        }
        r.append(words[i].term);
        assert(ts.last() == words@[i as int].term@);
        i = i + 1;
    }
    assert(terms_of(words@).subrange(0, i as int) =~= terms_of(words@));
    r
}

/// The opening of the general help message.
pub open spec fn help_intro() -> Seq<char> {
    "Most commands take the form of `!verb noun target`, where target is usually the name of a character. The following words/commands are known to the bot. You can use `!help <word>` for more info about any of these:\n\n"@
}

/// The general help message.
pub open spec fn generic_help_text() -> Seq<char> {
    help_intro() + "**Verbs:** "@ + join(verbs_terms(), ", "@) + "\n"@ + "**Nouns:** "@ + join(nouns_terms(), ", "@)
        + "\n"@ + "**Targets:** "@ + join(targets_terms(), ", "@) + "\n"@
}

/// The general help: the intro, then one line each listing the verbs, the nouns and the targets.
pub fn generate_generic_help_message() -> (r: String)
    ensures
        r@ == generic_help_text(),
{
    let mut response = String::from_str(
        "Most commands take the form of `!verb noun target`, where target is usually the name of a character. The following words/commands are known to the bot. You can use `!help <word>` for more info about any of these:\n\n",
    );
    response.append("**Verbs:** ");
    response.append(join_terms(&verbs()).as_str());
    response.append("\n");
    response.append("**Nouns:** ");
    response.append(join_terms(&nouns()).as_str());
    response.append("\n");
    response.append("**Targets:** ");
    response.append(join_terms(&targets()).as_str());
    response.append("\n");
    response
}

/// The first word among `words` whose term is `term`.
fn find_in(words: &Vec<Word<'static>>, term: &str) -> (r: Option<Word<'static>>)
    ensures
        r is Some <==> terms_of(words@).contains(term@),
        r is Some ==> r->0.term@ == term@,
{
    let ghost all = terms_of(words@);
    let mut i: usize = 0;
    while i < words.len()
        invariant
            all == terms_of(words@),
            i <= words@.len(),
            forall|j: int| 0 <= j < i ==> all[j] != term@,
        decreases words@.len() - i,
    {
        if str_eq(words[i].term, term) {
            assert(all[i as int] == term@);
            return Some(words[i]);
        }
        i = i + 1;
    }
    None
}

/// What `!help` answers.
pub enum HelpReply {
    /// No term was asked for: the general help message.
    Generic(String),
    /// The help of this word.
    Word(Word<'static>),
    /// No word has the term asked for: this message.
    NotFound(String),
}

/// Answers `!help term`: the general help for an empty term, else the help of
/// the first verb, noun or target so named.
pub fn handle_help_command(term: &str) -> (r: HelpReply)
    ensures
        (r is Generic) <==> term@.len() == 0,
        r is Generic ==> r->Generic_0@ == generic_help_text(),
        r is Word ==> r->Word_0.term@ == term@,
        term@.len() > 0 ==> (r is Word <==> (verbs_terms() + nouns_terms() + targets_terms()).contains(term@)),
        term@.len() > 0 ==> (r is NotFound <==> !(verbs_terms() + nouns_terms() + targets_terms()).contains(term@)),
        r is NotFound ==> r->NotFound_0@ == "Could not find help for '"@ + term@ + "'. Check your spelling."@,
{
    if term.unicode_len() == 0 {
        return HelpReply::Generic(generate_generic_help_message());
    }
    let ghost all = verbs_terms() + nouns_terms() + targets_terms();
    let ghost vn = verbs_terms() + nouns_terms();
    if let Some(w) = find_in(&verbs(), term) {
        proof {
            let k = choose|k: int| 0 <= k < verbs_terms().len() && verbs_terms()[k] == term@;
            assert(all[k] == term@);
        }
        return HelpReply::Word(w);
    }
    if let Some(w) = find_in(&nouns(), term) {
        proof {
            let k = choose|k: int| 0 <= k < nouns_terms().len() && nouns_terms()[k] == term@;
            assert(all[k + verbs_terms().len()] == term@);
        }
        return HelpReply::Word(w);
    }
    if let Some(w) = find_in(&targets(), term) {
        return HelpReply::Word(w);
    }
    assert(!all.contains(term@)) by {
        if all.contains(term@) {
            let k = choose|k: int| 0 <= k < all.len() && all[k] == term@;
            if k < verbs_terms().len() {
                assert(verbs_terms()[k] == term@);
            } else if k < vn.len() {
                assert(nouns_terms()[k - verbs_terms().len()] == term@);
            } else {
                assert(targets_terms()[k - vn.len()] == term@);
            }
        }
    }
    let mut message = String::from_str("Could not find help for '");
    message.append(term);
    message.append("'. Check your spelling.");
    HelpReply::NotFound(message)
}

} // verus!
