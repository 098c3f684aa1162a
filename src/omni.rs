//! The document of one scope: its characters and whether it changed since it
//! was last stored.

use vstd::prelude::*;
use crate::character::{Character, CharacterKind, CharacterView, characters_view};
use crate::stat::{Stat, stats_view};
use crate::text::str_eq;

verus! {

/// The format version written with every document.
pub const OMNI_VERSION: u16 = 0;

/// The session state of one scope.
pub struct Omnidata {
    pub version: u16,
    /// True once the document changed since it was last stored; never stored itself.
    pub is_dirty: bool,
    pub characters: Vec<Character>,
}

pub struct OmnidataView {
    pub version: u16,
    pub is_dirty: bool,
    pub characters: Seq<CharacterView>,
}

impl View for Omnidata {
    type V = OmnidataView;

    open spec fn view(&self) -> OmnidataView {
        OmnidataView {
            version: self.version,
            is_dirty: self.is_dirty,
            characters: characters_view(self.characters@),
        }
    }
}

/// Whether `i` is the first position of a character named `name`.
pub open spec fn is_first_named(cs: Seq<CharacterView>, name: Seq<char>, i: int) -> bool {
    &&& 0 <= i < cs.len()
    &&& cs[i].name == name
    &&& forall|j: int| 0 <= j < i ==> cs[j].name != name
}

pub open spec fn none_named(cs: Seq<CharacterView>, name: Seq<char>) -> bool {
    forall|j: int| 0 <= j < cs.len() ==> cs[j].name != name
}

impl Omnidata {
    /// An empty document of the current version.
    pub fn new() -> (r: Omnidata)
        ensures
            r@ == (OmnidataView { version: OMNI_VERSION, is_dirty: false, characters: Seq::empty() }),
    {
        let r = Omnidata { version: OMNI_VERSION, characters: Vec::new(), is_dirty: false };
        assert(characters_view(r.characters@) =~= Seq::empty());
        r
    }

    /// A document as read back from storage: never dirty.
    pub fn loaded(version: u16, characters: Vec<Character>) -> (r: Omnidata)
        ensures
            r@ == (OmnidataView { version, is_dirty: false, characters: characters_view(characters@) }),
    {
        Omnidata { version, is_dirty: false, characters }
    }

    /// Marks the document as changed since it was last stored.
    pub fn dirty(&mut self)
        ensures
            final(self)@ == (OmnidataView { is_dirty: true, ..old(self)@ }),
    {
        self.is_dirty = true;
    }

    /// Records that the document as it stands has been stored.
    pub fn mark_saved(&mut self)
        ensures
            final(self)@ == (OmnidataView { is_dirty: false, ..old(self)@ }),
    {
        self.is_dirty = false;
    }

    /// Appends a character with no effects and no stats.
    pub fn add_character(&mut self, kind: CharacterKind, name: String, owner: u64)
        ensures
            final(self)@ == (OmnidataView {
                is_dirty: true,
                characters: old(self)@.characters.push(CharacterView {
                    kind,
                    name: name@,
                    owner,
                    effects: Seq::empty(),
                    stats: Seq::empty(),
                }),
                ..old(self)@
            }),
    {
        let c = Character::new(kind, name, owner);
        self.push_character(c);
    }

    /// Appends `c` as it is.
    pub fn push_character(&mut self, c: Character)
        ensures
            final(self)@ == (OmnidataView {
                is_dirty: true,
                characters: old(self)@.characters.push(c@),
                ..old(self)@
            }),
    {
        let ghost start = characters_view(self.characters@);
        self.characters.push(c);
        assert(characters_view(self.characters@) =~= start.push(c@));
        self.dirty();
    }

    /// Appends `stats` to the stats of the character at position `i`.
    pub fn add_stats_to(&mut self, i: usize, stats: Vec<Stat>)
        requires
            i < old(self)@.characters.len(),
        ensures
            final(self)@ == (OmnidataView {
                is_dirty: true,
                characters: old(self)@.characters.update(
                    i as int,
                    CharacterView {
                        stats: old(self)@.characters[i as int].stats + stats_view(stats@),
                        ..old(self)@.characters[i as int]
                    },
                ),
                ..old(self)@
            }),
    {
        let ghost start = characters_view(self.characters@);
        let mut c = self.characters.remove(i);
        assert(c@ == start[i as int]);
        c.append_stats(stats);
        let ghost updated = c@;
        self.characters.insert(i, c);
        assert(characters_view(self.characters@) =~= start.update(i as int, updated));
        self.dirty();
    }

    /// Sets `news` on the character at position `i`, with `resolved` what
    /// their formula maxima resolved to; where one of them names no stat of
    /// it, nothing changes.
    pub fn set_stats_of(&mut self, i: usize, news: &Vec<Stat>, resolved: &Vec<Option<String>>) -> (r: bool)
        requires
            i < old(self)@.characters.len(),
            resolved@.len() == news@.len(),
        ensures
            r <==> crate::character::all_found(old(self)@.characters[i as int].stats, stats_view(news@)),
            r ==> final(self)@ == (OmnidataView {
                is_dirty: true,
                characters: old(self)@.characters.update(
                    i as int,
                    CharacterView {
                        stats: crate::character::stats_after_set(
                            old(self)@.characters[i as int].stats,
                            stats_view(news@),
                            crate::resolve::options_view(resolved@),
                        )->0,
                        ..old(self)@.characters[i as int]
                    },
                ),
                ..old(self)@
            }),
            !r ==> final(self)@ == old(self)@,
    {
        let ghost start = characters_view(self.characters@);
        let mut c = self.characters.remove(i);
        assert(c@ == start[i as int]);
        let done = c.set_stats(news, resolved);
        let ghost updated = c@;
        self.characters.insert(i, c);
        assert(characters_view(self.characters@) =~= start.update(i as int, updated));
        if done {
            self.dirty();
        } else {
            assert(characters_view(self.characters@) =~= start);
        }
        done
    }

    /// Removes the character at position `i`.
    pub fn remove_character(&mut self, i: usize)
        requires
            i < old(self)@.characters.len(),
        ensures
            final(self)@ == (OmnidataView {
                is_dirty: true,
                characters: old(self)@.characters.remove(i as int),
                ..old(self)@
            }),
    {
        let ghost start = characters_view(self.characters@);
        self.characters.remove(i);
        assert(characters_view(self.characters@) =~= start.remove(i as int));
        self.dirty();
    }

    /// The position of the first character named `name`.
    pub fn find_character_index(&self, name: &str) -> (r: Option<usize>)
        ensures
            r is Some ==> is_first_named(self@.characters, name@, r->0 as int),
            r is None ==> none_named(self@.characters, name@),
    {
        let mut i: usize = 0;
        while i < self.characters.len()
            invariant
                i <= self.characters@.len(),
                forall|j: int| 0 <= j < i ==> self@.characters[j].name != name@,
            decreases self.characters@.len() - i,
        {
            if str_eq(self.characters[i].name.as_str(), name) {
                return Some(i);
            }
            i = i + 1;
        }
        None
    }

    /// The first character named `name`, if any.
    pub fn find_character(&self, name: &str) -> (r: Option<&Character>)
        ensures
            r is Some <==> !none_named(self@.characters, name@),
            r is Some ==> exists|i: int| is_first_named(self@.characters, name@, i) && r->0@ == self@.characters[i],
    {
        match self.find_character_index(name) {
            Some(i) => Some(&self.characters[i]),
            None => None,
        }
    }
}

} // verus!
