//! A character's stat: a named value, static or a formula, optionally bounded.

use vstd::prelude::*;
use crate::text::{lowercase_of, to_lowercase};

verus! {

/// A stat as typed by its user.
pub struct Stat {
    /// The name as typed, case preserved.
    pub display_name: String,
    /// Whether the stat shows on the persistent summary view.
    pub display_on_tracker: bool,
    /// A literal, or a formula when it starts with `=`.
    pub value: String,
    /// The upper bound of a ranged stat, literal or formula like `value`.
    pub maximum_value: Option<String>,
}

pub struct StatView {
    pub display_name: Seq<char>,
    pub display_on_tracker: bool,
    pub value: Seq<char>,
    pub maximum_value: Option<Seq<char>>,
}

impl StatView {
    /// The canonical lookup key: the display name lower-cased.
    pub open spec fn key(self) -> Seq<char> {
        lowercase_of(self.display_name)
    }

    /// A dynamic stat holds a formula, marked by a leading `=`.
    pub open spec fn is_dynamic(self) -> bool {
        self.value.len() > 0 && self.value[0] == '='
    }
}

pub open spec fn option_view(o: Option<String>) -> Option<Seq<char>> {
    match o {
        Some(s) => Some(s@),
        None => None,
    }
}

impl View for Stat {
    type V = StatView;

    open spec fn view(&self) -> StatView {
        StatView {
            display_name: self.display_name@,
            display_on_tracker: self.display_on_tracker,
            value: self.value@,
            maximum_value: option_view(self.maximum_value),
        }
    }
}

pub open spec fn stats_view(v: Seq<Stat>) -> Seq<StatView> {
    v.map_values(|s: Stat| s@)
}

impl Stat {
    /// The lookup key of this stat.
    pub fn name(&self) -> (r: String)
        ensures
            r@ == self@.key(),
    {
        to_lowercase(self.display_name.as_str())
    }

    /// Whether the value is a formula.
    pub fn is_dynamic(&self) -> (r: bool)
        ensures
            r == self@.is_dynamic(),
    {
        let s = self.value.as_str();
        s.unicode_len() > 0 && s.get_char(0) == '='
    }
}

} // verus!
