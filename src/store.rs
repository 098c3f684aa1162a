//! The storage protocol. Each version of a document is an attachment of a new
//! message in a dedicated channel, and the one pinned message of that channel
//! is the current version. Reading takes the latest pin (none: no document
//! yet). Writing appends first; only then is the new message pinned and the
//! older pins removed, in that order, so that a pointer move cut short leaves
//! the new message pinned beside older ones, and the next read still takes it.

use vstd::prelude::*;
use crate::text::str_eq;

verus! {

/// The category that holds the storage channel.
pub const BOT_DATA_CHANNEL_CATEGORY_NAME: &'static str = "rust-monster-bot-data";

/// The storage channel.
pub const BOT_DATA_CHANNEL_NAME: &'static str = "omni-bot-data";

/// A channel of the scope as the chat platform lists it.
pub struct ChannelInfo {
    pub id: u64,
    pub name: String,
}

pub open spec fn is_first_channel(chs: Seq<ChannelInfo>, name: Seq<char>, i: int) -> bool {
    &&& 0 <= i < chs.len()
    &&& chs[i].name@ == name
    &&& forall|j: int| 0 <= j < i ==> chs[j].name@ != name
}

pub open spec fn no_channel(chs: Seq<ChannelInfo>, name: Seq<char>) -> bool {
    forall|j: int| 0 <= j < chs.len() ==> chs[j].name@ != name
}

/// The position of the first channel named `name`.
pub fn find_channel(channels: &Vec<ChannelInfo>, name: &str) -> (r: Option<usize>)
    ensures
        r is Some ==> is_first_channel(channels@, name@, r->0 as int),
        r is None ==> no_channel(channels@, name@),
{
    let mut i: usize = 0;
    while i < channels.len()
        invariant
            i <= channels@.len(),
            forall|j: int| 0 <= j < i ==> channels@[j].name@ != name@,
        decreases channels@.len() - i,
    {
        if str_eq(channels[i].name.as_str(), name) {
            return Some(i);
        }
        i = i + 1;
    }
    None
}

/// Where the storage channel's category comes from.
#[derive(PartialEq, Eq, Structural, Clone, Copy, Debug)]
pub enum CategoryStep {
    Existing(u64),
    Create,
}

/// How to reach the storage channel: it exists, or it is created in a
/// category that exists or is created first.
#[derive(PartialEq, Eq, Structural, Clone, Copy, Debug)]
pub enum BootstrapPlan {
    Existing(u64),
    Create(CategoryStep),
}

/// Plans the bootstrap from the channels that exist. Running the plan again
/// on what it created finds both and creates nothing.
pub fn plan_bootstrap(channels: &Vec<ChannelInfo>) -> (r: BootstrapPlan)
    ensures
        forall|i: int|
            is_first_channel(channels@, BOT_DATA_CHANNEL_NAME@, i) ==> r == BootstrapPlan::Existing(channels@[i].id),
        no_channel(channels@, BOT_DATA_CHANNEL_NAME@) ==> {
            &&& forall|j: int|
                is_first_channel(channels@, BOT_DATA_CHANNEL_CATEGORY_NAME@, j) ==> r == BootstrapPlan::Create(
                    CategoryStep::Existing(channels@[j].id),
                )
            &&& no_channel(channels@, BOT_DATA_CHANNEL_CATEGORY_NAME@) ==> r == BootstrapPlan::Create(
                CategoryStep::Create,
            )
        },
{
    match find_channel(channels, BOT_DATA_CHANNEL_NAME) {
        Some(i) => {
            proof {
                assert forall|k: int| is_first_channel(channels@, BOT_DATA_CHANNEL_NAME@, k) implies k == i by {
                    if k < i {
                        assert(channels@[k].name@ != BOT_DATA_CHANNEL_NAME@);
                    } else if k > i {
                        assert(channels@[i as int].name@ != BOT_DATA_CHANNEL_NAME@);
                    }
                }
            }
            BootstrapPlan::Existing(channels[i].id)
        },
        None => match find_channel(channels, BOT_DATA_CHANNEL_CATEGORY_NAME) {
            Some(j) => {
                proof {
                    assert forall|k: int| is_first_channel(channels@, BOT_DATA_CHANNEL_CATEGORY_NAME@, k) implies k
                        == j by {
                        if k < j {
                            assert(channels@[k].name@ != BOT_DATA_CHANNEL_CATEGORY_NAME@);
                        } else if k > j {
                            assert(channels@[j as int].name@ != BOT_DATA_CHANNEL_CATEGORY_NAME@);
                        }
                    }
                }
                BootstrapPlan::Create(CategoryStep::Existing(channels[j].id))
            },
            None => BootstrapPlan::Create(CategoryStep::Create),
        },
    }
}

/// Pin `i` holds the highest message id, and is the first that does.
pub open spec fn is_latest(pins: Seq<u64>, i: int) -> bool {
    &&& 0 <= i < pins.len()
    &&& forall|j: int| 0 <= j < pins.len() ==> pins[j] <= pins[i]
    &&& forall|j: int| 0 <= j < i ==> pins[j] < pins[i]
}

/// The position of the latest pin.
pub fn latest_pin(pins: &Vec<u64>) -> (r: Option<usize>)
    ensures
        r is None <==> pins@.len() == 0,
        r is Some ==> is_latest(pins@, r->0 as int),
{
    if pins.len() == 0 {
        return None;
    }
    let mut best: usize = 0;
    let mut i: usize = 1;
    while i < pins.len()
        invariant
            1 <= i <= pins@.len(),
            best < i,
            forall|j: int| 0 <= j < i ==> pins@[j] <= pins@[best as int],
            forall|j: int| 0 <= j < best ==> pins@[j] < pins@[best as int],
        decreases pins@.len() - i,
    {
        if pins[i] > pins[best] {
            best = i;
        }
        i = i + 1;
    }
    Some(best)
}

/// What reading the current version comes to.
#[derive(PartialEq, Eq, Structural, Clone, Copy, Debug)]
pub enum ReadPlan {
    /// No pin: no document exists yet, and a fresh empty one stands in.
    Fresh,
    /// Fetch and decode the attachment of this message.
    Fetch(u64),
}

/// The recovery rule of a read: no pin gives a fresh document; one or more
/// pins give the latest of them, never a merge.
pub fn read_plan(pins: &Vec<u64>) -> (r: ReadPlan)
    ensures
        r == ReadPlan::Fresh <==> pins@.len() == 0,
        r is Fetch ==> exists|i: int| is_latest(pins@, i) && r == ReadPlan::Fetch(pins@[i]),
{
    match latest_pin(pins) {
        None => ReadPlan::Fresh,
        Some(i) => ReadPlan::Fetch(pins[i]),
    }
}

/// One step of moving the pointer.
#[derive(PartialEq, Eq, Structural, Clone, Copy, Debug)]
pub enum PinAction {
    Pin(u64),
    Unpin(u64),
}

/// The pointer move to a new message: pin it, then unpin each older pin.
pub open spec fn pointer_advance(old_pins: Seq<u64>, new_id: u64) -> Seq<PinAction> {
    seq![PinAction::Pin(new_id)] + old_pins.map_values(|p: u64| PinAction::Unpin(p))
}

/// Plans the pointer move to `new_id` after it was appended.
pub fn plan_pointer_advance(old_pins: &Vec<u64>, new_id: u64) -> (r: Vec<PinAction>)
    ensures
        r@ == pointer_advance(old_pins@, new_id),
{
    let mut r: Vec<PinAction> = Vec::new();
    r.push(PinAction::Pin(new_id));
    let mut i: usize = 0;
    while i < old_pins.len()
        invariant
            i <= old_pins@.len(),
            r@ == seq![PinAction::Pin(new_id)] + old_pins@.subrange(0, i as int).map_values(
                |p: u64| PinAction::Unpin(p),
            ),
        decreases old_pins@.len() - i,
    {
        r.push(PinAction::Unpin(old_pins[i]));
        i = i + 1;
        assert(r@ =~= seq![PinAction::Pin(new_id)] + old_pins@.subrange(0, i as int).map_values(
            |p: u64| PinAction::Unpin(p),
        ));
    }
    assert(old_pins@.subrange(0, i as int) =~= old_pins@);
    r
}

/// The pinned messages after `acts` were carried out on `pins`.
pub open spec fn pins_after(pins: Set<u64>, acts: Seq<PinAction>) -> Set<u64>
    decreases acts.len(),
{
    if acts.len() == 0 {
        pins
    } else {
        let before = pins_after(pins, acts.drop_last());
        match acts.last() {
            PinAction::Pin(x) => before.insert(x),
            PinAction::Unpin(x) => before.remove(x),
        }
    }
}

/// A completed pointer move leaves the new message as the only pin, so the
/// latest pin of any listing of the pins, which a read fetches, is the version
/// that was written.
pub proof fn lemma_advance_leaves_only_new(old_pins: Seq<u64>, new_id: u64)
    requires
        forall|i: int| 0 <= i < old_pins.len() ==> old_pins[i] < new_id,
    ensures
        pins_after(old_pins.to_set(), pointer_advance(old_pins, new_id)) == set![new_id],
        forall|listed: Seq<u64>, i: int|
            listed.to_set() == pins_after(old_pins.to_set(), pointer_advance(old_pins, new_id)) && #[trigger] is_latest(
                listed,
                i,
            ) ==> listed[i] == new_id,
{
    assert forall|listed: Seq<u64>, i: int| listed.to_set() == set![new_id] && #[trigger] is_latest(listed, i) implies listed[i]
        == new_id by {
        assert(listed.to_set().contains(listed[i]));
    }
    let acts = pointer_advance(old_pins, new_id);
    assert forall|k: int| 0 <= k <= old_pins.len() implies #[trigger] pins_after(old_pins.to_set(), acts.take(k + 1))
        == old_pins.to_set().difference(old_pins.take(k).to_set()).insert(new_id) by {
        lemma_advance_prefix(old_pins, new_id, k);
    }
    assert(acts.take(old_pins.len() + 1 as int) =~= acts);
    assert(old_pins.take(old_pins.len() as int) =~= old_pins);
    assert(old_pins.to_set().difference(old_pins.to_set()).insert(new_id) =~= set![new_id]);
}

proof fn lemma_advance_prefix(old_pins: Seq<u64>, new_id: u64, k: int)
    requires
        forall|i: int| 0 <= i < old_pins.len() ==> old_pins[i] < new_id,
        0 <= k <= old_pins.len(),
    ensures
        pins_after(old_pins.to_set(), pointer_advance(old_pins, new_id).take(k + 1)) == old_pins.to_set().difference(
            old_pins.take(k).to_set(),
        ).insert(new_id),
    decreases k,
{
    let acts = pointer_advance(old_pins, new_id);
    let s = old_pins.to_set();
    if k == 0 {
        assert(acts.take(1).drop_last() =~= Seq::<PinAction>::empty());
        assert(acts.take(1).last() == PinAction::Pin(new_id));
        assert(pins_after(s, acts.take(1).drop_last()) == s);
        assert(pins_after(s, acts.take(1)) == s.insert(new_id));
        assert(old_pins.take(0).to_set() =~= Set::<u64>::empty());
        assert(s.difference(Set::<u64>::empty()) =~= s);
    } else {
        lemma_advance_prefix(old_pins, new_id, k - 1);
        assert(acts.take(k + 1).drop_last() =~= acts.take(k));
        assert(acts.take(k + 1).last() == PinAction::Unpin(old_pins[k - 1]));
        let x = old_pins[k - 1];
        assert(x != new_id);
        assert(pins_after(s, acts.take(k + 1)) == pins_after(s, acts.take(k)).remove(x));
        assert(old_pins.take(k) =~= old_pins.take(k - 1).push(x));
        old_pins.take(k - 1).lemma_push_to_set_commute(x);
        assert(old_pins.take(k).to_set() =~= old_pins.take(k - 1).to_set().insert(x));
        assert(s.difference(old_pins.take(k - 1).to_set()).insert(new_id).remove(x) =~= s.difference(
            old_pins.take(k).to_set(),
        ).insert(new_id));
    }
}

/// A pointer move cut short after at least its first step still has the new
/// message pinned, and no pin is later than it: a read takes the new version.
pub proof fn lemma_interrupted_advance_keeps_new(old_pins: Seq<u64>, new_id: u64, k: int)
    requires
        forall|i: int| 0 <= i < old_pins.len() ==> old_pins[i] < new_id,
        1 <= k <= old_pins.len() + 1,
    ensures
        pins_after(old_pins.to_set(), pointer_advance(old_pins, new_id).take(k)).contains(new_id),
        forall|x: u64|
            #[trigger] pins_after(old_pins.to_set(), pointer_advance(old_pins, new_id).take(k)).contains(x) ==> x
                <= new_id,
{
    lemma_advance_prefix(old_pins, new_id, k - 1);
    assert forall|x: u64|
        #[trigger] pins_after(old_pins.to_set(), pointer_advance(old_pins, new_id).take(k)).contains(x) implies x
        <= new_id by {
        if x != new_id {
            assert(old_pins.to_set().contains(x));
            let i = choose|i: int| 0 <= i < old_pins.len() && old_pins[i] == x;
        }
    }
}

} // verus!
