//! The chaos monkey's choices: which node a fault hits, and what the group that
//! is still expected to converge looks like afterwards.
//!
//! The class of each fault is drawn by whoever runs the scenario, from the same
//! generator; the victims are drawn here. A node that was crashed, disconnected
//! or cut off from incoming traffic leaves the group, so it is never chosen
//! again and never expected to converge. Severing the link between two nodes
//! leaves both in the group.

use crate::random::draw_index;
use crate::text::{decimal, decimal_text, texts};
use vstd::prelude::*;

verus! {

/// How many faults the chaos monkey injects in one run.
pub const MONKEY_FAULTS: u32 = 5;

/// The four classes of fault, equally likely.
#[derive(Clone, Copy, Debug, PartialEq, Eq, Structural)]
pub enum FaultClass {
    Crash,
    Disconnect,
    BlockIncoming,
    SeverLink,
}

/// A fault to inject.
#[derive(Clone, Debug, PartialEq, Eq)]
pub enum Fault {
    /// The node crashes.
    Crash { node: String },
    /// The node is disconnected from the network in both directions.
    Disconnect { node: String },
    /// The node no longer receives what is sent to it.
    BlockIncoming { node: String },
    /// The two nodes can no longer reach each other, in either direction.
    SeverLink { first: String, second: String },
}

/// What a [`Fault`] holds.
pub enum FaultView {
    Crash { node: Seq<char> },
    Disconnect { node: Seq<char> },
    BlockIncoming { node: Seq<char> },
    SeverLink { first: Seq<char>, second: Seq<char> },
}

impl View for Fault {
    type V = FaultView;

    open spec fn view(&self) -> FaultView {
        match self {
            Fault::Crash { node } => FaultView::Crash { node: node@ },
            Fault::Disconnect { node } => FaultView::Disconnect { node: node@ },
            Fault::BlockIncoming { node } => FaultView::BlockIncoming { node: node@ },
            Fault::SeverLink { first, second } => FaultView::SeverLink {
                first: first@,
                second: second@,
            },
        }
    }
}

/// The class of the fault that a quarter of the unit interval stands for: the
/// first quarter crashes, the second disconnects, the third blocks incoming
/// traffic, the last severs a link.
pub fn fault_class(quarter: u8) -> (class: FaultClass)
    ensures
        class == match quarter {
            0 => FaultClass::Crash,
            1 => FaultClass::Disconnect,
            2 => FaultClass::BlockIncoming,
            _ => FaultClass::SeverLink,
        },
{
    match quarter {
        0 => FaultClass::Crash,
        1 => FaultClass::Disconnect,
        2 => FaultClass::BlockIncoming,
        _ => FaultClass::SeverLink,
    }
}

/// The fault of class `class` that takes the node `victim` out.
pub open spec fn removal(class: FaultClass, victim: Seq<char>) -> FaultView {
    match class {
        FaultClass::Crash => FaultView::Crash { node: victim },
        FaultClass::Disconnect => FaultView::Disconnect { node: victim },
        _ => FaultView::BlockIncoming { node: victim },
    }
}

/// What may come of choosing a fault of class `class` in the group `before`:
/// a fault that takes out one member, which then leaves the group with the order
/// of the others kept; or a severed link between two different members, with the
/// group as it was; or nothing, where no second member was drawn in time.
pub open spec fn fault_chosen(
    class: FaultClass,
    before: Seq<Seq<char>>,
    after: Seq<Seq<char>>,
    fault: Option<FaultView>,
) -> bool {
    match class {
        FaultClass::SeverLink => {
            &&& after == before
            &&& fault matches Some(f) ==> f matches FaultView::SeverLink { first, second }
                && before.contains(first) && before.contains(second) && first != second
        },
        _ => exists|at: int|
            0 <= at < before.len() && after == before.remove(at) && fault == Some(
                removal(class, #[trigger] before[at]),
            ),
    }
}

/// All members of the group bear the same name.
pub open spec fn all_alike(group: Seq<Seq<char>>) -> bool {
    forall|i: int, j: int|
        0 <= i < group.len() && 0 <= j < group.len() ==> #[trigger] group[i] == #[trigger] group[j]
}

/// Chooses the victims of a fault of class `class` among the group and takes a
/// victim that the fault removes out of the group. For a severed link the second
/// node is drawn again while it equals the first, at most `max_draws` times; what
/// comes of each pair drawn is what [`severed_pair`] says. No link is severed
/// where no draw of the second node is allowed, or where all members of the
/// group bear the same name.
pub fn next_fault(
    class: FaultClass,
    group: &mut Vec<String>,
    rng: &mut rand_pcg::Pcg64,
    max_draws: u32,
) -> (fault: Option<Fault>)
    requires
        old(group).len() >= 1,
    ensures
        fault_chosen(
            class,
            texts(old(group)@),
            texts(final(group)@),
            match fault {
                Some(f) => Some(f@),
                None => None,
            },
        ),
        !(class is SeverLink) ==> fault is Some,
        class is SeverLink && (max_draws == 0 || all_alike(texts(old(group)@))) ==> fault is None,
{
    let ghost before = texts(group@);
    match class {
        FaultClass::SeverLink => {
            let first = draw_index(rng, group.len());
            let mut left = max_draws;
            while left > 0
                invariant
                    class is SeverLink,
                    first < group.len(),
                    texts(group@) == before,
                    left <= max_draws,
                decreases left,
            {
                let second = draw_index(rng, group.len());
                match severed_pair(group, first, second) {
                    Some(fault) => {
                        proof {
                            assert(before.contains(before[first as int]));
                            assert(before.contains(before[second as int]));
                        }
                        return Some(fault);
                    },
                    None => {},
                }
                left -= 1;
            }
            None
        },
        _ => {
            let at = draw_index(rng, group.len());
            let node = group.remove(at);
            proof {
                assert(node@ == before[at as int]);
                assert(texts(group@) == before.remove(at as int));
            }
            match class {
                FaultClass::Crash => Some(Fault::Crash { node }),
                FaultClass::Disconnect => Some(Fault::Disconnect { node }),
                _ => Some(Fault::BlockIncoming { node }),
            }
        },
    }
}

/// The link that a pair of draws severs: that between the members at `first` and
/// at `second`, where they bear different names; none where they bear the same.
pub fn severed_pair(group: &Vec<String>, first: usize, second: usize) -> (r: Option<Fault>)
    requires
        first < group.len(),
        second < group.len(),
    ensures
        (match r {
            Some(f) => Some(f@),
            None => None,
        }) == if texts(group@)[first as int] != texts(group@)[second as int] {
            Some(
                FaultView::SeverLink {
                    first: texts(group@)[first as int],
                    second: texts(group@)[second as int],
                },
            )
        } else {
            None::<FaultView>
        },
{
    assert(texts(group@)[first as int] == group[first as int]@);
    assert(texts(group@)[second as int] == group[second as int]@);
    if !(group[first] == group[second]) {
        Some(Fault::SeverLink { first: group[first].clone(), second: group[second].clone() })
    } else {
        None
    }
}

/// A member taken out of a group without repetitions is no longer in it, and the
/// rest still has no repetitions: no victim is chosen twice.
pub proof fn lemma_victim_leaves(before: Seq<Seq<char>>, at: int)
    requires
        before.no_duplicates(),
        0 <= at < before.len(),
    ensures
        !before.remove(at).contains(before[at]),
        before.remove(at).no_duplicates(),
        before.remove(at).len() == before.len() - 1,
        forall|x: Seq<char>| before.remove(at).contains(x) ==> before.contains(x),
{
    let after = before.remove(at);
    assert forall|i: int| 0 <= i < after.len() implies after[i] != before[at] by {
        if i < at {
            assert(after[i] == before[i]);
        } else {
            assert(after[i] == before[i + 1]);
        }
    }
    assert forall|i: int, j: int| 0 <= i < after.len() && 0 <= j < after.len() && i != j implies after[i]
        != after[j] by {
        let a = if i < at {
            i
        } else {
            i + 1
        };
        let b = if j < at {
            j
        } else {
            j + 1
        };
        assert(after[i] == before[a] && after[j] == before[b]);
    }
    assert forall|x: Seq<char>| after.contains(x) implies before.contains(x) by {
        let i = choose|i: int| 0 <= i < after.len() && after[i] == x;
        if i < at {
            assert(before[i] == x);
        } else {
            assert(before[i + 1] == x);
        }
    }
}

/// Draws two different nodes among `node_count`, by position. The second is drawn
/// again while it equals the first, at most `max_draws` times. What comes of each
/// draw of the second is what [`second_victim`] says. There is no result where no
/// draw is allowed or there is only one node.
pub fn pick_two_victims(rng: &mut rand_pcg::Pcg64, node_count: u32, max_draws: u32) -> (r: Option<
    (u32, u32),
>)
    requires
        node_count > 0,
    ensures
        r matches Some((first, second)) ==> first < node_count && second < node_count && first
            != second,
        max_draws == 0 || node_count == 1 ==> r is None,
{
    let first = crate::random::draw_between(rng, 0, node_count);
    let mut left = max_draws;
    while left > 0
        invariant
            node_count > 0,
            first < node_count,
            left <= max_draws,
        decreases left,
    {
        let drawn = crate::random::draw_between(rng, 0, node_count);
        match second_victim(first, drawn) {
            Some(pair) => {
                return Some(pair);
            },
            None => {},
        }
        left -= 1;
    }
    None
}

/// The pair of victims that a draw of the second completes: the first victim
/// with the node drawn, where that is another node; nothing where the same node
/// was drawn again.
pub fn second_victim(first: u32, drawn: u32) -> (r: Option<(u32, u32)>)
    ensures
        r == if drawn != first {
            Some((first, drawn))
        } else {
            None::<(u32, u32)>
        },
{
    if drawn != first {
        Some((first, drawn))
    } else {
        None
    }
}

/// The text of the message that user `user` broadcasts in round `round`: the two
/// numerals with a colon between.
pub fn chat_message(user: u32, round: u32) -> (text: String)
    ensures
        text@ == decimal(user as nat).push(':') + decimal(round as nat),
{
    let mut text = decimal_text(user);
    text.push(':');
    let tail = decimal_text(round);
    text.append(tail.as_str());
    text
}

} // verus!
