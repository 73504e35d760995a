//! The vocabulary of scenarios: what a driver can be told to do to the simulated
//! network and to the nodes in it.
//!
//! Durations are in simulated milliseconds and rates in percent, so that every
//! setting is a whole number.

use crate::text::texts;
use vstd::prelude::*;

verus! {

/// A local command for a node under test.
#[derive(Clone, Debug, PartialEq, Eq)]
pub enum Command {
    /// Send `text` to the receiver, in a message tagged `tag`.
    Info { tag: String, text: String },
    /// Broadcast `text`.
    Broadcast { text: String },
    /// Join the group that the node `seed` belongs to.
    Join { seed: String },
    /// Leave the group.
    Leave,
    /// Report the members of the group.
    GetMembers,
    /// Read `key` from `quorum` replicas.
    Get { key: String, quorum: u8 },
    /// Write `value` under `key` to `quorum` replicas, on top of what `context`
    /// stands for, if one is given.
    Put { key: String, value: String, context: Option<String>, quorum: u8 },
    /// Delete `key` from `quorum` replicas.
    Delete { key: String, quorum: u8 },
}

/// What a [`Command`] holds.
pub enum CommandView {
    Info { tag: Seq<char>, text: Seq<char> },
    Broadcast { text: Seq<char> },
    Join { seed: Seq<char> },
    Leave,
    GetMembers,
    Get { key: Seq<char>, quorum: u8 },
    Put { key: Seq<char>, value: Seq<char>, context: Option<Seq<char>>, quorum: u8 },
    Delete { key: Seq<char>, quorum: u8 },
}

impl View for Command {
    type V = CommandView;

    open spec fn view(&self) -> CommandView {
        match self {
            Command::Info { tag, text } => CommandView::Info { tag: tag@, text: text@ },
            Command::Broadcast { text } => CommandView::Broadcast { text: text@ },
            Command::Join { seed } => CommandView::Join { seed: seed@ },
            Command::Leave => CommandView::Leave,
            Command::GetMembers => CommandView::GetMembers,
            Command::Get { key, quorum } => CommandView::Get { key: key@, quorum: *quorum },
            Command::Put { key, value, context, quorum } => CommandView::Put {
                key: key@,
                value: value@,
                context: match context {
                    Some(c) => Some(c@),
                    None => None,
                },
                quorum: *quorum,
            },
            Command::Delete { key, quorum } => CommandView::Delete { key: key@, quorum: *quorum },
        }
    }
}

/// Something to do to the simulation that yields nothing to judge.
#[derive(Clone, Debug, PartialEq, Eq)]
#[allow(inconsistent_fields)]
pub enum Control {
    /// Let every message take between `min` and `max` milliseconds.
    SetDelays { min: u32, max: u32 },
    /// Let every message take `millis` milliseconds.
    SetDelay { millis: u32 },
    /// Drop this share of the messages.
    SetDropRate { percent: u8 },
    /// Duplicate this share of the messages.
    SetDuplRate { percent: u8 },
    /// Crash the node, for the rest of the run unless it is recovered.
    Crash { node: String },
    /// Start the crashed node afresh.
    Recover { node: String },
    /// Cut the node off the network in both directions.
    Disconnect { node: String },
    /// Undo `Disconnect`.
    Connect { node: String },
    /// Drop what is sent to the node.
    DropIncoming { node: String },
    /// Drop what the node sends.
    DropOutgoing { node: String },
    /// Undo `DropOutgoing`.
    PassOutgoing { node: String },
    /// Drop what `from` sends to `to`.
    DisableLink { from: String, to: String },
    /// Cut every link between the two groups.
    Partition { first: Vec<String>, second: Vec<String> },
    /// Make the network fully connected and reliable again.
    ResetNetwork,
    /// Advance the simulation by `count` events, or until none remain.
    Steps { count: u32 },
    /// Advance the simulation until no events remain.
    StepUntilNoEvents,
    /// Advance the simulation by `millis` simulated milliseconds.
    StepForDuration { millis: u32 },
    /// Advance the simulation event by event until the trace of `node` holds at
    /// least `count` events.
    StepUntilEvents { node: String, count: usize },
    /// Hand the command to the node.
    Send { node: String, command: Command },
}

/// What a [`Control`] holds.
#[allow(inconsistent_fields)]
pub enum ControlView {
    SetDelays { min: u32, max: u32 },
    SetDelay { millis: u32 },
    SetDropRate { percent: u8 },
    SetDuplRate { percent: u8 },
    Crash { node: Seq<char> },
    Recover { node: Seq<char> },
    Disconnect { node: Seq<char> },
    Connect { node: Seq<char> },
    DropIncoming { node: Seq<char> },
    DropOutgoing { node: Seq<char> },
    PassOutgoing { node: Seq<char> },
    DisableLink { from: Seq<char>, to: Seq<char> },
    Partition { first: Seq<Seq<char>>, second: Seq<Seq<char>> },
    ResetNetwork,
    Steps { count: u32 },
    StepUntilNoEvents,
    StepForDuration { millis: u32 },
    StepUntilEvents { node: Seq<char>, count: usize },
    Send { node: Seq<char>, command: CommandView },
}

impl View for Control {
    type V = ControlView;

    open spec fn view(&self) -> ControlView {
        match self {
            Control::SetDelays { min, max } => ControlView::SetDelays { min: *min, max: *max },
            Control::SetDelay { millis } => ControlView::SetDelay { millis: *millis },
            Control::SetDropRate { percent } => ControlView::SetDropRate { percent: *percent },
            Control::SetDuplRate { percent } => ControlView::SetDuplRate { percent: *percent },
            Control::Crash { node } => ControlView::Crash { node: node@ },
            Control::Recover { node } => ControlView::Recover { node: node@ },
            Control::Disconnect { node } => ControlView::Disconnect { node: node@ },
            Control::Connect { node } => ControlView::Connect { node: node@ },
            Control::DropIncoming { node } => ControlView::DropIncoming { node: node@ },
            Control::DropOutgoing { node } => ControlView::DropOutgoing { node: node@ },
            Control::PassOutgoing { node } => ControlView::PassOutgoing { node: node@ },
            Control::DisableLink { from, to } => ControlView::DisableLink { from: from@, to: to@ },
            Control::Partition { first, second } => ControlView::Partition {
                first: texts(first@),
                second: texts(second@),
            },
            Control::ResetNetwork => ControlView::ResetNetwork,
            Control::Steps { count } => ControlView::Steps { count: *count },
            Control::StepUntilNoEvents => ControlView::StepUntilNoEvents,
            Control::StepForDuration { millis } => ControlView::StepForDuration { millis: *millis },
            Control::StepUntilEvents { node, count } => ControlView::StepUntilEvents {
                node: node@,
                count: *count,
            },
            Control::Send { node, command } => ControlView::Send { node: node@, command: command@ },
        }
    }
}

/// A copy of a list of texts.
pub fn copy_texts(list: &Vec<String>) -> (out: Vec<String>)
    ensures
        texts(out@) == texts(list@),
{
    let mut out: Vec<String> = Vec::new();
    let mut i: usize = 0;
    while i < list.len()
        invariant
            i <= list.len(),
            texts(out@) == texts(list@).take(i as int),
        decreases list.len() - i,
    {
        let ghost before = texts(out@);
        out.push(list[i].clone());
        assert(texts(out@) == before.push(texts(list@)[i as int]));
        assert(texts(list@).take(i + 1) == texts(list@).take(i as int).push(texts(list@)[i as int]));
        i += 1;
    }
    assert(texts(list@).take(list.len() as int) == texts(list@));
    out
}

} // verus!
