//! Messages and per-node event traces.
//!
//! A node's trace is the ordered list of what happened at its boundary with the
//! application: messages the application handed to it (`Originate`) and messages
//! it handed to the application (`Deliver`).

use vstd::prelude::*;

verus! {

/// A message: a tag that names its type, and a payload.
#[derive(Clone, Debug, PartialEq, Eq)]
pub struct Message {
    pub tag: String,
    pub payload: String,
}

/// What a [`Message`] holds.
pub struct MessageView {
    pub tag: Seq<char>,
    pub payload: Seq<char>,
}

impl View for Message {
    type V = MessageView;

    open spec fn view(&self) -> MessageView {
        MessageView { tag: self.tag@, payload: self.payload@ }
    }
}

impl Message {
    /// A message with the given tag and payload.
    pub fn new(tag: &str, payload: &str) -> (m: Message)
        ensures
            m@.tag == tag@,
            m@.payload == payload@,
    {
        Message { tag: tag.to_owned(), payload: payload.to_owned() }
    }

    /// A copy of the message.
    pub fn duplicate(&self) -> (m: Message)
        ensures
            m@ == self@,
    {
        Message { tag: self.tag.clone(), payload: self.payload.clone() }
    }
}

/// The two kinds of local event.
#[derive(Clone, Copy, Debug, PartialEq, Eq, Structural)]
pub enum EventKind {
    /// The application asked the node to send the message.
    Originate,
    /// The node handed the message to the application.
    Deliver,
}

/// One entry of a node's trace.
#[derive(Clone, Debug, PartialEq, Eq)]
pub struct LocalEvent {
    pub kind: EventKind,
    pub message: Message,
}

/// What a [`LocalEvent`] holds.
pub struct LocalEventView {
    pub kind: EventKind,
    pub message: MessageView,
}

impl View for LocalEvent {
    type V = LocalEventView;

    open spec fn view(&self) -> LocalEventView {
        LocalEventView { kind: self.kind, message: self.message@ }
    }
}

/// The views of a list of messages, in order.
pub open spec fn message_views(v: Seq<Message>) -> Seq<MessageView> {
    v.map_values(|m: Message| m@)
}

/// The views of a list of events, in order.
pub open spec fn event_views(v: Seq<LocalEvent>) -> Seq<LocalEventView> {
    v.map_values(|e: LocalEvent| e@)
}

/// The payloads of a list of messages, in order.
pub open spec fn payloads(v: Seq<MessageView>) -> Seq<Seq<char>> {
    v.map_values(|m: MessageView| m.payload)
}

/// The messages of the events of one kind, in the order of the trace.
pub open spec fn messages_of_kind(events: Seq<LocalEventView>, kind: EventKind) -> Seq<
    MessageView,
> {
    events.filter(|e: LocalEventView| e.kind == kind).map_values(|e: LocalEventView| e.message)
}

/// The messages that a trace's events of one kind carry, in order.
pub fn messages_with_kind(events: &Vec<LocalEvent>, kind: EventKind) -> (out: Vec<Message>)
    ensures
        message_views(out@) == messages_of_kind(event_views(events@), kind),
{
    let mut out: Vec<Message> = Vec::new();
    let mut i: usize = 0;
    let ghost all = event_views(events@);
    let ghost wanted = |e: LocalEventView| e.kind == kind;
    let ghost pick = |e: LocalEventView| e.message;
    proof {
        reveal(Seq::filter);
        assert(all.take(0).filter(wanted) == Seq::<LocalEventView>::empty());
    }
    while i < events.len()
        invariant
            i <= events.len(),
            all == event_views(events@),
            wanted == |e: LocalEventView| e.kind == kind,
            pick == |e: LocalEventView| e.message,
            message_views(out@) == all.take(i as int).filter(wanted).map_values(pick),
        decreases events.len() - i,
    {
        let ghost seen = all.take(i as int);
        let ghost before = message_views(out@);
        proof {
            assert(all.take(i + 1) == seen.push(all[i as int]));
            seen.lemma_filter_push(all[i as int], wanted);
        }
        if events[i].kind == kind {
            out.push(events[i].message.duplicate());
            assert(message_views(out@) == before.push(all[i as int].message));
            assert(seen.filter(wanted).push(all[i as int]).map_values(pick) == seen.filter(
                wanted,
            ).map_values(pick).push(all[i as int].message));
        }
        i += 1;
    }
    assert(all.take(events.len() as int) == all);
    out
}

/// The messages that the node handed to the application, in order.
pub fn delivered_messages(events: &Vec<LocalEvent>) -> (out: Vec<Message>)
    ensures
        message_views(out@) == messages_of_kind(event_views(events@), EventKind::Deliver),
{
    messages_with_kind(events, EventKind::Deliver)
}

} // verus!
