//! Scenarios as scripts, and the runner that plays them.
//!
//! A script is a list of steps. Some steps only act on the simulation; others ask
//! a node for something and hold the answer against what the scenario expects at
//! that point. A later step may build on what an earlier one got back: the
//! context of a read, or the first value it returned.
//!
//! The runner is a state machine. It hands out one action at a time, is told what
//! came of it, judges that, and stops at the first failure: later steps assume
//! that earlier ones held.

use crate::causal::{
    cart_of, cart_value, cart_verdict, cart_with, check_cart, check_count,
    check_single, count_verdict, get_verdict, optional_texts, optional_values_reply, put_verdict,
    single_verdict, ValuesReply, ValuesReplyView,
};
use crate::membership::{MembershipError, Unsettled, UnsettledView};
use crate::plan::{Command, CommandView, Control, ControlView};
use crate::store::{
    check_reply, optional_reply, optional_text, value_verdict, StoreError, ValueReply,
    ValueReplyView,
};
use crate::text::{text_of, texts};
use vstd::prelude::*;

verus! {

/// Where a text of a step comes from.
#[derive(Clone, Debug, PartialEq, Eq)]
pub enum Source {
    /// The text itself.
    Fixed(String),
    /// The value that the write at that step put.
    PutAt(usize),
    /// The first value that the answer at that step carried, with `suffix` added
    /// at its end.
    Appended { step: usize, suffix: String },
    /// The cart that the first value of the answer at that step lists, with
    /// `item` added.
    CartOf { step: usize, item: String },
}

/// What a [`Source`] holds.
pub enum SourceView {
    Fixed(Seq<char>),
    PutAt(usize),
    Appended { step: usize, suffix: Seq<char> },
    CartOf { step: usize, item: Seq<char> },
}

impl View for Source {
    type V = SourceView;

    open spec fn view(&self) -> SourceView {
        match self {
            Source::Fixed(t) => SourceView::Fixed(t@),
            Source::PutAt(step) => SourceView::PutAt(*step),
            Source::Appended { step, suffix } => SourceView::Appended { step: *step, suffix: suffix@ },
            Source::CartOf { step, item } => SourceView::CartOf { step: *step, item: item@ },
        }
    }
}

/// The views of a list of sources, in order.
pub open spec fn source_views(v: Seq<Source>) -> Seq<SourceView> {
    v.map_values(|s: Source| s@)
}

/// What is asked of the values that a write returns.
#[derive(Clone, Copy, Debug, PartialEq, Eq, Structural)]
pub enum After {
    /// Nothing.
    Nothing,
    /// That there is exactly one.
    Single,
    /// That there is exactly one, the value that was put.
    SingleSame,
    /// That there are exactly `count`.
    Count { count: usize },
}

/// One step of a script.
#[derive(Clone, Debug, PartialEq, Eq)]
#[allow(inconsistent_fields)]
pub enum Step {
    /// Act on the simulation.
    Do(Control),
    /// Run the membership oracle on `group`.
    Stabilize { group: Vec<String>, steps_per_iter: u32, max_steps: u32 },
    /// Advance by `if_so` events where the trace of `node` holds exactly `events`
    /// events, else by `if_not`.
    StepsByEvents { node: String, events: usize, if_so: u32, if_not: u32 },
    /// Read `key` at `node` from the single-value store and expect this value, or
    /// that there is none.
    Get { node: String, key: String, quorum: u8, expected: Option<String>, max_steps: u32 },
    /// Write `value` under `key` at `node` to the single-value store.
    Put { node: String, key: String, value: String, quorum: u8, max_steps: u32 },
    /// Delete `key` at `node` from the single-value store and expect that this
    /// value was stored, or none.
    Delete { node: String, key: String, quorum: u8, expected: Option<String>, max_steps: u32 },
    /// Read `key` at `node` from the multi-value store. Where `expected` is given,
    /// expect exactly these siblings; where `cart` is given, expect one value
    /// that lists exactly these items.
    Read {
        node: String,
        key: String,
        quorum: u8,
        expected: Option<Vec<Source>>,
        cart: Option<Vec<String>>,
        max_steps: u32,
    },
    /// Write `value` under `key` at `node` to the multi-value store, with the
    /// context that the answer at step `context` carried, if one is named.
    Write {
        node: String,
        key: String,
        value: Source,
        context: Option<usize>,
        quorum: u8,
        after: After,
        max_steps: u32,
    },
    /// Wait for the answer to a write of `key` that was handed to `node` before.
    AwaitWrite { node: String, key: String, max_steps: u32 },
}

/// What a [`Step`] holds.
#[allow(inconsistent_fields)]
pub enum StepView {
    Do(ControlView),
    Stabilize { group: Seq<Seq<char>>, steps_per_iter: u32, max_steps: u32 },
    StepsByEvents { node: Seq<char>, events: usize, if_so: u32, if_not: u32 },
    Get { node: Seq<char>, key: Seq<char>, quorum: u8, expected: Option<Seq<char>>, max_steps: u32 },
    Put { node: Seq<char>, key: Seq<char>, value: Seq<char>, quorum: u8, max_steps: u32 },
    Delete {
        node: Seq<char>,
        key: Seq<char>,
        quorum: u8,
        expected: Option<Seq<char>>,
        max_steps: u32,
    },
    Read {
        node: Seq<char>,
        key: Seq<char>,
        quorum: u8,
        expected: Option<Seq<SourceView>>,
        cart: Option<Seq<Seq<char>>>,
        max_steps: u32,
    },
    Write {
        node: Seq<char>,
        key: Seq<char>,
        value: SourceView,
        context: Option<usize>,
        quorum: u8,
        after: After,
        max_steps: u32,
    },
    AwaitWrite { node: Seq<char>, key: Seq<char>, max_steps: u32 },
}

impl View for Step {
    type V = StepView;

    open spec fn view(&self) -> StepView {
        match self {
            Step::Do(c) => StepView::Do(c@),
            Step::Stabilize { group, steps_per_iter, max_steps } => StepView::Stabilize {
                group: texts(group@),
                steps_per_iter: *steps_per_iter,
                max_steps: *max_steps,
            },
            Step::StepsByEvents { node, events, if_so, if_not } => StepView::StepsByEvents {
                node: node@,
                events: *events,
                if_so: *if_so,
                if_not: *if_not,
            },
            Step::Get { node, key, quorum, expected, max_steps } => StepView::Get {
                node: node@,
                key: key@,
                quorum: *quorum,
                expected: optional_text(*expected),
                max_steps: *max_steps,
            },
            Step::Put { node, key, value, quorum, max_steps } => StepView::Put {
                node: node@,
                key: key@,
                value: value@,
                quorum: *quorum,
                max_steps: *max_steps,
            },
            Step::Delete { node, key, quorum, expected, max_steps } => StepView::Delete {
                node: node@,
                key: key@,
                quorum: *quorum,
                expected: optional_text(*expected),
                max_steps: *max_steps,
            },
            Step::Read { node, key, quorum, expected, cart, max_steps } => StepView::Read {
                node: node@,
                key: key@,
                quorum: *quorum,
                expected: match expected {
                    Some(list) => Some(source_views(list@)),
                    None => None,
                },
                cart: optional_texts(*cart),
                max_steps: *max_steps,
            },
            Step::Write { node, key, value, context, quorum, after, max_steps } => StepView::Write {
                node: node@,
                key: key@,
                value: value@,
                context: *context,
                quorum: *quorum,
                after: *after,
                max_steps: *max_steps,
            },
            Step::AwaitWrite { node, key, max_steps } => StepView::AwaitWrite {
                node: node@,
                key: key@,
                max_steps: *max_steps,
            },
        }
    }
}

/// The views of a list of steps, in order.
pub open spec fn step_views(v: Seq<Step>) -> Seq<StepView> {
    v.map_values(|s: Step| s@)
}

/// What a step of the multi-value store left behind for later steps.
#[derive(Clone, Debug, PartialEq, Eq)]
pub struct Outcome {
    /// The value that the step put, if it was a write.
    pub put: Option<String>,
    /// The values that the answer carried.
    pub values: Vec<String>,
    /// The context that the answer carried.
    pub context: Option<String>,
}

/// What an [`Outcome`] holds.
pub struct OutcomeView {
    pub put: Option<Seq<char>>,
    pub values: Seq<Seq<char>>,
    pub context: Option<Seq<char>>,
}

impl View for Outcome {
    type V = OutcomeView;

    open spec fn view(&self) -> OutcomeView {
        OutcomeView {
            put: optional_text(self.put),
            values: texts(self.values@),
            context: optional_text(self.context),
        }
    }
}

/// The views of a list of outcomes, in order.
pub open spec fn outcome_views(v: Seq<Outcome>) -> Seq<OutcomeView> {
    v.map_values(|o: Outcome| o@)
}

/// The outcome of a step that leaves nothing behind.
pub open spec fn no_outcome() -> OutcomeView {
    OutcomeView { put: None, values: Seq::empty(), context: None }
}

/// What a node was asked for: which node, for how many steps the answer is
/// waited for, and the tag that the answer must carry.
#[derive(Clone, Debug, PartialEq, Eq)]
pub struct Asked {
    pub node: String,
    pub max_steps: u32,
    pub tag: String,
}

/// What an [`Asked`] holds.
pub struct AskedView {
    pub node: Seq<char>,
    pub max_steps: u32,
    pub tag: Seq<char>,
}

impl View for Asked {
    type V = AskedView;

    open spec fn view(&self) -> AskedView {
        AskedView { node: self.node@, max_steps: self.max_steps, tag: self.tag@ }
    }
}

/// Nothing was asked yet.
pub open spec fn no_ask() -> AskedView {
    AskedView { node: Seq::empty(), max_steps: 0, tag: Seq::empty() }
}

/// Why a scenario failed, and at which step.
#[derive(Clone, Debug, PartialEq, Eq)]
#[allow(inconsistent_fields)]
pub enum Failure {
    /// The node did not answer with a message tagged `expected` within
    /// `max_steps` steps.
    Timeout { step: usize, node: String, max_steps: u32, expected: String },
    /// The node answered with a message tagged `actual` where `expected` was
    /// called for.
    Format { step: usize, node: String, expected: String, actual: String },
    /// The answer of the node was rejected for what it holds.
    Store { step: usize, node: String, error: StoreError },
    /// The group did not converge; `node` is the member that did not answer or
    /// answered wrongly, where the failure is about one member.
    Membership { step: usize, error: MembershipError, node: Option<String> },
    /// The step builds on an answer that no earlier step left behind.
    Unresolved { step: usize },
    /// The runner was told something it had not asked for.
    OutOfTurn { step: usize },
}

/// What a [`Failure`] holds.
#[allow(inconsistent_fields)]
pub enum FailureView {
    Timeout { step: usize, node: Seq<char>, max_steps: u32, expected: Seq<char> },
    Format { step: usize, node: Seq<char>, expected: Seq<char>, actual: Seq<char> },
    Store { step: usize, node: Seq<char>, error: StoreError },
    Membership { step: usize, error: MembershipError, node: Option<Seq<char>> },
    Unresolved { step: usize },
    OutOfTurn { step: usize },
}

impl View for Failure {
    type V = FailureView;

    open spec fn view(&self) -> FailureView {
        match self {
            Failure::Timeout { step, node, max_steps, expected } => FailureView::Timeout {
                step: *step,
                node: node@,
                max_steps: *max_steps,
                expected: expected@,
            },
            Failure::Format { step, node, expected, actual } => FailureView::Format {
                step: *step,
                node: node@,
                expected: expected@,
                actual: actual@,
            },
            Failure::Store { step, node, error } => FailureView::Store {
                step: *step,
                node: node@,
                error: *error,
            },
            Failure::Membership { step, error, node } => FailureView::Membership {
                step: *step,
                error: *error,
                node: optional_text(*node),
            },
            Failure::Unresolved { step } => FailureView::Unresolved { step: *step },
            Failure::OutOfTurn { step } => FailureView::OutOfTurn { step: *step },
        }
    }
}

/// The verdict of a scenario as contracts see it.
pub open spec fn verdict_view(r: Result<bool, Failure>) -> Result<bool, FailureView> {
    match r {
        Ok(passed) => Ok(passed),
        Err(failure) => Err(failure@),
    }
}

/// The failure that the rejection of an answer amounts to: a timeout where
/// nothing came, a wrong format where the tag is another than expected, and else
/// the rejection itself, each with the node that was asked.
pub open spec fn answer_failure(
    step: usize,
    asked: AskedView,
    actual: Option<Seq<char>>,
    error: StoreError,
) -> FailureView {
    match error {
        StoreError::NoResponse => FailureView::Timeout {
            step,
            node: asked.node,
            max_steps: asked.max_steps,
            expected: asked.tag,
        },
        StoreError::WrongType => FailureView::Format {
            step,
            node: asked.node,
            expected: asked.tag,
            actual: match actual {
                Some(tag) => tag,
                None => Seq::empty(),
            },
        },
        _ => FailureView::Store { step, node: asked.node, error },
    }
}

/// The failure that an unsettled group amounts to.
pub open spec fn group_failure(step: usize, unsettled: UnsettledView) -> FailureView {
    FailureView::Membership { step, error: unsettled.error, node: unsettled.node }
}

/// The tag of an answer of the single-value store, where there is one.
pub open spec fn value_tag(reply: Option<ValueReplyView>) -> Option<Seq<char>> {
    match reply {
        Some(r) => Some(r.tag),
        None => None,
    }
}

/// The tag of an answer of the multi-value store, where there is one.
pub open spec fn values_tag(reply: Option<ValuesReplyView>) -> Option<Seq<char>> {
    match reply {
        Some(r) => Some(r.tag),
        None => None,
    }
}

/// What the runner is told.
#[derive(Debug)]
pub enum Event {
    /// The run begins.
    Start,
    /// The action on the simulation was performed.
    Done,
    /// The membership oracle gave its verdict.
    Stabilized(Result<bool, Unsettled>),
    /// The trace of the node holds this many events.
    EventCount(usize),
    /// The node answered with a single value, or not at all.
    Value(Option<ValueReply>),
    /// The node answered with sibling values, or not at all.
    Values(Option<ValuesReply>),
}

/// What an [`Event`] holds.
pub enum EventView {
    Start,
    Done,
    Stabilized(Result<bool, UnsettledView>),
    EventCount(usize),
    Value(Option<ValueReplyView>),
    Values(Option<ValuesReplyView>),
}

impl View for Event {
    type V = EventView;

    open spec fn view(&self) -> EventView {
        match self {
            Event::Start => EventView::Start,
            Event::Done => EventView::Done,
            Event::Stabilized(r) => EventView::Stabilized(
                match r {
                    Ok(passed) => Ok(*passed),
                    Err(unsettled) => Err(unsettled@),
                },
            ),
            Event::EventCount(n) => EventView::EventCount(*n),
            Event::Value(r) => EventView::Value(optional_reply(*r)),
            Event::Values(r) => EventView::Values(optional_values_reply(*r)),
        }
    }
}

/// What the runner asks for next.
#[derive(Debug, PartialEq, Eq)]
pub enum Action {
    /// Act on the simulation, if_so report `Done`.
    Do(Control),
    /// Run the membership oracle on the group, if_so report its verdict.
    Stabilize { group: Vec<String>, steps_per_iter: u32, max_steps: u32 },
    /// Report how many events the trace of the node holds.
    CountEvents { node: String },
    /// Hand the command to the node and wait for one answer, for at most
    /// `max_steps` steps. `siblings` says whether the answer is one of the
    /// multi-value store.
    Ask { node: String, command: Command, max_steps: u32, siblings: bool },
    /// Wait for one answer of the multi-value store from the node, for at most
    /// `max_steps` steps.
    Await { node: String, max_steps: u32 },
    /// Stop: the scenario has this verdict.
    Finish(Result<bool, Failure>),
}

/// What an [`Action`] holds.
pub enum ActionView {
    Do(ControlView),
    Stabilize { group: Seq<Seq<char>>, steps_per_iter: u32, max_steps: u32 },
    CountEvents { node: Seq<char> },
    Ask { node: Seq<char>, command: CommandView, max_steps: u32, siblings: bool },
    Await { node: Seq<char>, max_steps: u32 },
    Finish(Result<bool, FailureView>),
}

impl View for Action {
    type V = ActionView;

    open spec fn view(&self) -> ActionView {
        match self {
            Action::Do(c) => ActionView::Do(c@),
            Action::Stabilize { group, steps_per_iter, max_steps } => ActionView::Stabilize {
                group: texts(group@),
                steps_per_iter: *steps_per_iter,
                max_steps: *max_steps,
            },
            Action::CountEvents { node } => ActionView::CountEvents { node: node@ },
            Action::Ask { node, command, max_steps, siblings } => ActionView::Ask {
                node: node@,
                command: command@,
                max_steps: *max_steps,
                siblings: *siblings,
            },
            Action::Await { node, max_steps } => ActionView::Await {
                node: node@,
                max_steps: *max_steps,
            },
            Action::Finish(r) => ActionView::Finish(verdict_view(*r)),
        }
    }
}

/// What the runner waits for.
#[derive(Debug)]
#[allow(inconsistent_fields)]
pub enum Pending {
    /// The start of the run.
    Fresh,
    /// That an action on the simulation was performed.
    Control,
    /// The verdict of the membership oracle.
    Stabilizing,
    /// The number of events in a trace.
    Counting { events: usize, if_so: u32, if_not: u32 },
    /// An answer of the single-value store with this tag, key and value.
    Value { tag: String, key: String, expected: Option<String> },
    /// An answer to a read of the multi-value store.
    Read { key: String, expected: Option<Vec<String>>, cart: Option<Vec<String>> },
    /// An answer to a write of the multi-value store.
    Write { key: String, value: Option<String>, after: After },
    /// Nothing: the run has ended.
    Finished,
}

/// What a [`Pending`] holds.
#[allow(inconsistent_fields)]
pub enum PendingView {
    Fresh,
    Control,
    Stabilizing,
    Counting { events: usize, if_so: u32, if_not: u32 },
    Value { tag: Seq<char>, key: Seq<char>, expected: Option<Seq<char>> },
    Read { key: Seq<char>, expected: Option<Seq<Seq<char>>>, cart: Option<Seq<Seq<char>>> },
    Write { key: Seq<char>, value: Option<Seq<char>>, after: After },
    Finished,
}

impl View for Pending {
    type V = PendingView;

    open spec fn view(&self) -> PendingView {
        match self {
            Pending::Fresh => PendingView::Fresh,
            Pending::Control => PendingView::Control,
            Pending::Stabilizing => PendingView::Stabilizing,
            Pending::Counting { events, if_so, if_not } => PendingView::Counting {
                events: *events,
                if_so: *if_so,
                if_not: *if_not,
            },
            Pending::Value { tag, key, expected } => PendingView::Value {
                tag: tag@,
                key: key@,
                expected: optional_text(*expected),
            },
            Pending::Read { key, expected, cart } => PendingView::Read {
                key: key@,
                expected: optional_texts(*expected),
                cart: optional_texts(*cart),
            },
            Pending::Write { key, value, after } => PendingView::Write {
                key: key@,
                value: optional_text(*value),
                after: *after,
            },
            Pending::Finished => PendingView::Finished,
        }
    }
}

/// The state of a run as contracts see it.
pub struct RunView {
    /// The steps still to play, the next one first.
    pub rest: Seq<StepView>,
    /// What each step played so far left behind.
    pub outcomes: Seq<OutcomeView>,
    /// What a node was asked for last.
    pub asked: AskedView,
    pub pending: PendingView,
}

/// The state of a run.
pub struct Run {
    /// The steps still to play, the next one last.
    rest: Vec<Step>,
    outcomes: Vec<Outcome>,
    asked: Asked,
    pending: Pending,
}

/// The text that a source stands for, given what the steps so far left behind.
/// There is none where the source names a step that was not played, that put
/// nothing, or whose answer carried no value.
pub open spec fn resolved(source: SourceView, outcomes: Seq<OutcomeView>) -> Option<Seq<char>> {
    match source {
        SourceView::Fixed(t) => Some(t),
        SourceView::PutAt(step) => if step < outcomes.len() {
            outcomes[step as int].put
        } else {
            None
        },
        SourceView::Appended { step, suffix } => if step < outcomes.len() && outcomes[step as int].values.len()
            > 0 {
            Some(outcomes[step as int].values[0] + suffix)
        } else {
            None
        },
        SourceView::CartOf { step, item } => if step < outcomes.len() && outcomes[step as int].values.len()
            > 0 {
            Some(cart_value(cart_of(outcomes[step as int].values[0]).push(item)))
        } else {
            None
        },
    }
}

/// The texts that a list of sources stands for; none where one of them stands
/// for none.
pub open spec fn resolved_all(sources: Seq<SourceView>, outcomes: Seq<OutcomeView>) -> Option<
    Seq<Seq<char>>,
> {
    if forall|i: int| 0 <= i < sources.len() ==> resolved(#[trigger] sources[i], outcomes) is Some {
        Some(Seq::new(sources.len(), |i: int| resolved(sources[i], outcomes)->0))
    } else {
        None
    }
}

/// The context to hand to a write: none where no step is named, that of the
/// answer at the named step where it was played.
pub open spec fn resolved_context(context: Option<usize>, outcomes: Seq<OutcomeView>) -> Option<
    Option<Seq<char>>,
> {
    match context {
        None => Some(None),
        Some(step) => if step < outcomes.len() {
            Some(outcomes[step as int].context)
        } else {
            None
        },
    }
}

/// The verdict on the values that a write returned.
pub open spec fn after_verdict(after: After, values: Seq<Seq<char>>, put: Option<Seq<char>>) -> Result<
    bool,
    StoreError,
> {
    match after {
        After::Nothing => Ok(true),
        After::Single => count_verdict(values, 1),
        After::SingleSame => match put {
            Some(value) => single_verdict(values, value),
            None => count_verdict(values, 1),
        },
        After::Count { count } => count_verdict(values, count),
    }
}

/// The run stops with a failure.
pub open spec fn fail(s: RunView, failure: FailureView) -> (RunView, ActionView) {
    (RunView { pending: PendingView::Finished, ..s }, ActionView::Finish(Err(failure)))
}

/// The state after the step in play left `outcome` behind.
pub open spec fn recorded(s: RunView, outcome: OutcomeView) -> RunView {
    RunView { outcomes: s.outcomes.push(outcome), ..s }
}

/// The runner turns to the next step: it stops with success where none is left,
/// and else hands out the action that the step calls for.
pub open spec fn issue(s: RunView) -> (RunView, ActionView) {
    if s.rest.len() == 0 {
        (RunView { pending: PendingView::Finished, ..s }, ActionView::Finish(Ok(true)))
    } else {
        let t = RunView { rest: s.rest.drop_first(), ..s };
        let at = s.outcomes.len() as usize;
        match s.rest[0] {
            StepView::Do(c) => (RunView { pending: PendingView::Control, ..t }, ActionView::Do(c)),
            StepView::Stabilize { group, steps_per_iter, max_steps } => (
                RunView { pending: PendingView::Stabilizing, ..t },
                ActionView::Stabilize { group, steps_per_iter, max_steps },
            ),
            StepView::StepsByEvents { node, events, if_so, if_not } => (
                RunView { pending: PendingView::Counting { events, if_so, if_not }, ..t },
                ActionView::CountEvents { node },
            ),
            StepView::Get { node, key, quorum, expected, max_steps } => (
                RunView {
                    pending: PendingView::Value { tag: "GET_RESP"@, key, expected },
                    asked: AskedView { node, max_steps, tag: "GET_RESP"@ },
                    ..t
                },
                ActionView::Ask {
                    node,
                    command: CommandView::Get { key, quorum },
                    max_steps,
                    siblings: false,
                },
            ),
            StepView::Put { node, key, value, quorum, max_steps } => (
                RunView {
                    pending: PendingView::Value { tag: "PUT_RESP"@, key, expected: Some(value) },
                    asked: AskedView { node, max_steps, tag: "PUT_RESP"@ },
                    ..t
                },
                ActionView::Ask {
                    node,
                    command: CommandView::Put { key, value, context: None, quorum },
                    max_steps,
                    siblings: false,
                },
            ),
            StepView::Delete { node, key, quorum, expected, max_steps } => (
                RunView {
                    pending: PendingView::Value { tag: "DELETE_RESP"@, key, expected },
                    asked: AskedView { node, max_steps, tag: "DELETE_RESP"@ },
                    ..t
                },
                ActionView::Ask {
                    node,
                    command: CommandView::Delete { key, quorum },
                    max_steps,
                    siblings: false,
                },
            ),
            StepView::Read { node, key, quorum, expected, cart, max_steps } => {
                let wanted = match expected {
                    None => Some(None),
                    Some(sources) => match resolved_all(sources, s.outcomes) {
                        Some(list) => Some(Some(list)),
                        None => None,
                    },
                };
                match wanted {
                    None => fail(t, FailureView::Unresolved { step: at }),
                    Some(list) => (
                        RunView {
                            pending: PendingView::Read { key, expected: list, cart },
                            asked: AskedView { node, max_steps, tag: "GET_RESP"@ },
                            ..t
                        },
                        ActionView::Ask {
                            node,
                            command: CommandView::Get { key, quorum },
                            max_steps,
                            siblings: true,
                        },
                    ),
                }
            },
            StepView::Write { node, key, value, context, quorum, after, max_steps } => {
                match (resolved(value, s.outcomes), resolved_context(context, s.outcomes)) {
                    (Some(text), Some(with)) => (
                        RunView {
                            pending: PendingView::Write { key, value: Some(text), after },
                            asked: AskedView { node, max_steps, tag: "PUT_RESP"@ },
                            ..t
                        },
                        ActionView::Ask {
                            node,
                            command: CommandView::Put { key, value: text, context: with, quorum },
                            max_steps,
                            siblings: true,
                        },
                    ),
                    _ => fail(t, FailureView::Unresolved { step: at }),
                }
            },
            StepView::AwaitWrite { node, key, max_steps } => (
                RunView {
                    pending: PendingView::Write { key, value: None, after: After::Nothing },
                    asked: AskedView { node, max_steps, tag: "PUT_RESP"@ },
                    ..t
                },
                ActionView::Await { node, max_steps },
            ),
        }
    }
}

/// The runner's step: from a state and what it is told, the next state and what
/// it asks for.
pub open spec fn next(s: RunView, e: EventView) -> (RunView, ActionView) {
    let at = s.outcomes.len() as usize;
    match (s.pending, e) {
        (PendingView::Fresh, EventView::Start) => issue(s),
        (PendingView::Control, EventView::Done) => issue(recorded(s, no_outcome())),
        (PendingView::Stabilizing, EventView::Stabilized(verdict)) => match verdict {
            Ok(_) => issue(recorded(s, no_outcome())),
            Err(unsettled) => fail(s, group_failure(at, unsettled)),
        },
        (PendingView::Counting { events, if_so, if_not }, EventView::EventCount(n)) => (
            RunView { pending: PendingView::Control, ..s },
            ActionView::Do(
                ControlView::Steps {
                    count: if n == events {
                        if_so
                    } else {
                        if_not
                    },
                },
            ),
        ),
        (PendingView::Value { tag, key, expected }, EventView::Value(reply)) => match value_verdict(
            reply,
            tag,
            key,
            expected,
        ) {
            Ok(_) => issue(recorded(s, no_outcome())),
            Err(error) => fail(s, answer_failure(at, s.asked, value_tag(reply), error)),
        },
        (PendingView::Read { key, expected, cart }, EventView::Values(reply)) => match get_verdict(
            reply,
            key,
            expected,
        ) {
            Err(error) => fail(s, answer_failure(at, s.asked, values_tag(reply), error)),
            Ok(body) => match (match cart {
                Some(items) => cart_verdict(body.values, items),
                None => Ok(true),
            }) {
                Err(error) => fail(s, answer_failure(at, s.asked, values_tag(reply), error)),
                Ok(_) => issue(
                    recorded(
                        s,
                        OutcomeView { put: None, values: body.values, context: body.context },
                    ),
                ),
            },
        },
        (PendingView::Write { key, value, after }, EventView::Values(reply)) => match put_verdict(
            reply,
            key,
        ) {
            Err(error) => fail(s, answer_failure(at, s.asked, values_tag(reply), error)),
            Ok(body) => match after_verdict(after, body.values, value) {
                Err(error) => fail(s, answer_failure(at, s.asked, values_tag(reply), error)),
                Ok(_) => issue(
                    recorded(
                        s,
                        OutcomeView { put: value, values: body.values, context: body.context },
                    ),
                ),
            },
        },
        _ => fail(s, FailureView::OutOfTurn { step: at }),
    }
}

/// The steps in the order in which they are played, given the list that holds
/// the next one last.
pub open spec fn forward(rest: Seq<StepView>) -> Seq<StepView> {
    Seq::new(rest.len(), |i: int| rest[rest.len() - 1 - i])
}

/// The text that a source stands for.
pub fn resolve(source: &Source, outcomes: &Vec<Outcome>) -> (r: Option<String>)
    ensures
        optional_text(r) == resolved(source@, outcome_views(outcomes@)),
{
    match source {
        Source::Fixed(t) => Some(t.clone()),
        Source::PutAt(step) => {
            if *step < outcomes.len() {
                match &outcomes[*step].put {
                    Some(t) => Some(t.clone()),
                    None => None,
                }
            } else {
                None
            }
        },
        Source::Appended { step, suffix } => {
            if *step < outcomes.len() && outcomes[*step].values.len() > 0 {
                let mut text = outcomes[*step].values[0].clone();
                text.append(suffix.as_str());
                assert(texts(outcomes[*step as int].values@)[0] == outcomes[*step as int].values[0]@);
                Some(text)
            } else {
                None
            }
        },
        Source::CartOf { step, item } => {
            if *step < outcomes.len() && outcomes[*step].values.len() > 0 {
                assert(texts(outcomes[*step as int].values@)[0] == outcomes[*step as int].values[0]@);
                Some(cart_with(outcomes[*step].values[0].as_str(), item.as_str()))
            } else {
                None
            }
        },
    }
}

/// The texts that a list of sources stands for.
pub fn resolve_all(sources: &Vec<Source>, outcomes: &Vec<Outcome>) -> (r: Option<Vec<String>>)
    ensures
        optional_texts(r) == resolved_all(source_views(sources@), outcome_views(outcomes@)),
{
    let ghost all = source_views(sources@);
    let ghost left = outcome_views(outcomes@);
    let mut out: Vec<String> = Vec::new();
    let mut i: usize = 0;
    while i < sources.len()
        invariant
            i <= sources.len(),
            all == source_views(sources@),
            left == outcome_views(outcomes@),
            out.len() == i,
            forall|k: int| 0 <= k < i ==> resolved(#[trigger] all[k], left) == Some(texts(out@)[k]),
        decreases sources.len() - i,
    {
        match resolve(&sources[i], outcomes) {
            None => {
                assert(resolved(all[i as int], left) is None);
                return None;
            },
            Some(text) => {
                let ghost before = texts(out@);
                out.push(text);
                assert forall|k: int| 0 <= k < i + 1 implies resolved(#[trigger] all[k], left) == Some(
                    texts(out@)[k],
                ) by {
                    if k < i {
                        assert(texts(out@)[k] == before[k]);
                    }
                }
            },
        }
        i += 1;
    }
    assert(texts(out@) == Seq::new(all.len(), |k: int| resolved(all[k], left)->0));
    Some(out)
}

impl Run {
    /// The state as contracts see it.
    pub closed spec fn view(&self) -> RunView {
        RunView {
            rest: forward(step_views(self.rest@)),
            outcomes: outcome_views(self.outcomes@),
            asked: self.asked@,
            pending: self.pending@,
        }
    }

    /// A run that has yet to start on the steps.
    pub fn new(steps: Vec<Step>) -> (run: Run)
        ensures
            run@.rest == step_views(steps@),
            run@.outcomes.len() == 0,
            run@.asked == no_ask(),
            run@.pending == PendingView::Fresh,
    {
        let ghost all = step_views(steps@);
        let mut steps = steps;
        let mut rest: Vec<Step> = Vec::new();
        while steps.len() > 0
            invariant
                steps.len() + rest.len() == all.len(),
                step_views(steps@) == all.take(steps.len() as int),
                forall|k: int|
                    0 <= k < rest.len() ==> #[trigger] step_views(rest@)[k] == all[all.len() - 1 - k],
            decreases steps.len(),
        {
            let ghost before = step_views(rest@);
            let ghost left = step_views(steps@);
            let s = steps.pop().unwrap();
            assert(s@ == left[left.len() - 1]);
            assert(step_views(steps@) == left.drop_last());
            rest.push(s);
            assert forall|k: int| 0 <= k < rest.len() implies #[trigger] step_views(rest@)[k]
                == all[all.len() - 1 - k] by {
                if k < rest.len() - 1 {
                    assert(step_views(rest@)[k] == before[k]);
                }
            }
        }
        assert(forward(step_views(rest@)) == all);
        assert(outcome_views(Seq::<Outcome>::empty()).len() == 0);
        Run {
            rest,
            outcomes: Vec::new(),
            asked: Asked { node: String::new(), max_steps: 0, tag: String::new() },
            pending: Pending::Fresh,
        }
    }

    /// How many steps have been played to their end.
    pub fn played(&self) -> (n: usize)
        ensures
            n == self@.outcomes.len(),
    {
        self.outcomes.len()
    }

    /// How many steps are still to play.
    pub fn remaining(&self) -> (n: usize)
        ensures
            n == self@.rest.len(),
    {
        self.rest.len()
    }

    /// Whether the run has ended.
    pub fn finished(&self) -> (r: bool)
        ensures
            r == (self@.pending is Finished),
    {
        match self.pending {
            Pending::Finished => true,
            _ => false,
        }
    }

    fn stop(&mut self, failure: Failure) -> (a: Action)
        ensures
            (final(self)@, a@) == fail(old(self)@, failure@),
    {
        self.pending = Pending::Finished;
        Action::Finish(Err(failure))
    }

    fn record(&mut self, outcome: Outcome)
        ensures
            final(self)@ == recorded(old(self)@, outcome@),
    {
        let ghost before = outcome_views(self.outcomes@);
        self.outcomes.push(outcome);
        assert(outcome_views(self.outcomes@) == before.push(outcome@));
    }

    fn record_nothing(&mut self)
        ensures
            final(self)@ == recorded(old(self)@, no_outcome()),
    {
        let outcome = Outcome { put: None, values: Vec::new(), context: None };
        assert(outcome@.values == Seq::<Seq<char>>::empty());
        self.record(outcome);
    }

    fn turn(&mut self) -> (a: Action)
        ensures
            (final(self)@, a@) == issue(old(self)@),
    {
        let ghost before = self@;
        let ghost held = step_views(self.rest@);
        let at = self.outcomes.len();
        match self.rest.pop() {
            None => {
                assert(before.rest.len() == 0);
                self.pending = Pending::Finished;
                Action::Finish(Ok(true))
            },
            Some(step) => {
                proof {
                    assert(step@ == held[held.len() - 1]);
                    assert(step_views(self.rest@) == held.drop_last());
                    assert(before.rest[0] == step@);
                    assert(forward(held.drop_last()) == forward(held).drop_first());
                }
                match step {
                    Step::Do(control) => {
                        self.pending = Pending::Control;
                        Action::Do(control)
                    },
                    Step::Stabilize { group, steps_per_iter, max_steps } => {
                        self.pending = Pending::Stabilizing;
                        Action::Stabilize { group, steps_per_iter, max_steps }
                    },
                    Step::StepsByEvents { node, events, if_so, if_not } => {
                        self.pending = Pending::Counting { events, if_so, if_not };
                        Action::CountEvents { node }
                    },
                    Step::Get { node, key, quorum, expected, max_steps } => {
                        self.asked = Asked {
                            node: node.clone(),
                            max_steps,
                            tag: text_of("GET_RESP"),
                        };
                        self.pending = Pending::Value {
                            tag: text_of("GET_RESP"),
                            key: key.clone(),
                            expected,
                        };
                        Action::Ask {
                            node,
                            command: Command::Get { key, quorum },
                            max_steps,
                            siblings: false,
                        }
                    },
                    Step::Put { node, key, value, quorum, max_steps } => {
                        self.asked = Asked {
                            node: node.clone(),
                            max_steps,
                            tag: text_of("PUT_RESP"),
                        };
                        self.pending = Pending::Value {
                            tag: text_of("PUT_RESP"),
                            key: key.clone(),
                            expected: Some(value.clone()),
                        };
                        Action::Ask {
                            node,
                            command: Command::Put { key, value, context: None, quorum },
                            max_steps,
                            siblings: false,
                        }
                    },
                    Step::Delete { node, key, quorum, expected, max_steps } => {
                        self.asked = Asked {
                            node: node.clone(),
                            max_steps,
                            tag: text_of("DELETE_RESP"),
                        };
                        self.pending = Pending::Value {
                            tag: text_of("DELETE_RESP"),
                            key: key.clone(),
                            expected,
                        };
                        Action::Ask {
                            node,
                            command: Command::Delete { key, quorum },
                            max_steps,
                            siblings: false,
                        }
                    },
                    Step::Read { node, key, quorum, expected, cart, max_steps } => {
                        let wanted = match expected {
                            None => None,
                            Some(sources) => match resolve_all(&sources, &self.outcomes) {
                                Some(list) => Some(list),
                                None => {
                                    return self.stop(Failure::Unresolved { step: at });
                                },
                            },
                        };
                        self.asked = Asked {
                            node: node.clone(),
                            max_steps,
                            tag: text_of("GET_RESP"),
                        };
                        self.pending = Pending::Read { key: key.clone(), expected: wanted, cart };
                        Action::Ask {
                            node,
                            command: Command::Get { key, quorum },
                            max_steps,
                            siblings: true,
                        }
                    },
                    Step::Write { node, key, value, context, quorum, after, max_steps } => {
                        let text = match resolve(&value, &self.outcomes) {
                            Some(text) => text,
                            None => {
                                return self.stop(Failure::Unresolved { step: at });
                            },
                        };
                        let with = match context {
                            None => None,
                            Some(step) => {
                                if step < self.outcomes.len() {
                                    match &self.outcomes[step].context {
                                        Some(c) => Some(c.clone()),
                                        None => None,
                                    }
                                } else {
                                    return self.stop(Failure::Unresolved { step: at });
                                }
                            },
                        };
                        self.asked = Asked {
                            node: node.clone(),
                            max_steps,
                            tag: text_of("PUT_RESP"),
                        };
                        self.pending = Pending::Write {
                            key: key.clone(),
                            value: Some(text.clone()),
                            after,
                        };
                        Action::Ask {
                            node,
                            command: Command::Put { key, value: text, context: with, quorum },
                            max_steps,
                            siblings: true,
                        }
                    },
                    Step::AwaitWrite { node, key, max_steps } => {
                        self.asked = Asked {
                            node: node.clone(),
                            max_steps,
                            tag: text_of("PUT_RESP"),
                        };
                        self.pending = Pending::Write { key, value: None, after: After::Nothing };
                        Action::Await { node, max_steps }
                    },
                }
            },
        }
    }

    fn reject(&mut self, at: usize, actual: Option<String>, error: StoreError) -> (a: Action)
        ensures
            (final(self)@, a@) == fail(
                old(self)@,
                answer_failure(at, old(self)@.asked, optional_text(actual), error),
            ),
    {
        let failure = match error {
            StoreError::NoResponse => Failure::Timeout {
                step: at,
                node: self.asked.node.clone(),
                max_steps: self.asked.max_steps,
                expected: self.asked.tag.clone(),
            },
            StoreError::WrongType => Failure::Format {
                step: at,
                node: self.asked.node.clone(),
                expected: self.asked.tag.clone(),
                actual: match actual {
                    Some(tag) => tag,
                    None => String::new(),
                },
            },
            _ => Failure::Store { step: at, node: self.asked.node.clone(), error },
        };
        self.stop(failure)
    }

    /// The runner's step: takes what happened and says what to do next.
    pub fn step(&mut self, event: Event) -> (a: Action)
        ensures
            (final(self)@, a@) == next(old(self)@, event@),
    {
        let at = self.outcomes.len();
        let mut pending = Pending::Finished;
        core::mem::swap(&mut pending, &mut self.pending);
        match (pending, event) {
            (Pending::Fresh, Event::Start) => {
                self.pending = Pending::Fresh;
                self.turn()
            },
            (Pending::Control, Event::Done) => {
                self.record_nothing();
                self.turn()
            },
            (Pending::Stabilizing, Event::Stabilized(verdict)) => match verdict {
                Ok(_) => {
                    self.record_nothing();
                    self.turn()
                },
                Err(unsettled) => self.stop(
                    Failure::Membership { step: at, error: unsettled.error, node: unsettled.node },
                ),
            },
            (Pending::Counting { events, if_so, if_not }, Event::EventCount(n)) => {
                self.pending = Pending::Control;
                Action::Do(
                    Control::Steps {
                        count: if n == events {
                            if_so
                        } else {
                            if_not
                        },
                    },
                )
            },
            (Pending::Value { tag, key, expected }, Event::Value(reply)) => {
                match check_reply(&reply, tag.as_str(), key.as_str(), &expected) {
                    Ok(_) => {
                        self.record_nothing();
                        self.turn()
                    },
                    Err(error) => {
                        let actual = match reply {
                            Some(r) => Some(r.tag),
                            None => None,
                        };
                        self.reject(at, actual, error)
                    },
                }
            },
            (Pending::Read { key, expected, cart }, Event::Values(reply)) => {
                let actual = match &reply {
                    Some(r) => Some(r.tag.clone()),
                    None => None,
                };
                match crate::causal::check_get(reply, key.as_str(), &expected) {
                    Err(error) => self.reject(at, actual, error),
                    Ok((values, context)) => {
                        let judged = match &cart {
                            Some(items) => check_cart(&values, items),
                            None => Ok(true),
                        };
                        match judged {
                            Err(error) => self.reject(at, actual, error),
                            Ok(_) => {
                                self.record(Outcome { put: None, values, context });
                                self.turn()
                            },
                        }
                    },
                }
            },
            (Pending::Write { key, value, after }, Event::Values(reply)) => {
                let actual = match &reply {
                    Some(r) => Some(r.tag.clone()),
                    None => None,
                };
                match crate::causal::check_put(reply, key.as_str()) {
                    Err(error) => self.reject(at, actual, error),
                    Ok((values, context)) => {
                        let judged = match after {
                            After::Nothing => Ok(true),
                            After::Single => check_count(&values, 1),
                            After::SingleSame => match &value {
                                Some(put) => check_single(&values, put.as_str()),
                                None => check_count(&values, 1),
                            },
                            After::Count { count } => check_count(&values, count),
                        };
                        match judged {
                            Err(error) => self.reject(at, actual, error),
                            Ok(_) => {
                                self.record(Outcome { put: value, values, context: Some(context) });
                                self.turn()
                            },
                        }
                    },
                }
            },
            (other, _) => {
                self.pending = other;
                self.stop(Failure::OutOfTurn { step: at })
            },
        }
    }
}

/// The step that a failure names.
pub open spec fn failed_step(failure: FailureView) -> usize {
    match failure {
        FailureView::Timeout { step, .. } => step,
        FailureView::Format { step, .. } => step,
        FailureView::Store { step, .. } => step,
        FailureView::Membership { step, .. } => step,
        FailureView::Unresolved { step } => step,
        FailureView::OutOfTurn { step } => step,
    }
}

/// A step is played to its end before the next begins, and every step played
/// leaves exactly one outcome: the run needs at most one event per action and
/// ends once the steps are used up.
pub proof fn lemma_progress(s: RunView, e: EventView)
    ensures
        next(s, e).0.rest.len() <= s.rest.len(),
        next(s, e).0.outcomes.len() <= s.outcomes.len() + 1,
        next(s, e).0.rest.len() + next(s, e).0.outcomes.len() <= s.rest.len() + s.outcomes.len() + 1,
        forall|k: int| 0 <= k < s.outcomes.len() ==> next(s, e).0.outcomes[k] == s.outcomes[k],
        next(s, e).1 is Finish ==> next(s, e).0.pending is Finished,
{
}

/// The run is only accepted once every step was played, and each failure names
/// the step in play: the one that the event belongs to, or the one that the
/// runner turned to next and could not begin.
pub proof fn lemma_verdicts(s: RunView, e: EventView)
    ensures
        next(s, e).1 == ActionView::Finish(Ok::<bool, FailureView>(true)) ==> next(s, e).0.rest.len()
            == 0,
        next(s, e).1 matches ActionView::Finish(Err(failure)) ==> {
            ||| failed_step(failure) == s.outcomes.len() as usize
            ||| failure is Unresolved && failed_step(failure) == (s.outcomes.len() + 1) as usize
        },
{
}

/// A failed answer names the node that was asked: a timeout with the budget of
/// steps and the tag that was waited for, a wrong format with the tag that was
/// called for and the one that came.
pub proof fn lemma_failures_name_the_node(
    step: usize,
    asked: AskedView,
    actual: Option<Seq<char>>,
    error: StoreError,
)
    ensures
        match answer_failure(step, asked, actual, error) {
            FailureView::Timeout { node, max_steps, expected, .. } => error is NoResponse && node
                == asked.node && max_steps == asked.max_steps && expected == asked.tag,
            FailureView::Format { node, expected, actual: came, .. } => error is WrongType && node
                == asked.node && expected == asked.tag && (actual matches Some(tag) ==> came == tag),
            FailureView::Store { node, error: kept, .. } => node == asked.node && kept == error,
            _ => false,
        },
{
}

/// The text that describes a rejection of what an answer holds.
pub open spec fn rejection_text(error: StoreError) -> Seq<char> {
    match error {
        StoreError::NoResponse => "No response"@,
        StoreError::WrongType => "Wrong message type"@,
        StoreError::Malformed => "Unreadable response"@,
        StoreError::WrongKey => "Wrong key in response"@,
        StoreError::WrongValue => "Wrong value in response"@,
        StoreError::NotSingle => "Wrong number of values in response"@,
    }
}

/// The text that describes why a group did not converge.
pub open spec fn unsettled_text(error: MembershipError, node: Option<Seq<char>>) -> Seq<char> {
    let name = match node {
        Some(n) => n,
        None => Seq::empty(),
    };
    match error {
        MembershipError::NoResponse { .. } => "Members list is not returned by "@ + name,
        MembershipError::WrongType { .. } => "Wrong message type"@,
        MembershipError::Malformed { .. } => "Unreadable members list from "@ + name,
        MembershipError::NotStabilized => "Group members lists are not stabilized"@,
        MembershipError::OutOfTurn => "Membership oracle was told what it had not asked for"@,
    }
}

/// The text that describes a failure: what was expected of which node, and what
/// came of it.
pub open spec fn failure_text(failure: FailureView) -> Seq<char> {
    match failure {
        FailureView::Timeout { node, expected, .. } => expected + " is not returned by "@ + node,
        FailureView::Format { node, expected, actual, .. } => "Wrong message type "@ + actual
            + " from "@ + node + ", expected "@ + expected,
        FailureView::Store { node, error, .. } => rejection_text(error) + " of "@ + node,
        FailureView::Membership { error, node, .. } => unsettled_text(error, node),
        FailureView::Unresolved { .. } => "Step builds on a response that was not given"@,
        FailureView::OutOfTurn { .. } => "Runner was told what it had not asked for"@,
    }
}

/// The text that describes a failure.
pub fn describe_failure(failure: &Failure) -> (r: String)
    ensures
        r@ == failure_text(failure@),
{
    match failure {
        Failure::Timeout { node, expected, .. } => {
            let mut out = expected.clone();
            out.append(" is not returned by ");
            out.append(node.as_str());
            out
        },
        Failure::Format { node, expected, actual, .. } => {
            let mut out = text_of("Wrong message type ");
            out.append(actual.as_str());
            out.append(" from ");
            out.append(node.as_str());
            out.append(", expected ");
            out.append(expected.as_str());
            out
        },
        Failure::Store { node, error, .. } => {
            let mut out = match error {
                StoreError::NoResponse => text_of("No response"),
                StoreError::WrongType => text_of("Wrong message type"),
                StoreError::Malformed => text_of("Unreadable response"),
                StoreError::WrongKey => text_of("Wrong key in response"),
                StoreError::WrongValue => text_of("Wrong value in response"),
                StoreError::NotSingle => text_of("Wrong number of values in response"),
            };
            out.append(" of ");
            out.append(node.as_str());
            out
        },
        Failure::Membership { error, node, .. } => {
            let name = match node {
                Some(n) => n.clone(),
                None => String::new(),
            };
            match error {
                MembershipError::NoResponse { .. } => {
                    let mut out = text_of("Members list is not returned by ");
                    out.append(name.as_str());
                    out
                },
                MembershipError::WrongType { .. } => text_of("Wrong message type"),
                MembershipError::Malformed { .. } => {
                    let mut out = text_of("Unreadable members list from ");
                    out.append(name.as_str());
                    out
                },
                MembershipError::NotStabilized => text_of("Group members lists are not stabilized"),
                MembershipError::OutOfTurn => text_of(
                    "Membership oracle was told what it had not asked for",
                ),
            }
        },
        Failure::Unresolved { .. } => text_of("Step builds on a response that was not given"),
        Failure::OutOfTurn { .. } => text_of("Runner was told what it had not asked for"),
    }
}

} // verus!
