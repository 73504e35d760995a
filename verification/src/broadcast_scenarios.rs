//! The scenarios of broadcast and of point-to-point delivery, as scripts.
//!
//! Nodes are named by the decimal numerals of their positions. A script only
//! drives the run; what the nodes delivered is judged afterwards, by the
//! broadcast oracle or the delivery oracle, on the traces of the run.

use crate::delivery::Guarantees;
use crate::plan::{Command, CommandView, Control, ControlView};
use crate::scenario::{append_step, doing};
use crate::script::{step_views, Step, StepView};
use crate::text::{decimal, decimal_text, text_of, texts};
use vstd::prelude::*;

verus! {

/// The names of the nodes of a cluster: the numerals from zero.
pub open spec fn node_names(node_count: nat) -> Seq<Seq<char>> {
    Seq::new(node_count, |i: int| decimal(i as nat))
}

/// The names of the nodes of a cluster of `node_count` nodes.
pub fn node_ids(node_count: u32) -> (ids: Vec<String>)
    ensures
        texts(ids@) == node_names(node_count as nat),
{
    let mut ids: Vec<String> = Vec::new();
    let mut n: u32 = 0;
    while n < node_count
        invariant
            n <= node_count,
            ids.len() == n,
            forall|i: int| 0 <= i < n ==> #[trigger] texts(ids@)[i] == decimal(i as nat),
        decreases node_count - n,
    {
        let ghost before = texts(ids@);
        ids.push(decimal_text(n));
        assert forall|i: int| 0 <= i < n + 1 implies #[trigger] texts(ids@)[i] == decimal(i as nat) by {
            if i < n {
                assert(texts(ids@)[i] == before[i]);
            }
        }
        n += 1;
    }
    ids
}

/// No two nodes of a cluster have the same name.
pub proof fn lemma_node_names_distinct(node_count: nat)
    ensures
        node_names(node_count).no_duplicates(),
{
    assert forall|i: int, j: int|
        0 <= i < node_count && 0 <= j < node_count && i != j implies node_names(node_count)[i]
        != node_names(node_count)[j] by {
        if decimal(i as nat) == decimal(j as nat) {
            crate::text::lemma_decimal_injective(i as nat, j as nat);
        }
    }
}

/// The step in which node `node` is asked to broadcast `text`.
pub open spec fn broadcasting(node: nat, text: Seq<char>) -> StepView {
    doing(ControlView::Send { node: decimal(node), command: CommandView::Broadcast { text } })
}

/// The step in which node `node` is asked to broadcast `text`.
pub fn broadcast_step(node: u32, text: &str) -> (s: Step)
    ensures
        s@ == broadcasting(node as nat, text@),
{
    Step::Do(
        Control::Send { node: decimal_text(node), command: Command::Broadcast { text: text_of(text) } },
    )
}

fn run_out() -> (s: Step)
    ensures
        s@ == doing(ControlView::StepUntilNoEvents),
{
    Step::Do(Control::StepUntilNoEvents)
}

fn advance(count: u32) -> (s: Step)
    ensures
        s@ == doing(ControlView::Steps { count }),
{
    Step::Do(Control::Steps { count })
}

fn crash(node: u32) -> (s: Step)
    ensures
        s@ == doing(ControlView::Crash { node: decimal(node as nat) }),
{
    Step::Do(Control::Crash { node: decimal_text(node) })
}

/// The normal scenario: node 0 broadcasts one message and the run goes on until
/// nothing is left to happen.
pub open spec fn normal_script() -> Seq<StepView> {
    seq![broadcasting(0, "0:Hello"@), doing(ControlView::StepUntilNoEvents)]
}

/// The script of the normal scenario.
pub fn normal() -> (script: Vec<Step>)
    ensures
        step_views(script@) == normal_script(),
{
    let mut script: Vec<Step> = Vec::new();
    append_step(&mut script, broadcast_step(0, "0:Hello"));
    append_step(&mut script, run_out());
    script
}

/// The scenario of a sender that crashes: node 0 broadcasts one message and
/// crashes once `reached` nodes besides itself may have the message. After the
/// first event, the run advances as far as it takes for the sender and that many
/// other nodes to have delivered, going by whether the sender has already
/// delivered itself.
pub open spec fn sender_crash_script(reached: u32) -> Seq<StepView> {
    seq![
        broadcasting(0, "0:Hello"@),
        doing(ControlView::Steps { count: 1 }),
        StepView::StepsByEvents {
            node: decimal(0),
            events: 1,
            if_so: (reached + 1) as u32,
            if_not: reached,
        },
        doing(ControlView::Crash { node: decimal(0) }),
        doing(ControlView::StepUntilNoEvents),
    ]
}

/// The script of the scenario of a sender that crashes.
pub fn sender_crash(reached: u32) -> (script: Vec<Step>)
    requires
        reached < u32::MAX,
    ensures
        step_views(script@) == sender_crash_script(reached),
{
    let mut script: Vec<Step> = Vec::new();
    append_step(&mut script, broadcast_step(0, "0:Hello"));
    append_step(&mut script, advance(1));
    append_step(
        &mut script,
        Step::StepsByEvents {
            node: decimal_text(0),
            events: 1,
            if_so: reached + 1,
            if_not: reached,
        },
    );
    append_step(&mut script, crash(0));
    append_step(&mut script, run_out());
    script
}

/// The script followed by the steps that cut each of the nodes from `from` up to
/// `node_count` off the network.
pub open spec fn with_disconnects(script: Seq<StepView>, from: nat, node_count: nat) -> Seq<StepView>
    decreases node_count,
{
    if node_count <= from {
        script
    } else {
        with_disconnects(script, from, (node_count - 1) as nat).push(
            doing(ControlView::Disconnect { node: decimal((node_count - 1) as nat) }),
        )
    }
}

/// The scenario of two nodes that crash after talking to each other alone: node
/// 0 broadcasts while all nodes but 0 and 1 are cut off; after as many steps as
/// the square of the node count, 0 and 1 crash and the run goes on until nothing
/// is left to happen.
pub open spec fn two_crashes_script(node_count: u32) -> Seq<StepView> {
    with_disconnects(seq![broadcasting(0, "0:Hello"@)], 2, node_count as nat) + seq![
        doing(ControlView::Steps { count: (node_count * node_count) as u32 }),
        doing(ControlView::Crash { node: decimal(0) }),
        doing(ControlView::Crash { node: decimal(1) }),
        doing(ControlView::StepUntilNoEvents),
    ]
}

/// The script of the scenario of two nodes that crash after talking to each
/// other alone. There is none where the square of the node count does not fit
/// the count of steps.
pub fn two_crashes(node_count: u32) -> (r: Option<Vec<Step>>)
    ensures
        r is Some <==> node_count * node_count <= u32::MAX,
        r matches Some(script) ==> step_views(script@) == two_crashes_script(node_count),
{
    let square = match node_count.checked_mul(node_count) {
        Some(square) => square,
        None => {
            return None;
        },
    };
    let mut script: Vec<Step> = Vec::new();
    append_step(&mut script, broadcast_step(0, "0:Hello"));
    let ghost start = step_views(script@);
    assert(start == seq![broadcasting(0, "0:Hello"@)]);
    let mut n: u32 = 2;
    while n < node_count
        invariant
            2 <= n,
            n <= node_count || node_count < 2,
            step_views(script@) == with_disconnects(
                start,
                2,
                if n <= node_count {
                    n as nat
                } else {
                    2
                },
            ),
        decreases node_count - n,
    {
        append_step(&mut script, Step::Do(Control::Disconnect { node: decimal_text(n) }));
        n += 1;
    }
    assert(step_views(script@) == with_disconnects(start, 2, node_count as nat));
    let mut tail: Vec<Step> = Vec::new();
    append_step(&mut tail, advance(square));
    append_step(&mut tail, crash(0));
    append_step(&mut tail, crash(1));
    append_step(&mut tail, run_out());
    crate::scenario::extend(&mut script, tail);
    Some(script)
}

/// The scenario of two nodes that crash after hearing from the sender alone:
/// node 0 broadcasts while nothing that nodes 1 and 2 send gets out; after as
/// many steps as the square of the node count, 1 and 2 crash and the run goes on
/// until nothing is left to happen.
pub open spec fn two_crashes_2_script(node_count: u32) -> Seq<StepView> {
    seq![
        broadcasting(0, "0:Hello"@),
        doing(ControlView::DropOutgoing { node: decimal(1) }),
        doing(ControlView::DropOutgoing { node: decimal(2) }),
        doing(ControlView::Steps { count: (node_count * node_count) as u32 }),
        doing(ControlView::Crash { node: decimal(1) }),
        doing(ControlView::Crash { node: decimal(2) }),
        doing(ControlView::StepUntilNoEvents),
    ]
}

/// The script of the scenario of two nodes that crash after hearing from the
/// sender alone. There is none where the square of the node count does not fit
/// the count of steps.
pub fn two_crashes_2(node_count: u32) -> (r: Option<Vec<Step>>)
    ensures
        r is Some <==> node_count * node_count <= u32::MAX,
        r matches Some(script) ==> step_views(script@) == two_crashes_2_script(node_count),
{
    let square = match node_count.checked_mul(node_count) {
        Some(square) => square,
        None => {
            return None;
        },
    };
    let mut script: Vec<Step> = Vec::new();
    append_step(&mut script, broadcast_step(0, "0:Hello"));
    append_step(&mut script, Step::Do(Control::DropOutgoing { node: decimal_text(1) }));
    append_step(&mut script, Step::Do(Control::DropOutgoing { node: decimal_text(2) }));
    append_step(&mut script, advance(square));
    append_step(&mut script, crash(1));
    append_step(&mut script, crash(2));
    append_step(&mut script, run_out());
    Some(script)
}

/// The scenario of causal order: a slow first message, a quick answer to it from
/// the first node that got it, and a quicker answer to that from the first
/// sender, once it has the answer. A node that gets the answers first must hold
/// them back.
pub open spec fn causal_order_script() -> Seq<StepView> {
    seq![
        doing(ControlView::SetDelays { min: 100_000, max: 200_000 }),
        broadcasting(0, "0:Hello!"@),
        doing(ControlView::StepUntilEvents { node: decimal(1), count: 1 }),
        doing(ControlView::SetDelays { min: 10_000, max: 20_000 }),
        broadcasting(1, "1:How?"@),
        doing(ControlView::StepUntilEvents { node: decimal(0), count: 3 }),
        doing(ControlView::SetDelay { millis: 1000 }),
        broadcasting(0, "0:Fine!"@),
        doing(ControlView::StepUntilNoEvents),
    ]
}

/// The script of the scenario of causal order.
#[verifier::rlimit(40)]
pub fn causal_order() -> (script: Vec<Step>)
    ensures
        step_views(script@) == causal_order_script(),
{
    let mut script: Vec<Step> = Vec::new();
    append_step(&mut script, Step::Do(Control::SetDelays { min: 100_000, max: 200_000 }));
    append_step(&mut script, broadcast_step(0, "0:Hello!"));
    append_step(
        &mut script,
        Step::Do(Control::StepUntilEvents { node: decimal_text(1), count: 1 }),
    );
    append_step(&mut script, Step::Do(Control::SetDelays { min: 10_000, max: 20_000 }));
    append_step(&mut script, broadcast_step(1, "1:How?"));
    append_step(
        &mut script,
        Step::Do(Control::StepUntilEvents { node: decimal_text(0), count: 3 }),
    );
    append_step(&mut script, Step::Do(Control::SetDelay { millis: 1000 }));
    append_step(&mut script, broadcast_step(0, "0:Fine!"));
    append_step(&mut script, run_out());
    script
}

/// How many rounds the chaos monkey plays in one run.
pub const MONKEY_ROUNDS: u32 = 10;

/// How many turns each round of the chaos monkey has.
pub const MONKEY_TURNS: u32 = 9;

/// One turn of the chaos monkey within a round: whether what each of the two
/// victims sends is dropped during the turn, and how many events the turn lasts.
#[derive(Clone, Copy, Debug, PartialEq, Eq, Structural)]
pub struct Turn {
    pub drop_first: bool,
    pub drop_second: bool,
    pub steps: u32,
}

/// The step that lets what `node` sends be dropped, or pass.
pub open spec fn muting(node: nat, dropped: bool) -> StepView {
    if dropped {
        doing(ControlView::DropOutgoing { node: decimal(node) })
    } else {
        doing(ControlView::PassOutgoing { node: decimal(node) })
    }
}

/// The script followed by the steps of the turns.
pub open spec fn with_turns(script: Seq<StepView>, first: nat, second: nat, turns: Seq<Turn>) -> Seq<
    StepView,
>
    decreases turns.len(),
{
    if turns.len() == 0 {
        script
    } else {
        with_turns(script, first, second, turns.drop_last()).push(
            muting(first, turns.last().drop_first),
        ).push(muting(second, turns.last().drop_second)).push(
            doing(ControlView::Steps { count: turns.last().steps }),
        )
    }
}

/// The delays of a round of the chaos monkey: ten to twenty seconds in even
/// rounds, one to two in odd ones.
pub open spec fn round_delays(round: u32) -> StepView {
    if round % 2 == 0 {
        doing(ControlView::SetDelays { min: 10_000, max: 20_000 })
    } else {
        doing(ControlView::SetDelays { min: 1000, max: 2000 })
    }
}

/// One round of the chaos monkey: a user broadcasts a message that names it and
/// the round, the delays are set, and in each turn the two victims are muted or
/// not while the run advances.
pub open spec fn monkey_round_script(
    first: u32,
    second: u32,
    user: u32,
    round: u32,
    turns: Seq<Turn>,
) -> Seq<StepView> {
    with_turns(
        seq![
            broadcasting(user as nat, decimal(user as nat).push(':') + decimal(round as nat)),
            round_delays(round),
        ],
        first as nat,
        second as nat,
        turns,
    )
}

fn mute_step(node: u32, dropped: bool) -> (s: Step)
    ensures
        s@ == muting(node as nat, dropped),
{
    if dropped {
        Step::Do(Control::DropOutgoing { node: decimal_text(node) })
    } else {
        Step::Do(Control::PassOutgoing { node: decimal_text(node) })
    }
}

/// The script of one round of the chaos monkey.
pub fn monkey_round(first: u32, second: u32, user: u32, round: u32, turns: &Vec<Turn>) -> (script:
    Vec<Step>)
    ensures
        step_views(script@) == monkey_round_script(first, second, user, round, turns@),
{
    let mut script: Vec<Step> = Vec::new();
    let text = crate::chaos::chat_message(user, round);
    append_step(&mut script, broadcast_step(user, text.as_str()));
    if round % 2 == 0 {
        append_step(&mut script, Step::Do(Control::SetDelays { min: 10_000, max: 20_000 }));
    } else {
        append_step(&mut script, Step::Do(Control::SetDelays { min: 1000, max: 2000 }));
    }
    let ghost start = step_views(script@);
    assert(start == seq![
        broadcasting(user as nat, decimal(user as nat).push(':') + decimal(round as nat)),
        round_delays(round),
    ]);
    let mut i: usize = 0;
    assert(turns@.take(0) == Seq::<Turn>::empty());
    while i < turns.len()
        invariant
            i <= turns.len(),
            step_views(script@) == with_turns(start, first as nat, second as nat, turns@.take(i as int)),
        decreases turns.len() - i,
    {
        proof {
            assert(turns@.take(i + 1).drop_last() == turns@.take(i as int));
            assert(turns@.take(i + 1).last() == turns[i as int]);
        }
        append_step(&mut script, mute_step(first, turns[i].drop_first));
        append_step(&mut script, mute_step(second, turns[i].drop_second));
        append_step(&mut script, advance(turns[i].steps));
        i += 1;
    }
    assert(turns@.take(turns.len() as int) == turns@);
    script
}

/// How the chaos monkey ends: both victims crash and the run goes on until
/// nothing is left to happen.
pub open spec fn monkey_end_script(first: u32, second: u32) -> Seq<StepView> {
    seq![
        doing(ControlView::Crash { node: decimal(first as nat) }),
        doing(ControlView::Crash { node: decimal(second as nat) }),
        doing(ControlView::StepUntilNoEvents),
    ]
}

/// The script with which the chaos monkey ends.
pub fn monkey_end(first: u32, second: u32) -> (script: Vec<Step>)
    ensures
        step_views(script@) == monkey_end_script(first, second),
{
    let mut script: Vec<Step> = Vec::new();
    append_step(&mut script, crash(first));
    append_step(&mut script, crash(second));
    append_step(&mut script, run_out());
    script
}

/// The messages that a broadcast among `node_count` nodes takes where every node
/// sends it to every other: the yardstick for message counts.
pub fn all_to_all(node_count: u32) -> (messages: u64)
    ensures
        messages == if node_count == 0 {
            0
        } else {
            node_count * (node_count - 1)
        },
{
    if node_count == 0 {
        0
    } else {
        assert(node_count * (node_count - 1) <= 0xffff_ffff * 0xffff_ffff) by (nonlinear_arith)
            requires
                1 <= node_count <= 0xffff_ffff,
        ;
        (node_count as u64) * ((node_count - 1) as u64)
    }
}

/// How the network treats messages in a scenario of point-to-point delivery.
#[derive(Clone, Copy, Debug, PartialEq, Eq, Structural)]
pub enum Network {
    /// It delivers them.
    Normal,
    /// It delays them by one to five seconds.
    Delayed,
    /// It duplicates every message.
    Duplicated,
    /// It drops half of them.
    Dropped,
}

/// The kinds of delivery that senders and receivers implement.
#[derive(Clone, Copy, Debug, PartialEq, Eq, Structural)]
pub enum Delivery {
    AtMostOnce,
    AtLeastOnce,
    ExactlyOnce,
    ExactlyOnceOrdered,
}

/// What a kind of delivery guarantees in a network. Delivery at most once is
/// reliable unless the network drops messages; the others are reliable in every
/// network.
pub open spec fn guaranteed(delivery: Delivery, network: Network) -> Guarantees {
    match delivery {
        Delivery::AtMostOnce => Guarantees {
            reliable: !(network is Dropped),
            once: true,
            ordered: false,
        },
        Delivery::AtLeastOnce => Guarantees { reliable: true, once: false, ordered: false },
        Delivery::ExactlyOnce => Guarantees { reliable: true, once: true, ordered: false },
        Delivery::ExactlyOnceOrdered => Guarantees { reliable: true, once: true, ordered: true },
    }
}

/// What a kind of delivery guarantees in a network.
pub fn guarantees(delivery: Delivery, network: Network) -> (g: Guarantees)
    ensures
        g == guaranteed(delivery, network),
{
    match delivery {
        Delivery::AtMostOnce => Guarantees {
            reliable: match network {
                Network::Dropped => false,
                _ => true,
            },
            once: true,
            ordered: false,
        },
        Delivery::AtLeastOnce => Guarantees { reliable: true, once: false, ordered: false },
        Delivery::ExactlyOnce => Guarantees { reliable: true, once: true, ordered: false },
        Delivery::ExactlyOnceOrdered => Guarantees { reliable: true, once: true, ordered: true },
    }
}

/// The tag of the messages of a kind of delivery.
pub fn info_tag(delivery: Delivery) -> (tag: String)
    ensures
        tag@ == match delivery {
            Delivery::AtMostOnce => "INFO-1"@,
            Delivery::AtLeastOnce => "INFO-2"@,
            Delivery::ExactlyOnce => "INFO-3"@,
            Delivery::ExactlyOnceOrdered => "INFO-4"@,
        },
{
    match delivery {
        Delivery::AtMostOnce => text_of("INFO-1"),
        Delivery::AtLeastOnce => text_of("INFO-2"),
        Delivery::ExactlyOnce => text_of("INFO-3"),
        Delivery::ExactlyOnceOrdered => text_of("INFO-4"),
    }
}

/// The five texts that the sender is asked to send, in order.
pub open spec fn info_texts() -> Seq<Seq<char>> {
    seq!["distributed"@, "systems"@, "need"@, "some"@, "guarantees"@]
}

/// The step in which the sender is asked to send `text` in a message tagged
/// `tag`.
pub open spec fn informing(tag: Seq<char>, text: Seq<char>) -> StepView {
    doing(ControlView::Send { node: "sender"@, command: CommandView::Info { tag, text } })
}

/// What the network is set to before anything is sent.
pub open spec fn network_setting(network: Network) -> Seq<StepView> {
    match network {
        Network::Normal => Seq::empty(),
        Network::Delayed => seq![doing(ControlView::SetDelays { min: 1000, max: 5000 })],
        Network::Duplicated => seq![doing(ControlView::SetDuplRate { percent: 100 })],
        Network::Dropped => seq![doing(ControlView::SetDropRate { percent: 50 })],
    }
}

/// A scenario of point-to-point delivery: the network is set, the sender is
/// asked to send the five texts, and the run goes on until nothing is left to
/// happen.
pub open spec fn delivery_script(tag: Seq<char>, network: Network) -> Seq<StepView> {
    network_setting(network) + seq![
        informing(tag, info_texts()[0]),
        informing(tag, info_texts()[1]),
        informing(tag, info_texts()[2]),
        informing(tag, info_texts()[3]),
        informing(tag, info_texts()[4]),
        doing(ControlView::StepUntilNoEvents),
    ]
}

fn inform_step(tag: &str, text: &str) -> (s: Step)
    ensures
        s@ == informing(tag@, text@),
{
    Step::Do(
        Control::Send {
            node: text_of("sender"),
            command: Command::Info { tag: text_of(tag), text: text_of(text) },
        },
    )
}

/// The script of a scenario of point-to-point delivery.
pub fn delivery(tag: &str, network: Network) -> (script: Vec<Step>)
    ensures
        step_views(script@) == delivery_script(tag@, network),
{
    let mut script: Vec<Step> = Vec::new();
    assert(step_views(script@) == Seq::<StepView>::empty());
    match network {
        Network::Normal => {},
        Network::Delayed => {
            append_step(&mut script, Step::Do(Control::SetDelays { min: 1000, max: 5000 }));
        },
        Network::Duplicated => {
            append_step(&mut script, Step::Do(Control::SetDuplRate { percent: 100 }));
        },
        Network::Dropped => {
            append_step(&mut script, Step::Do(Control::SetDropRate { percent: 50 }));
        },
    }
    assert(step_views(script@) == network_setting(network));
    let mut tail: Vec<Step> = Vec::new();
    append_step(&mut tail, inform_step(tag, "distributed"));
    append_step(&mut tail, inform_step(tag, "systems"));
    append_step(&mut tail, inform_step(tag, "need"));
    append_step(&mut tail, inform_step(tag, "some"));
    append_step(&mut tail, inform_step(tag, "guarantees"));
    append_step(&mut tail, run_out());
    crate::scenario::extend(&mut script, tail);
    script
}

} // verus!
