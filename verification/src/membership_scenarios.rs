//! The scenarios of group membership, as scripts.
//!
//! Nearly every scenario starts alike: the nodes, in a random order, join the
//! group through the first of them, and the group must settle. Then something
//! happens to the group, and what is left of it must settle again. A node that
//! crashed, left or was cut off is taken out of the group that is expected to
//! settle before the membership oracle is asked.

use crate::chaos::{Fault, FaultView};
use crate::plan::{copy_texts, Command, CommandView, Control, ControlView};
use crate::random::{draw_index, pick_one, shuffle};
use crate::scenario::{append_step, doing, extend, steps};
use crate::script::{step_views, Step, StepView};
use crate::text::{text_of, texts};
use vstd::prelude::*;

verus! {

/// The step in which `node` is told to join the group through `seed`.
pub open spec fn joining(node: Seq<char>, seed: Seq<char>) -> StepView {
    doing(ControlView::Send { node, command: CommandView::Join { seed } })
}

/// The step in which the group must settle within `max_steps` steps, polled
/// every thirty steps.
pub open spec fn settled(group: Seq<Seq<char>>, max_steps: u32) -> StepView {
    StepView::Stabilize { group, steps_per_iter: 30, max_steps }
}

/// The script followed by the steps in which each of the nodes joins through
/// `seed`.
pub open spec fn with_joins(script: Seq<StepView>, nodes: Seq<Seq<char>>, seed: Seq<char>) -> Seq<
    StepView,
>
    decreases nodes.len(),
{
    if nodes.len() == 0 {
        script
    } else {
        with_joins(script, nodes.drop_last(), seed).push(joining(nodes.last(), seed))
    }
}

/// How scenarios start: every node of the group joins through the first, and the
/// group must settle within three hundred steps.
pub open spec fn start_up(group: Seq<Seq<char>>) -> Seq<StepView> {
    with_joins(Seq::empty(), group, group[0]).push(settled(group, 300))
}

/// The step in which `node` joins through `seed`.
pub fn join_step(node: &String, seed: &String) -> (s: Step)
    ensures
        s@ == joining(node@, seed@),
{
    Step::Do(Control::Send { node: node.clone(), command: Command::Join { seed: seed.clone() } })
}

/// The step in which the group must settle.
pub fn settle_step(group: &Vec<String>, max_steps: u32) -> (s: Step)
    ensures
        s@ == settled(texts(group@), max_steps),
{
    Step::Stabilize { group: copy_texts(group), steps_per_iter: 30, max_steps }
}

/// Adds the steps in which each of the nodes joins through `seed`.
pub fn add_joins(script: &mut Vec<Step>, nodes: &Vec<String>, seed: &String)
    ensures
        step_views(final(script)@) == with_joins(step_views(old(script)@), texts(nodes@), seed@),
{
    let ghost start = step_views(script@);
    let ghost all = texts(nodes@);
    let mut i: usize = 0;
    assert(all.take(0) == Seq::<Seq<char>>::empty());
    while i < nodes.len()
        invariant
            i <= nodes.len(),
            all == texts(nodes@),
            step_views(script@) == with_joins(start, all.take(i as int), seed@),
        decreases nodes.len() - i,
    {
        proof {
            assert(all.take(i + 1).drop_last() == all.take(i as int));
            assert(all.take(i + 1).last() == nodes[i as int]@);
        }
        append_step(script, join_step(&nodes[i], seed));
        i += 1;
    }
    assert(all.take(nodes.len() as int) == all);
}

/// The steps with which scenarios start.
pub fn start(group: &Vec<String>) -> (script: Vec<Step>)
    requires
        group.len() >= 1,
    ensures
        step_views(script@) == start_up(texts(group@)),
{
    let mut script: Vec<Step> = Vec::new();
    assert(step_views(script@) == Seq::<StepView>::empty());
    assert(texts(group@)[0] == group[0]@);
    add_joins(&mut script, group, &group[0]);
    append_step(&mut script, settle_step(group, 300));
    script
}

/// The simple scenario: every node joins through the node `0`, in the order of
/// the node list, and all of them must settle.
pub open spec fn simple_script(nodes: Seq<Seq<char>>) -> Seq<StepView> {
    with_joins(Seq::empty(), nodes, "0"@).push(settled(nodes, 300))
}

/// The script of the simple scenario.
pub fn simple(nodes: &Vec<String>) -> (script: Vec<Step>)
    ensures
        step_views(script@) == simple_script(texts(nodes@)),
{
    let mut script: Vec<Step> = Vec::new();
    assert(step_views(script@) == Seq::<StepView>::empty());
    let seed = text_of("0");
    add_joins(&mut script, nodes, &seed);
    append_step(&mut script, settle_step(nodes, 300));
    script
}

/// The script followed by the steps in which each node joins through the seed at
/// its position.
pub open spec fn with_seeded_joins(nodes: Seq<Seq<char>>, seeds: Seq<Seq<char>>) -> Seq<StepView>
    decreases nodes.len(),
{
    if nodes.len() == 0 {
        Seq::empty()
    } else {
        with_seeded_joins(nodes.drop_last(), seeds).push(
            joining(nodes.last(), seeds[nodes.len() - 1]),
        )
    }
}

/// The seeds are fit for the nodes when the first node is its own seed and every
/// other node has one of the nodes before it as its seed.
pub open spec fn seeds_fit(nodes: Seq<Seq<char>>, seeds: Seq<Seq<char>>) -> bool {
    &&& seeds.len() == nodes.len()
    &&& nodes.len() > 0 ==> seeds[0] == nodes[0]
    &&& forall|i: int| 0 < i < nodes.len() ==> nodes.take(i).contains(#[trigger] seeds[i])
}

/// The scenario of random seeds: each node joins through a node that joined
/// before it, the first through itself, and all of them must settle.
pub open spec fn random_seed_script(nodes: Seq<Seq<char>>, seeds: Seq<Seq<char>>) -> Seq<StepView> {
    with_seeded_joins(nodes, seeds).push(settled(nodes, 300))
}

/// A scenario of random seeds made ready to run.
#[derive(Debug)]
pub struct Seeded {
    /// The seed of each node, in the order of the node list.
    pub seeds: Vec<String>,
    pub script: Vec<Step>,
}

/// Stages the scenario of random seeds: draws the seed of every node but the
/// first among the nodes before it.
pub fn random_seed(nodes: &Vec<String>, rng: &mut rand_pcg::Pcg64) -> (r: Seeded)
    ensures
        seeds_fit(texts(nodes@), texts(r.seeds@)),
        step_views(r.script@) == random_seed_script(texts(nodes@), texts(r.seeds@)),
{
    let ghost all = texts(nodes@);
    let mut seeds: Vec<String> = Vec::new();
    let mut group: Vec<String> = Vec::new();
    let mut script: Vec<Step> = Vec::new();
    let mut i: usize = 0;
    assert(all.take(0) == Seq::<Seq<char>>::empty());
    assert(step_views(script@) == Seq::<StepView>::empty());
    while i < nodes.len()
        invariant
            i <= nodes.len(),
            all == texts(nodes@),
            seeds.len() == i,
            texts(group@) == all.take(i as int),
            i > 0 ==> texts(seeds@)[0] == all[0],
            forall|k: int| 0 < k < i ==> all.take(k).contains(#[trigger] texts(seeds@)[k]),
            forall|s: Seq<Seq<char>>|
                s.len() >= i && s.take(i as int) == texts(seeds@) ==> #[trigger] with_seeded_joins(
                    all.take(i as int),
                    s,
                ) == step_views(script@),
        decreases nodes.len() - i,
    {
        let ghost seeds_before = texts(seeds@);
        let ghost script_before = step_views(script@);
        let seed = if i == 0 {
            nodes[i].clone()
        } else {
            match pick_one(rng, &group) {
                Some(seed) => seed,
                None => nodes[i].clone(),
            }
        };
        append_step(&mut script, join_step(&nodes[i], &seed));
        let ghost group_before = texts(group@);
        group.push(nodes[i].clone());
        seeds.push(seed);
        proof {
            assert(texts(group@) == group_before.push(all[i as int]));
            assert(all.take(i + 1) == all.take(i as int).push(all[i as int]));
            assert(texts(seeds@) == seeds_before.push(seed@));
            assert forall|k: int| 0 < k < i + 1 implies all.take(k).contains(
                #[trigger] texts(seeds@)[k],
            ) by {
                if k < i {
                    assert(texts(seeds@)[k] == seeds_before[k]);
                }
            }
            assert forall|s: Seq<Seq<char>>|
                s.len() >= i + 1 && s.take(i + 1) == texts(seeds@) implies #[trigger] with_seeded_joins(
                all.take(i + 1),
                s,
            ) == step_views(script@) by {
                assert(all.take(i + 1).drop_last() == all.take(i as int));
                assert(s.take(i as int) == s.take(i + 1).take(i as int));
                assert(s.take(i + 1).take(i as int) == seeds_before);
                assert(s[i as int] == s.take(i + 1)[i as int]);
                assert(with_seeded_joins(all.take(i as int), s) == script_before);
            }
        }
        i += 1;
    }
    proof {
        assert(all.take(nodes.len() as int) == all);
        assert(texts(seeds@).take(nodes.len() as int) == texts(seeds@));
    }
    append_step(&mut script, settle_step(nodes, 300));
    Seeded { seeds, script }
}

/// What happens to the node that a scenario takes out of the group.
#[derive(Clone, Copy, Debug, PartialEq, Eq, Structural)]
pub enum Twist {
    /// It is told to leave.
    Leave,
    /// It crashes.
    Crash,
    /// It is cut off the network.
    Offline,
    /// It no longer receives anything.
    CannotReceive,
    /// It no longer gets anything out.
    CannotSend,
}

/// The step in which the twist happens to `node`.
pub open spec fn twisting(twist: Twist, node: Seq<char>) -> StepView {
    match twist {
        Twist::Leave => doing(ControlView::Send { node, command: CommandView::Leave }),
        Twist::Crash => doing(ControlView::Crash { node }),
        Twist::Offline => doing(ControlView::Disconnect { node }),
        Twist::CannotReceive => doing(ControlView::DropIncoming { node }),
        Twist::CannotSend => doing(ControlView::DropOutgoing { node }),
    }
}

/// The step in which the twist happens to `node`.
pub fn twist_step(twist: Twist, node: &String) -> (s: Step)
    ensures
        s@ == twisting(twist, node@),
{
    match twist {
        Twist::Leave => Step::Do(Control::Send { node: node.clone(), command: Command::Leave }),
        Twist::Crash => Step::Do(Control::Crash { node: node.clone() }),
        Twist::Offline => Step::Do(Control::Disconnect { node: node.clone() }),
        Twist::CannotReceive => Step::Do(Control::DropIncoming { node: node.clone() }),
        Twist::CannotSend => Step::Do(Control::DropOutgoing { node: node.clone() }),
    }
}

/// A scenario in which one node is taken out: after the start, the twist happens
/// to the node at `victim`, and the others must settle within `max_steps` steps.
pub open spec fn removal_script(group: Seq<Seq<char>>, victim: int, twist: Twist, max_steps: u32) -> Seq<
    StepView,
> {
    start_up(group).push(twisting(twist, group[victim])).push(
        settled(group.remove(victim), max_steps),
    )
}

/// The script of a scenario in which one node is taken out.
pub fn removal(group: &Vec<String>, victim: usize, twist: Twist, max_steps: u32) -> (script: Vec<
    Step,
>)
    requires
        victim < group.len(),
    ensures
        step_views(script@) == removal_script(texts(group@), victim as int, twist, max_steps),
{
    let mut script = start(group);
    append_step(&mut script, twist_step(twist, &group[victim]));
    let mut rest = copy_texts(group);
    rest.remove(victim);
    assert(texts(rest@) == texts(group@).remove(victim as int));
    assert(texts(group@)[victim as int] == group[victim as int]@);
    append_step(&mut script, settle_step(&rest, max_steps));
    script
}

/// The steps that bring a node back after the twist: a crashed node is started
/// afresh and joins again through `seed`; a node that was cut off is connected.
pub open spec fn returning(twist: Twist, node: Seq<char>, seed: Seq<char>) -> Seq<StepView> {
    match twist {
        Twist::Crash => seq![doing(ControlView::Recover { node }), joining(node, seed)],
        _ => seq![doing(ControlView::Connect { node })],
    }
}

/// A scenario in which one node is taken out and comes back: the others must
/// settle without it, and all must settle once it is back.
pub open spec fn recovery_script(group: Seq<Seq<char>>, victim: int, twist: Twist) -> Seq<StepView> {
    removal_script(group, victim, twist, 300) + returning(twist, group[victim], group[0]).push(
        settled(group.remove(victim).push(group[victim]), 300),
    )
}

/// The script of a scenario in which one node is taken out and comes back.
pub fn recovery(group: &Vec<String>, victim: usize, twist: Twist) -> (script: Vec<Step>)
    requires
        victim < group.len(),
        twist is Crash || twist is Offline,
    ensures
        step_views(script@) == recovery_script(texts(group@), victim as int, twist),
{
    let mut script = removal(group, victim, twist, 300);
    let node = &group[victim];
    let mut back: Vec<Step> = Vec::new();
    assert(texts(group@)[victim as int] == group[victim as int]@);
    assert(texts(group@)[0] == group[0]@);
    match twist {
        Twist::Crash => {
            append_step(&mut back, Step::Do(Control::Recover { node: node.clone() }));
            append_step(&mut back, join_step(node, &group[0]));
        },
        _ => {
            append_step(&mut back, Step::Do(Control::Connect { node: node.clone() }));
        },
    }
    assert(step_views(back@) == returning(twist, node@, group[0]@));
    let mut all = copy_texts(group);
    let gone = all.remove(victim);
    let ghost rest = texts(all@);
    assert(rest == texts(group@).remove(victim as int));
    all.push(gone);
    assert(texts(all@) == rest.push(group[victim as int]@));
    append_step(&mut back, settle_step(&all, 300));
    extend(&mut script, back);
    script
}

/// A scenario in which a new node joins a settled group: the group without the
/// newcomer starts up, the newcomer joins through the same seed, and all must
/// settle.
pub open spec fn node_join_script(group: Seq<Seq<char>>, newcomer: Seq<char>) -> Seq<StepView> {
    start_up(group).push(joining(newcomer, group[0])).push(settled(group.push(newcomer), 300))
}

/// The script of the scenario in which a new node joins.
pub fn node_join(group: &Vec<String>, newcomer: &String) -> (script: Vec<Step>)
    requires
        group.len() >= 1,
    ensures
        step_views(script@) == node_join_script(texts(group@), newcomer@),
{
    let mut script = start(group);
    assert(texts(group@)[0] == group[0]@);
    append_step(&mut script, join_step(newcomer, &group[0]));
    let mut all = copy_texts(group);
    let ghost before = texts(all@);
    all.push(newcomer.clone());
    assert(texts(all@) == before.push(newcomer@));
    append_step(&mut script, settle_step(&all, 300));
    script
}

/// The members of the group on the side of the partition that `side` names.
pub open spec fn side_of(group: Seq<Seq<char>>, sides: Seq<bool>, side: bool) -> Seq<Seq<char>>
    decreases group.len(),
{
    if group.len() == 0 {
        group
    } else if sides[group.len() - 1] == side {
        side_of(group.drop_last(), sides, side).push(group.last())
    } else {
        side_of(group.drop_last(), sides, side)
    }
}

/// The members of the group on one side of a partition, in the order of the
/// group.
pub fn members_on(group: &Vec<String>, sides: &Vec<bool>, side: bool) -> (part: Vec<String>)
    requires
        sides.len() == group.len(),
    ensures
        texts(part@) == side_of(texts(group@), sides@, side),
{
    let ghost all = texts(group@);
    let mut part: Vec<String> = Vec::new();
    let mut i: usize = 0;
    assert(all.take(0) == Seq::<Seq<char>>::empty());
    while i < group.len()
        invariant
            i <= group.len(),
            sides.len() == group.len(),
            all == texts(group@),
            texts(part@) == side_of(all.take(i as int), sides@, side),
        decreases group.len() - i,
    {
        proof {
            assert(all.take(i + 1).drop_last() == all.take(i as int));
            assert(all.take(i + 1).last() == group[i as int]@);
        }
        if sides[i] == side {
            let ghost before = texts(part@);
            part.push(group[i].clone());
            assert(texts(part@) == before.push(group[i as int]@));
        }
        i += 1;
    }
    assert(all.take(group.len() as int) == all);
    part
}

/// The steps of a partition: the network is cut between the members on the one
/// side and those on the other, and each side must settle on its own within a
/// thousand steps.
pub open spec fn partition_steps(group: Seq<Seq<char>>, sides: Seq<bool>) -> Seq<StepView> {
    let first = side_of(group, sides, true);
    let second = side_of(group, sides, false);
    seq![
        doing(ControlView::Partition { first, second }),
        settled(first, 1000),
        settled(second, 1000),
    ]
}

/// The scenario of a network partition: after the start the network is
/// partitioned. Where the scenario goes on to heal it, the whole group must then
/// settle again.
pub open spec fn network_partition_script(group: Seq<Seq<char>>, sides: Seq<bool>, healing: bool) -> Seq<
    StepView,
> {
    start_up(group) + partition_steps(group, sides) + if healing {
        seq![doing(ControlView::ResetNetwork), settled(group, 1000)]
    } else {
        Seq::empty()
    }
}

/// The script of the scenario of a network partition.
pub fn network_partition(group: &Vec<String>, sides: &Vec<bool>, healing: bool) -> (script: Vec<
    Step,
>)
    requires
        group.len() >= 1,
        sides.len() == group.len(),
    ensures
        step_views(script@) == network_partition_script(texts(group@), sides@, healing),
{
    let mut script = start(group);
    let first = members_on(group, sides, true);
    let second = members_on(group, sides, false);
    let mut cut: Vec<Step> = Vec::new();
    append_step(
        &mut cut,
        Step::Do(Control::Partition { first: copy_texts(&first), second: copy_texts(&second) }),
    );
    append_step(&mut cut, settle_step(&first, 1000));
    append_step(&mut cut, settle_step(&second, 1000));
    assert(step_views(cut@) == partition_steps(texts(group@), sides@));
    extend(&mut script, cut);
    let mut mend: Vec<Step> = Vec::new();
    assert(step_views(mend@) == Seq::<StepView>::empty());
    if healing {
        append_step(&mut mend, Step::Do(Control::ResetNetwork));
        append_step(&mut mend, settle_step(group, 1000));
    }
    extend(&mut script, mend);
    script
}

/// The scenario of two nodes that cannot reach each other: after the start the
/// links between the first node and the node at `second` are cut in both
/// directions. After a while the whole group must still settle.
pub open spec fn severed_link_script(group: Seq<Seq<char>>, second: int) -> Seq<StepView> {
    start_up(group) + seq![
        doing(ControlView::DisableLink { from: group[0], to: group[second] }),
        doing(ControlView::DisableLink { from: group[second], to: group[0] }),
        doing(ControlView::Steps { count: 100 }),
        settled(group, 300),
    ]
}

/// The script of the scenario of two nodes that cannot reach each other.
pub fn severed_link(group: &Vec<String>, second: usize) -> (script: Vec<Step>)
    requires
        second < group.len(),
    ensures
        step_views(script@) == severed_link_script(texts(group@), second as int),
{
    let mut script = start(group);
    let one = &group[0];
    let other = &group[second];
    assert(texts(group@)[0] == one@);
    assert(texts(group@)[second as int] == other@);
    let mut tail: Vec<Step> = Vec::new();
    append_step(&mut tail, Step::Do(Control::DisableLink { from: one.clone(), to: other.clone() }));
    append_step(&mut tail, Step::Do(Control::DisableLink { from: other.clone(), to: one.clone() }));
    append_step(&mut tail, steps(100));
    append_step(&mut tail, settle_step(group, 300));
    extend(&mut script, tail);
    script
}

/// What happens to the network in a scenario that leaves the group whole.
#[derive(Clone, Copy, Debug, PartialEq, Eq, Structural)]
pub enum Weather {
    /// Messages take ten times as long for a while.
    Slow,
    /// Half of the messages are dropped for a while.
    Flaky,
}

/// The scenario of bad weather: after the start the network is slow or flaky
/// for two hundred steps. The group must settle once it is over.
pub open spec fn weather_script(group: Seq<Seq<char>>, weather: Weather) -> Seq<StepView> {
    start_up(group) + match weather {
        Weather::Slow => seq![
            doing(ControlView::SetDelays { min: 100, max: 1000 }),
            doing(ControlView::Steps { count: 200 }),
            doing(ControlView::SetDelays { min: 10, max: 100 }),
            settled(group, 300),
        ],
        Weather::Flaky => seq![
            doing(ControlView::SetDropRate { percent: 50 }),
            doing(ControlView::Steps { count: 200 }),
            doing(ControlView::SetDropRate { percent: 0 }),
            settled(group, 1000),
        ],
    }
}

/// The script of the scenario of bad weather.
pub fn bad_weather(group: &Vec<String>, kind: Weather) -> (script: Vec<Step>)
    requires
        group.len() >= 1,
    ensures
        step_views(script@) == weather_script(texts(group@), kind),
{
    let mut script = start(group);
    let mut tail: Vec<Step> = Vec::new();
    match kind {
        Weather::Slow => {
            append_step(&mut tail, Step::Do(Control::SetDelays { min: 100, max: 1000 }));
            append_step(&mut tail, steps(200));
            append_step(&mut tail, Step::Do(Control::SetDelays { min: 10, max: 100 }));
            append_step(&mut tail, settle_step(group, 300));
        },
        Weather::Flaky => {
            append_step(&mut tail, Step::Do(Control::SetDropRate { percent: 50 }));
            append_step(&mut tail, steps(200));
            append_step(&mut tail, Step::Do(Control::SetDropRate { percent: 0 }));
            append_step(&mut tail, settle_step(group, 1000));
        },
    }
    extend(&mut script, tail);
    script
}

/// The scenario of a network that is flaky from the start: a fifth of the
/// messages is dropped while the nodes join. The group must settle all the
/// same, and again after the network has become reliable.
pub open spec fn flaky_start_script(group: Seq<Seq<char>>) -> Seq<StepView> {
    with_joins(seq![doing(ControlView::SetDropRate { percent: 20 })], group, group[0]) + seq![
        settled(group, 1000),
        doing(ControlView::Steps { count: 200 }),
        doing(ControlView::SetDropRate { percent: 0 }),
        settled(group, 1000),
    ]
}

/// The script of the scenario of a network that is flaky from the start.
pub fn flaky_start(group: &Vec<String>) -> (script: Vec<Step>)
    requires
        group.len() >= 1,
    ensures
        step_views(script@) == flaky_start_script(texts(group@)),
{
    let mut script: Vec<Step> = Vec::new();
    append_step(&mut script, Step::Do(Control::SetDropRate { percent: 20 }));
    assert(step_views(script@) == seq![doing(ControlView::SetDropRate { percent: 20 })]);
    assert(texts(group@)[0] == group[0]@);
    add_joins(&mut script, group, &group[0]);
    let mut tail: Vec<Step> = Vec::new();
    append_step(&mut tail, settle_step(group, 1000));
    append_step(&mut tail, steps(200));
    append_step(&mut tail, Step::Do(Control::SetDropRate { percent: 0 }));
    append_step(&mut tail, settle_step(group, 1000));
    extend(&mut script, tail);
    script
}

/// The scenario of a crash in a flaky network: after the start half of the
/// messages are dropped and the node at `victim` crashes. The others must settle
/// once the network is reliable again.
pub open spec fn flaky_crash_script(group: Seq<Seq<char>>, victim: int) -> Seq<StepView> {
    start_up(group) + seq![
        doing(ControlView::SetDropRate { percent: 50 }),
        doing(ControlView::Crash { node: group[victim] }),
        doing(ControlView::Steps { count: 200 }),
        doing(ControlView::SetDropRate { percent: 0 }),
        settled(group.remove(victim), 1000),
    ]
}

/// The script of the scenario of a crash in a flaky network.
pub fn flaky_crash(group: &Vec<String>, victim: usize) -> (script: Vec<Step>)
    requires
        victim < group.len(),
    ensures
        step_views(script@) == flaky_crash_script(texts(group@), victim as int),
{
    let mut script = start(group);
    let mut rest = copy_texts(group);
    rest.remove(victim);
    assert(texts(rest@) == texts(group@).remove(victim as int));
    assert(texts(group@)[victim as int] == group[victim as int]@);
    let mut tail: Vec<Step> = Vec::new();
    append_step(&mut tail, Step::Do(Control::SetDropRate { percent: 50 }));
    append_step(&mut tail, Step::Do(Control::Crash { node: group[victim].clone() }));
    append_step(&mut tail, steps(200));
    append_step(&mut tail, Step::Do(Control::SetDropRate { percent: 0 }));
    append_step(&mut tail, settle_step(&rest, 1000));
    extend(&mut script, tail);
    script
}

/// The steps that inject a fault.
pub open spec fn injecting(fault: FaultView) -> Seq<StepView> {
    match fault {
        FaultView::Crash { node } => seq![doing(ControlView::Crash { node })],
        FaultView::Disconnect { node } => seq![doing(ControlView::Disconnect { node })],
        FaultView::BlockIncoming { node } => seq![doing(ControlView::DropIncoming { node })],
        FaultView::SeverLink { first, second } => seq![
            doing(ControlView::DisableLink { from: first, to: second }),
            doing(ControlView::DisableLink { from: second, to: first }),
        ],
    }
}

/// One round of the chaos monkey: the fault is injected, and the group that is
/// left must settle within two thousand steps.
pub open spec fn chaos_round_script(fault: FaultView, group: Seq<Seq<char>>) -> Seq<StepView> {
    injecting(fault).push(settled(group, 2000))
}

/// The script of one round of the chaos monkey, for the fault that was chosen
/// and the group that is left.
pub fn chaos_round(fault: Fault, group: &Vec<String>) -> (script: Vec<Step>)
    ensures
        step_views(script@) == chaos_round_script(fault@, texts(group@)),
{
    let mut script: Vec<Step> = Vec::new();
    match fault {
        Fault::Crash { node } => {
            append_step(&mut script, Step::Do(Control::Crash { node }));
        },
        Fault::Disconnect { node } => {
            append_step(&mut script, Step::Do(Control::Disconnect { node }));
        },
        Fault::BlockIncoming { node } => {
            append_step(&mut script, Step::Do(Control::DropIncoming { node }));
        },
        Fault::SeverLink { first, second } => {
            append_step(
                &mut script,
                Step::Do(Control::DisableLink { from: first.clone(), to: second.clone() }),
            );
            append_step(&mut script, Step::Do(Control::DisableLink { from: second, to: first }));
        },
    }
    assert(step_views(script@) == injecting(fault@));
    append_step(&mut script, settle_step(group, 2000));
    script
}

/// How a scalability run starts: every node of the group joins through the
/// first, and the group must settle within a hundred steps per node.
pub open spec fn scalability_script(group: Seq<Seq<char>>, max_steps: u32) -> Seq<StepView> {
    with_joins(Seq::empty(), group, group[0]).push(settled(group, max_steps))
}

/// The budget of a scalability run: a hundred steps per node, as far as that
/// fits.
pub fn scalability_budget(node_count: u32) -> (max_steps: u32)
    ensures
        max_steps == if node_count * 100 <= u32::MAX {
            (node_count * 100) as u32
        } else {
            u32::MAX
        },
{
    if node_count <= u32::MAX / 100 {
        node_count * 100
    } else {
        u32::MAX
    }
}

/// The script with which a scalability run starts.
pub fn scalability(group: &Vec<String>, node_count: u32) -> (script: Vec<Step>)
    requires
        group.len() >= 1,
    ensures
        step_views(script@) == scalability_script(
            texts(group@),
            if node_count * 100 <= u32::MAX {
                (node_count * 100) as u32
            } else {
                u32::MAX
            },
        ),
{
    let mut script: Vec<Step> = Vec::new();
    assert(step_views(script@) == Seq::<StepView>::empty());
    assert(texts(group@)[0] == group[0]@);
    add_joins(&mut script, group, &group[0]);
    append_step(&mut script, settle_step(group, scalability_budget(node_count)));
    script
}

/// The steps of a scalability run in which a node crashes: the node at `victim`
/// crashes and the others must settle within `max_steps` steps.
pub open spec fn scalability_crash_script(group: Seq<Seq<char>>, victim: int, max_steps: u32) -> Seq<
    StepView,
> {
    seq![doing(ControlView::Crash { node: group[victim] }), settled(group.remove(victim), max_steps)]
}

/// The script of the crash in a scalability run.
pub fn scalability_crash(group: &Vec<String>, victim: usize, node_count: u32) -> (script: Vec<Step>)
    requires
        victim < group.len(),
    ensures
        step_views(script@) == scalability_crash_script(
            texts(group@),
            victim as int,
            if node_count * 100 <= u32::MAX {
                (node_count * 100) as u32
            } else {
                u32::MAX
            },
        ),
{
    let mut rest = copy_texts(group);
    rest.remove(victim);
    assert(texts(rest@) == texts(group@).remove(victim as int));
    assert(texts(group@)[victim as int] == group[victim as int]@);
    let mut script: Vec<Step> = Vec::new();
    append_step(&mut script, Step::Do(Control::Crash { node: group[victim].clone() }));
    append_step(&mut script, settle_step(&rest, scalability_budget(node_count)));
    script
}

/// The scenarios that are staged from the node list and the generator alone.
#[derive(Clone, Copy, Debug, PartialEq, Eq, Structural)]
pub enum Kind {
    NodeJoin,
    NodeLeave,
    NodeCrash,
    SeedNodeCrash,
    NodeCrashRecover,
    NodeOffline,
    SeedNodeOffline,
    NodeOfflineRecover,
    NodeCannotReceive,
    NodeCannotSend,
    TwoNodesCannotCommunicate,
    SlowNetwork,
    FlakyNetwork,
    FlakyNetworkOnStart,
    FlakyNetworkAndCrash,
}

/// A scenario made ready to run.
#[derive(Debug)]
pub struct Staged {
    /// The nodes in the order in which they were shuffled.
    pub group: Vec<String>,
    /// The position in `group` of the node that the scenario singles out; zero
    /// where it singles out none.
    pub victim: usize,
    pub script: Vec<Step>,
}

/// The script of a scenario for a shuffled group and the node singled out.
pub open spec fn script_for(kind: Kind, group: Seq<Seq<char>>, victim: int) -> Seq<StepView> {
    match kind {
        Kind::NodeJoin => node_join_script(group.remove(victim), group[victim]),
        Kind::NodeLeave => removal_script(group, victim, Twist::Leave, 300),
        Kind::NodeCrash => removal_script(group, victim, Twist::Crash, 300),
        Kind::SeedNodeCrash => removal_script(group, 0, Twist::Crash, 300),
        Kind::NodeCrashRecover => recovery_script(group, victim, Twist::Crash),
        Kind::NodeOffline => removal_script(group, victim, Twist::Offline, 300),
        Kind::SeedNodeOffline => removal_script(group, 0, Twist::Offline, 1000),
        Kind::NodeOfflineRecover => recovery_script(group, victim, Twist::Offline),
        Kind::NodeCannotReceive => removal_script(group, victim, Twist::CannotReceive, 1000),
        Kind::NodeCannotSend => removal_script(group, victim, Twist::CannotSend, 300),
        Kind::TwoNodesCannotCommunicate => severed_link_script(group, victim),
        Kind::SlowNetwork => weather_script(group, Weather::Slow),
        Kind::FlakyNetwork => weather_script(group, Weather::Flaky),
        Kind::FlakyNetworkOnStart => flaky_start_script(group),
        Kind::FlakyNetworkAndCrash => flaky_crash_script(group, victim),
    }
}

/// What holds of a staged scenario: the group holds the nodes in some order, the
/// node singled out is one of the group, another than the first where the link
/// between the two is cut, and the script is that of the scenario.
pub open spec fn staged(kind: Kind, nodes: Seq<Seq<char>>, s: Staged) -> bool {
    &&& texts(s.group@).to_multiset() == nodes.to_multiset()
    &&& s.victim < s.group.len()
    &&& kind is NodeJoin ==> s.group.len() >= 2
    &&& kind is SeedNodeCrash || kind is SeedNodeOffline ==> s.victim == 0
    &&& kind is TwoNodesCannotCommunicate ==> texts(s.group@)[s.victim as int] != texts(
        s.group@,
    )[0]
    &&& step_views(s.script@) == script_for(kind, texts(s.group@), s.victim as int)
}

/// The nodes in a random order.
pub fn shuffled(nodes: &Vec<String>, rng: &mut rand_pcg::Pcg64) -> (group: Vec<String>)
    ensures
        texts(group@).to_multiset() == texts(nodes@).to_multiset(),
        group.len() == nodes.len(),
{
    let mut group = copy_texts(nodes);
    shuffle(rng, &mut group);
    proof {
        texts(group@).to_multiset_ensures();
        texts(nodes@).to_multiset_ensures();
    }
    group
}

/// The node that a draw singles out to be cut off from the first of the group:
/// the one drawn, where it bears another name than the first; none where it
/// bears the same.
pub fn other_than_first(group: &Vec<String>, drawn: usize) -> (r: Option<usize>)
    requires
        drawn < group.len(),
    ensures
        r == if texts(group@)[drawn as int] != texts(group@)[0] {
            Some(drawn)
        } else {
            None::<usize>
        },
{
    assert(texts(group@)[drawn as int] == group[drawn as int]@);
    assert(texts(group@)[0] == group[0]@);
    if !(group[drawn] == group[0]) {
        Some(drawn)
    } else {
        None
    }
}

/// Stages a scenario: shuffles the nodes, draws the node that the scenario
/// singles out, and writes the script. There is no result where there is no
/// node, or where a node is to join and there is only one. Where the link
/// between two nodes is to be cut, the second is drawn again while it bears the
/// name of the first, at most `max_draws` times; what comes of each draw is what
/// [`other_than_first`] says, and there is no result where no draw is allowed or
/// there is only one node.
pub fn stage(kind: Kind, nodes: &Vec<String>, rng: &mut rand_pcg::Pcg64, max_draws: u32) -> (r:
    Option<Staged>)
    ensures
        r matches Some(s) ==> staged(kind, texts(nodes@), s),
        nodes.len() == 0 ==> r is None,
        r is None ==> {
            ||| nodes.len() == 0
            ||| kind is NodeJoin && nodes.len() < 2
            ||| kind is TwoNodesCannotCommunicate
        },
        kind is NodeJoin && nodes.len() < 2 ==> r is None,
        kind is TwoNodesCannotCommunicate && (max_draws == 0 || nodes.len() == 1) ==> r is None,
{
    if nodes.len() == 0 {
        return None;
    }
    let group = shuffled(nodes, rng);
    let victim: usize = match kind {
        Kind::SeedNodeCrash | Kind::SeedNodeOffline | Kind::SlowNetwork | Kind::FlakyNetwork
        | Kind::FlakyNetworkOnStart => 0,
        Kind::TwoNodesCannotCommunicate => {
            let mut found: Option<usize> = None;
            let mut left = max_draws;
            while left > 0 && found.is_none()
                invariant
                    group.len() >= 1,
                    left <= max_draws,
                    found matches Some(second) ==> second < group.len() && texts(
                        group@,
                    )[second as int] != texts(group@)[0],
                    max_draws == 0 || group.len() == 1 ==> found is None,
                decreases left,
            {
                let drawn = draw_index(rng, group.len());
                found = other_than_first(&group, drawn);
                left -= 1;
            }
            match found {
                Some(second) => second,
                None => {
                    return None;
                },
            }
        },
        _ => draw_index(rng, group.len()),
    };
    let script = match kind {
        Kind::NodeJoin => {
            if group.len() < 2 {
                return None;
            }
            let mut rest = copy_texts(&group);
            assert(texts(rest@).len() == texts(group@).len());
            let newcomer = rest.remove(victim);
            assert(texts(rest@) == texts(group@).remove(victim as int));
            assert(texts(group@)[victim as int] == newcomer@);
            node_join(&rest, &newcomer)
        },
        Kind::NodeLeave => removal(&group, victim, Twist::Leave, 300),
        Kind::NodeCrash => removal(&group, victim, Twist::Crash, 300),
        Kind::SeedNodeCrash => removal(&group, 0, Twist::Crash, 300),
        Kind::NodeCrashRecover => recovery(&group, victim, Twist::Crash),
        Kind::NodeOffline => removal(&group, victim, Twist::Offline, 300),
        Kind::SeedNodeOffline => removal(&group, 0, Twist::Offline, 1000),
        Kind::NodeOfflineRecover => recovery(&group, victim, Twist::Offline),
        Kind::NodeCannotReceive => removal(&group, victim, Twist::CannotReceive, 1000),
        Kind::NodeCannotSend => removal(&group, victim, Twist::CannotSend, 300),
        Kind::TwoNodesCannotCommunicate => severed_link(&group, victim),
        Kind::SlowNetwork => bad_weather(&group, Weather::Slow),
        Kind::FlakyNetwork => bad_weather(&group, Weather::Flaky),
        Kind::FlakyNetworkOnStart => flaky_start(&group),
        Kind::FlakyNetworkAndCrash => flaky_crash(&group, victim),
    };
    Some(Staged { group, victim, script })
}

/// A scenario that takes a node out never expects it to settle: in a group
/// without repetitions, the group that must settle after the twist does not hold
/// the victim, and holds every other member.
pub proof fn lemma_removal_leaves_victim_out(
    group: Seq<Seq<char>>,
    victim: int,
    twist: Twist,
    max_steps: u32,
)
    requires
        group.no_duplicates(),
        0 <= victim < group.len(),
    ensures
        removal_script(group, victim, twist, max_steps).last() == settled(
            group.remove(victim),
            max_steps,
        ),
        !group.remove(victim).contains(group[victim]),
        forall|i: int| 0 <= i < group.len() && i != victim ==> group.remove(victim).contains(group[i]),
{
    crate::chaos::lemma_victim_leaves(group, victim);
    let rest = group.remove(victim);
    assert forall|i: int| 0 <= i < group.len() && i != victim implies rest.contains(group[i]) by {
        if i < victim {
            assert(rest[i] == group[i]);
        } else {
            assert(rest[i - 1] == group[i]);
        }
    }
}

} // verus!
