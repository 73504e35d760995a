use dscheck::broadcast_scenarios::{
    all_to_all, causal_order, delivery, guarantees, info_tag, monkey_end, monkey_round, node_ids,
    normal, sender_crash, two_crashes, two_crashes_2, Delivery, Network, Turn,
};
use dscheck::chaos::Fault;
use dscheck::delivery::Guarantees;
use dscheck::membership::{Action as Poll, Event as Told, MembersReply, Stabilizer};
use dscheck::membership_scenarios::{
    bad_weather, chaos_round, members_on, network_partition, other_than_first, random_seed,
    recovery, removal, scalability, scalability_budget, scalability_crash, shuffled, simple,
    stage, Kind, Twist, Weather,
};
use dscheck::plan::{Command, Control};
use dscheck::script::{Action, Event, Run, Step};
use rand::SeedableRng;

fn texts(items: &[&str]) -> Vec<String> {
    items.iter().map(|s| s.to_string()).collect()
}

fn join(node: &str, seed: &str) -> Step {
    Step::Do(Control::Send { node: node.to_string(), command: Command::Join { seed: seed.to_string() } })
}

fn settle(group: &[&str], max_steps: u32) -> Step {
    Step::Stabilize { group: texts(group), steps_per_iter: 30, max_steps }
}

#[test]
fn nodes_are_named_by_their_positions() {
    assert_eq!(node_ids(0), Vec::<String>::new());
    assert_eq!(node_ids(3), texts(&["0", "1", "2"]));
    assert_eq!(node_ids(12)[11], "11");
}

#[test]
fn simple_scenario_joins_everyone_through_node_zero() {
    assert_eq!(
        simple(&texts(&["0", "1", "2"])),
        vec![join("0", "0"), join("1", "0"), join("2", "0"), settle(&["0", "1", "2"], 300)]
    );
}

#[test]
fn node_taken_out_is_not_expected_to_settle() {
    let group = texts(&["2", "0", "1"]);
    assert_eq!(
        removal(&group, 1, Twist::Crash, 300),
        vec![
            join("2", "2"),
            join("0", "2"),
            join("1", "2"),
            settle(&["2", "0", "1"], 300),
            Step::Do(Control::Crash { node: "0".to_string() }),
            settle(&["2", "1"], 300),
        ]
    );
    let tail = |twist| removal(&group, 0, twist, 1000)[4..].to_vec();
    assert_eq!(
        tail(Twist::Leave),
        vec![Step::Do(Control::Send { node: "2".to_string(), command: Command::Leave }), settle(&["0", "1"], 1000)]
    );
    assert_eq!(tail(Twist::Offline)[0], Step::Do(Control::Disconnect { node: "2".to_string() }));
    assert_eq!(tail(Twist::CannotReceive)[0], Step::Do(Control::DropIncoming { node: "2".to_string() }));
    assert_eq!(tail(Twist::CannotSend)[0], Step::Do(Control::DropOutgoing { node: "2".to_string() }));
}

#[test]
fn node_that_comes_back_is_expected_again() {
    let group = texts(&["2", "0", "1"]);
    assert_eq!(
        recovery(&group, 1, Twist::Crash)[4..],
        [
            Step::Do(Control::Crash { node: "0".to_string() }),
            settle(&["2", "1"], 300),
            Step::Do(Control::Recover { node: "0".to_string() }),
            join("0", "2"),
            settle(&["2", "1", "0"], 300),
        ]
    );
    assert_eq!(
        recovery(&group, 2, Twist::Offline)[4..],
        [
            Step::Do(Control::Disconnect { node: "1".to_string() }),
            settle(&["2", "0"], 300),
            Step::Do(Control::Connect { node: "1".to_string() }),
            settle(&["2", "0", "1"], 300),
        ]
    );
}

#[test]
fn partition_splits_the_group_in_two_that_settle_apart() {
    let group = texts(&["2", "0", "1", "3"]);
    let sides = vec![true, false, false, true];
    assert_eq!(members_on(&group, &sides, true), texts(&["2", "3"]));
    assert_eq!(members_on(&group, &sides, false), texts(&["0", "1"]));
    let script = network_partition(&group, &sides, true);
    assert_eq!(
        script[5..],
        [
            Step::Do(Control::Partition { first: texts(&["2", "3"]), second: texts(&["0", "1"]) }),
            settle(&["2", "3"], 1000),
            settle(&["0", "1"], 1000),
            Step::Do(Control::ResetNetwork),
            settle(&["2", "0", "1", "3"], 1000),
        ]
    );
    assert_eq!(network_partition(&group, &sides, false).len(), 8);
}

#[test]
fn bad_weather_passes_and_the_group_settles() {
    let group = texts(&["1", "0"]);
    assert_eq!(
        bad_weather(&group, Weather::Slow)[3..],
        [
            Step::Do(Control::SetDelays { min: 100, max: 1000 }),
            Step::Do(Control::Steps { count: 200 }),
            Step::Do(Control::SetDelays { min: 10, max: 100 }),
            settle(&["1", "0"], 300),
        ]
    );
    assert_eq!(
        bad_weather(&group, Weather::Flaky)[3..],
        [
            Step::Do(Control::SetDropRate { percent: 50 }),
            Step::Do(Control::Steps { count: 200 }),
            Step::Do(Control::SetDropRate { percent: 0 }),
            settle(&["1", "0"], 1000),
        ]
    );
}

#[test]
fn staged_scenarios_shuffle_and_single_out_one_node() {
    let nodes = node_ids(10);
    for kind in [
        Kind::NodeJoin,
        Kind::NodeLeave,
        Kind::NodeCrash,
        Kind::SeedNodeCrash,
        Kind::NodeCrashRecover,
        Kind::NodeOffline,
        Kind::SeedNodeOffline,
        Kind::NodeOfflineRecover,
        Kind::NodeCannotReceive,
        Kind::NodeCannotSend,
        Kind::TwoNodesCannotCommunicate,
        Kind::SlowNetwork,
        Kind::FlakyNetwork,
        Kind::FlakyNetworkOnStart,
        Kind::FlakyNetworkAndCrash,
    ] {
        let mut rng = rand_pcg::Pcg64::seed_from_u64(2021);
        let staged = stage(kind, &nodes, &mut rng, 1000).unwrap();
        let mut sorted = staged.group.clone();
        sorted.sort_by_key(|n| n.parse::<u32>().unwrap());
        assert_eq!(sorted, nodes, "{:?}", kind);
        assert!(staged.victim < 10);
        let victim = staged.group[staged.victim].clone();
        let removes = !matches!(
            kind,
            Kind::NodeJoin
                | Kind::NodeCrashRecover
                | Kind::NodeOfflineRecover
                | Kind::TwoNodesCannotCommunicate
                | Kind::SlowNetwork
                | Kind::FlakyNetwork
                | Kind::FlakyNetworkOnStart
        );
        match staged.script.last().unwrap() {
            Step::Stabilize { group, .. } => {
                assert_eq!(group.len(), if removes { 9 } else { 10 }, "{:?}", kind);
                assert_eq!(group.contains(&victim), !removes, "{:?}", kind);
            }
            other => panic!("{:?} ends with {:?}", kind, other),
        }
        let mut again = rand_pcg::Pcg64::seed_from_u64(2021);
        assert_eq!(stage(kind, &nodes, &mut again, 1000).unwrap().script, staged.script);
    }
}

#[test]
fn shuffle_follows_the_generator() {
    let nodes = node_ids(10);
    let mut rng = rand_pcg::Pcg64::seed_from_u64(2021);
    let group = shuffled(&nodes, &mut rng);
    let mut expected = nodes.clone();
    let mut same = rand_pcg::Pcg64::seed_from_u64(2021);
    rand::seq::SliceRandom::shuffle(expected.as_mut_slice(), &mut same);
    assert_eq!(group, expected);
    assert_ne!(group, nodes);
}

#[test]
fn seed_node_scenarios_take_out_the_first_of_the_group() {
    let nodes = node_ids(5);
    let mut rng = rand_pcg::Pcg64::seed_from_u64(3);
    let staged = stage(Kind::SeedNodeOffline, &nodes, &mut rng, 10).unwrap();
    assert_eq!(staged.victim, 0);
    assert_eq!(staged.script[6], Step::Do(Control::Disconnect { node: staged.group[0].clone() }));
    assert_eq!(staged.script[7], Step::Stabilize { group: staged.group[1..].to_vec(), steps_per_iter: 30, max_steps: 1000 });
}

#[test]
fn staging_needs_nodes() {
    let mut rng = rand_pcg::Pcg64::seed_from_u64(3);
    assert!(stage(Kind::NodeCrash, &Vec::new(), &mut rng, 10).is_none());
    assert!(stage(Kind::NodeJoin, &node_ids(1), &mut rng, 10).is_none());
    assert!(stage(Kind::TwoNodesCannotCommunicate, &node_ids(1), &mut rng, 10).is_none());
    assert!(stage(Kind::NodeCrash, &node_ids(1), &mut rng, 10).is_some());
}

#[test]
fn every_node_but_the_first_joins_through_an_earlier_one() {
    let nodes = node_ids(8);
    let mut rng = rand_pcg::Pcg64::seed_from_u64(5);
    let seeded = random_seed(&nodes, &mut rng);
    assert_eq!(seeded.seeds.len(), 8);
    assert_eq!(seeded.seeds[0], "0");
    for (i, seed) in seeded.seeds.iter().enumerate().skip(1) {
        assert!(nodes[..i].contains(seed));
        assert_eq!(seeded.script[i], join(&nodes[i], seed));
    }
    assert_eq!(seeded.script[8], Step::Stabilize { group: nodes.clone(), steps_per_iter: 30, max_steps: 300 });
}

#[test]
fn chaos_round_injects_the_fault_and_lets_the_rest_settle() {
    let group = texts(&["1", "2"]);
    assert_eq!(
        chaos_round(Fault::Crash { node: "0".to_string() }, &group),
        vec![Step::Do(Control::Crash { node: "0".to_string() }), settle(&["1", "2"], 2000)]
    );
    assert_eq!(
        chaos_round(Fault::SeverLink { first: "1".to_string(), second: "2".to_string() }, &group),
        vec![
            Step::Do(Control::DisableLink { from: "1".to_string(), to: "2".to_string() }),
            Step::Do(Control::DisableLink { from: "2".to_string(), to: "1".to_string() }),
            settle(&["1", "2"], 2000),
        ]
    );
    assert_eq!(
        chaos_round(Fault::BlockIncoming { node: "0".to_string() }, &group)[0],
        Step::Do(Control::DropIncoming { node: "0".to_string() })
    );
    assert_eq!(
        chaos_round(Fault::Disconnect { node: "0".to_string() }, &group)[0],
        Step::Do(Control::Disconnect { node: "0".to_string() })
    );
}

#[test]
fn scalability_runs_get_a_hundred_steps_per_node() {
    assert_eq!(scalability_budget(10), 1000);
    assert_eq!(scalability_budget(42_949_672), 4_294_967_200);
    assert_eq!(scalability_budget(42_949_673), u32::MAX);
    let group = texts(&["1", "0"]);
    assert_eq!(scalability(&group, 20), vec![join("1", "1"), join("0", "1"), settle(&["1", "0"], 2000)]);
    assert_eq!(
        scalability_crash(&group, 0, 20),
        vec![Step::Do(Control::Crash { node: "1".to_string() }), settle(&["0"], 2000)]
    );
}

/// Plays a membership script in a cluster whose nodes learn of every live node
/// within a given number of polling rounds.
fn play_membership(script: Vec<Step>, rounds_needed: u32) -> Result<bool, dscheck::script::Failure> {
    let mut run = Run::new(script);
    let mut gone: Vec<String> = Vec::new();
    let mut joined: Vec<String> = Vec::new();
    let mut action = run.step(Event::Start);
    loop {
        action = match action {
            Action::Finish(verdict) => return verdict,
            Action::Do(control) => {
                match control {
                    Control::Send { node, command: Command::Join { .. } } => {
                        gone.retain(|n| *n != node);
                        if !joined.contains(&node) {
                            joined.push(node)
                        }
                    }
                    Control::Crash { node } | Control::Disconnect { node } => gone.push(node),
                    Control::Connect { node } => gone.retain(|n| *n != node),
                    _ => {}
                }
                run.step(Event::Done)
            }
            Action::Stabilize { group, steps_per_iter, max_steps } => {
                let live: Vec<String> = joined.iter().filter(|n| !gone.contains(n)).cloned().collect();
                let mut oracle = Stabilizer::new(&group, steps_per_iter, max_steps);
                let mut round = 0;
                let mut poll = oracle.step(Told::Start);
                let verdict = loop {
                    poll = match poll {
                        Poll::Advance { .. } => {
                            round += 1;
                            oracle.step(Told::Advanced { more: true })
                        }
                        Poll::Ask { .. } => {
                            let view = if round >= rounds_needed { live.clone() } else { Vec::new() };
                            oracle.step(Told::Reply(MembersReply { tag: "MEMBERS".to_string(), members: Some(view) }))
                        }
                        Poll::Finish(verdict) => break verdict,
                    };
                };
                run.step(Event::Stabilized(verdict.map_err(|error| oracle.unsettled(error))))
            }
            other => panic!("unexpected action: {:?}", other),
        };
    }
}

#[test]
fn joining_nodes_converge_to_the_full_view_within_budget() {
    let nodes = node_ids(10);
    assert_eq!(play_membership(simple(&nodes), 3), Ok(true));
    assert_eq!(play_membership(simple(&nodes), 11), Ok(true));
    assert!(play_membership(simple(&nodes), 12).is_err());
    for kind in [Kind::NodeCrash, Kind::NodeCrashRecover, Kind::NodeOfflineRecover, Kind::NodeJoin] {
        let mut rng = rand_pcg::Pcg64::seed_from_u64(11);
        let staged = stage(kind, &nodes, &mut rng, 100).unwrap();
        assert_eq!(play_membership(staged.script, 2), Ok(true), "{:?}", kind);
    }
}

#[test]
fn broadcast_scripts() {
    let hello = |node: &str, text: &str| {
        Step::Do(Control::Send { node: node.to_string(), command: Command::Broadcast { text: text.to_string() } })
    };
    assert_eq!(normal(), vec![hello("0", "0:Hello"), Step::Do(Control::StepUntilNoEvents)]);
    assert_eq!(
        sender_crash(1),
        vec![
            hello("0", "0:Hello"),
            Step::Do(Control::Steps { count: 1 }),
            Step::StepsByEvents { node: "0".to_string(), events: 1, if_so: 2, if_not: 1 },
            Step::Do(Control::Crash { node: "0".to_string() }),
            Step::Do(Control::StepUntilNoEvents),
        ]
    );
    assert_eq!(
        sender_crash(0)[2],
        Step::StepsByEvents { node: "0".to_string(), events: 1, if_so: 1, if_not: 0 }
    );
    assert_eq!(
        two_crashes(5).unwrap(),
        vec![
            hello("0", "0:Hello"),
            Step::Do(Control::Disconnect { node: "2".to_string() }),
            Step::Do(Control::Disconnect { node: "3".to_string() }),
            Step::Do(Control::Disconnect { node: "4".to_string() }),
            Step::Do(Control::Steps { count: 25 }),
            Step::Do(Control::Crash { node: "0".to_string() }),
            Step::Do(Control::Crash { node: "1".to_string() }),
            Step::Do(Control::StepUntilNoEvents),
        ]
    );
    assert_eq!(two_crashes(1).unwrap().len(), 5);
    assert!(two_crashes(65_536).is_none());
    assert_eq!(two_crashes(65_535).unwrap()[65_534], Step::Do(Control::Steps { count: 4_294_836_225 }));
    assert_eq!(
        two_crashes_2(5).unwrap()[1..4],
        [
            Step::Do(Control::DropOutgoing { node: "1".to_string() }),
            Step::Do(Control::DropOutgoing { node: "2".to_string() }),
            Step::Do(Control::Steps { count: 25 }),
        ]
    );
    assert!(two_crashes_2(65_536).is_none());
    let script = causal_order();
    assert_eq!(script.len(), 9);
    assert_eq!(script[0], Step::Do(Control::SetDelays { min: 100_000, max: 200_000 }));
    assert_eq!(script[2], Step::Do(Control::StepUntilEvents { node: "1".to_string(), count: 1 }));
    assert_eq!(script[5], Step::Do(Control::StepUntilEvents { node: "0".to_string(), count: 3 }));
    assert_eq!(script[6], Step::Do(Control::SetDelay { millis: 1000 }));
    assert_eq!(script[7], hello("0", "0:Fine!"));
}

#[test]
fn all_to_all_message_count() {
    assert_eq!(all_to_all(0), 0);
    assert_eq!(all_to_all(1), 0);
    assert_eq!(all_to_all(5), 20);
    assert_eq!(all_to_all(u32::MAX), 4_294_967_295u64 * 4_294_967_294);
}

#[test]
fn delivery_scripts_and_guarantees() {
    let script = delivery("INFO-4", Network::Dropped);
    assert_eq!(script.len(), 7);
    assert_eq!(script[0], Step::Do(Control::SetDropRate { percent: 50 }));
    let words: Vec<String> = script[1..6]
        .iter()
        .map(|s| match s {
            Step::Do(Control::Send { node, command: Command::Info { tag, text } }) => {
                assert_eq!(node, "sender");
                assert_eq!(tag, "INFO-4");
                text.clone()
            }
            other => panic!("{:?}", other),
        })
        .collect();
    assert_eq!(words, texts(&["distributed", "systems", "need", "some", "guarantees"]));
    assert_eq!(script[6], Step::Do(Control::StepUntilNoEvents));
    assert_eq!(delivery("INFO-1", Network::Normal).len(), 6);
    assert_eq!(delivery("INFO-1", Network::Delayed)[0], Step::Do(Control::SetDelays { min: 1000, max: 5000 }));
    assert_eq!(delivery("INFO-1", Network::Duplicated)[0], Step::Do(Control::SetDuplRate { percent: 100 }));

    let g = |reliable, once, ordered| Guarantees { reliable, once, ordered };
    for network in [Network::Normal, Network::Delayed, Network::Duplicated] {
        assert_eq!(guarantees(Delivery::AtMostOnce, network), g(true, true, false));
    }
    assert_eq!(guarantees(Delivery::AtMostOnce, Network::Dropped), g(false, true, false));
    for network in [Network::Normal, Network::Delayed, Network::Duplicated, Network::Dropped] {
        assert_eq!(guarantees(Delivery::AtLeastOnce, network), g(true, false, false));
        assert_eq!(guarantees(Delivery::ExactlyOnce, network), g(true, true, false));
        assert_eq!(guarantees(Delivery::ExactlyOnceOrdered, network), g(true, true, true));
    }
    assert_eq!(info_tag(Delivery::AtMostOnce), "INFO-1");
    assert_eq!(info_tag(Delivery::AtLeastOnce), "INFO-2");
    assert_eq!(info_tag(Delivery::ExactlyOnce), "INFO-3");
    assert_eq!(info_tag(Delivery::ExactlyOnceOrdered), "INFO-4");
}

#[test]
fn chaos_monkey_round_mutes_the_victims_turn_by_turn() {
    let turns = vec![
        Turn { drop_first: true, drop_second: false, steps: 3 },
        Turn { drop_first: false, drop_second: true, steps: 1 },
    ];
    let send = Step::Do(Control::Send {
        node: "4".to_string(),
        command: Command::Broadcast { text: "4:7".to_string() },
    });
    assert_eq!(
        monkey_round(1, 3, 4, 7, &turns),
        vec![
            send,
            Step::Do(Control::SetDelays { min: 1000, max: 2000 }),
            Step::Do(Control::DropOutgoing { node: "1".to_string() }),
            Step::Do(Control::PassOutgoing { node: "3".to_string() }),
            Step::Do(Control::Steps { count: 3 }),
            Step::Do(Control::PassOutgoing { node: "1".to_string() }),
            Step::Do(Control::DropOutgoing { node: "3".to_string() }),
            Step::Do(Control::Steps { count: 1 }),
        ]
    );
    assert_eq!(
        monkey_round(1, 3, 0, 2, &Vec::new())[1],
        Step::Do(Control::SetDelays { min: 10_000, max: 20_000 })
    );
    assert_eq!(
        monkey_end(1, 3),
        vec![
            Step::Do(Control::Crash { node: "1".to_string() }),
            Step::Do(Control::Crash { node: "3".to_string() }),
            Step::Do(Control::StepUntilNoEvents),
        ]
    );
}

#[test]
fn second_node_of_a_cut_link_must_be_another_than_the_first() {
    let group = texts(&["4", "2", "4"]);
    assert_eq!(other_than_first(&group, 1), Some(1));
    assert_eq!(other_than_first(&group, 0), None);
    assert_eq!(other_than_first(&group, 2), None);
    let mut rng = rand_pcg::Pcg64::seed_from_u64(3);
    assert!(stage(Kind::TwoNodesCannotCommunicate, &node_ids(6), &mut rng, 0).is_none());
    let mut rng = rand_pcg::Pcg64::seed_from_u64(3);
    let staged = stage(Kind::TwoNodesCannotCommunicate, &node_ids(6), &mut rng, 1000).unwrap();
    assert_ne!(staged.victim, 0);
    let (first, second) = (staged.group[0].clone(), staged.group[staged.victim].clone());
    assert_eq!(
        staged.script[7..9],
        [
            Step::Do(Control::DisableLink { from: first.clone(), to: second.clone() }),
            Step::Do(Control::DisableLink { from: second, to: first }),
        ]
    );
}

#[test]
fn failed_member_is_named_after_a_shuffle() {
    let mut rng = rand_pcg::Pcg64::seed_from_u64(2021);
    let group = shuffled(&node_ids(10), &mut rng);
    let mut oracle = Stabilizer::new(&group, 30, 300);
    oracle.step(Told::Start);
    oracle.step(Told::Advanced { more: true });
    oracle.step(Told::Reply(MembersReply { tag: "MEMBERS".to_string(), members: Some(Vec::new()) }));
    let error = match oracle.step(Told::Timeout) {
        Poll::Finish(Err(error)) => error,
        other => panic!("{:?}", other),
    };
    let unsettled = oracle.unsettled(error);
    assert_eq!(unsettled.node, Some(group[1].clone()));
    assert_ne!(group[1], "1");
}
