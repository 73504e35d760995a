use dscheck::causal::{ValuesBody, ValuesReply};
use dscheck::causal_scenarios;
use dscheck::membership::{MembershipError, Unsettled};
use dscheck::plan::{Command, Control};
use dscheck::scenario::{idle_key, Placement};
use dscheck::script::{describe_failure, Action, After, Event, Failure, Run, Source, Step};
use dscheck::store::{StoreError, ValueBody, ValueReply};
use dscheck::store_scenarios;
use rand::SeedableRng;
use std::collections::HashMap;

fn texts(items: &[&str]) -> Vec<String> {
    items.iter().map(|s| s.to_string()).collect()
}

fn nodes(n: usize) -> Vec<String> {
    (0..n).map(|i| i.to_string()).collect()
}

/// Plays a script to its end, answering each action with `answer`.
fn play(script: Vec<Step>, mut answer: impl FnMut(&Action) -> Event) -> (Result<bool, Failure>, usize) {
    let mut run = Run::new(script);
    let mut action = run.step(Event::Start);
    loop {
        match action {
            Action::Finish(verdict) => {
                assert!(run.finished());
                return (verdict, run.played());
            }
            other => {
                let event = answer(&other);
                action = run.step(event);
            }
        }
    }
}

/// A single-value store that keeps one value per key for the whole cluster.
fn single_value_store() -> impl FnMut(&Action) -> Event {
    let mut map: HashMap<String, String> = HashMap::new();
    move |action: &Action| match action {
        Action::Ask { command, siblings: false, .. } => {
            let (tag, key, value) = match command {
                Command::Get { key, .. } => ("GET_RESP", key.clone(), map.get(key).cloned()),
                Command::Put { key, value, .. } => {
                    map.insert(key.clone(), value.clone());
                    ("PUT_RESP", key.clone(), Some(value.clone()))
                }
                Command::Delete { key, .. } => ("DELETE_RESP", key.clone(), map.remove(key)),
                other => panic!("not a store command: {:?}", other),
            };
            Event::Value(Some(ValueReply { tag: tag.to_string(), body: Some(ValueBody { key, value }) }))
        }
        Action::Do(_) => Event::Done,
        other => panic!("unexpected action: {:?}", other),
    }
}

/// A multi-value store that keeps, per key, the values that no write has
/// superseded. A context lists the versions that a reader has seen. Carts, whose
/// keys start with `CART-`, are merged into one value that lists every item.
fn multi_value_store() -> impl FnMut(&Action) -> Event {
    let mut map: HashMap<String, Vec<(u64, String)>> = HashMap::new();
    let mut clock = 0u64;
    move |action: &Action| {
        let reply = |tag: &str, key: &str, entries: &Vec<(u64, String)>| {
            let context: Vec<String> = entries.iter().map(|(v, _)| v.to_string()).collect();
            Event::Values(Some(ValuesReply {
                tag: tag.to_string(),
                body: Some(ValuesBody {
                    key: key.to_string(),
                    values: entries.iter().map(|(_, value)| value.clone()).collect(),
                    context: Some(context.join(",")),
                }),
            }))
        };
        match action {
            Action::Ask { command: Command::Get { key, .. }, siblings: true, .. } => {
                reply("GET_RESP", key, map.entry(key.clone()).or_default())
            }
            Action::Ask { command: Command::Put { key, value, context, .. }, siblings: true, .. } => {
                let seen: Vec<u64> = context
                    .iter()
                    .flat_map(|c| c.split(','))
                    .filter(|c| !c.is_empty())
                    .map(|c| c.parse().unwrap())
                    .collect();
                let entries = map.entry(key.clone()).or_default();
                entries.retain(|(version, _)| !seen.contains(version));
                clock += 1;
                entries.push((clock, value.clone()));
                if key.starts_with("CART-") && entries.len() > 1 {
                    let mut items: Vec<String> = Vec::new();
                    for (_, cart) in entries.iter() {
                        for item in cart.split(',') {
                            if !items.iter().any(|i| i == item) {
                                items.push(item.to_string());
                            }
                        }
                    }
                    clock += 1;
                    *entries = vec![(clock, items.join(","))];
                }
                reply("PUT_RESP", key, entries)
            }
            Action::Do(_) => Event::Done,
            other => panic!("unexpected action: {:?}", other),
        }
    }
}

fn placement() -> Placement {
    Placement { key: "KEY".to_string(), replicas: texts(&["3", "4", "5"]), others: texts(&["0", "1", "2"]) }
}

#[test]
fn single_value_scenarios_pass_on_a_faithful_store() {
    for kind in [
        store_scenarios::Kind::Basic,
        store_scenarios::Kind::ReplicasCheck,
        store_scenarios::Kind::StaleReplica,
        store_scenarios::Kind::SloppyQuorum,
        store_scenarios::Kind::PartitionedClient,
    ] {
        let mut rng = rand_pcg::Pcg64::seed_from_u64(2021);
        let staged = store_scenarios::stage(kind, &nodes(6), &mut rng, 1000).unwrap();
        let steps = staged.script.len();
        assert_eq!(play(staged.script, single_value_store()), (Ok(true), steps), "{:?}", kind);
    }
}

#[test]
fn put_then_get_returns_the_value_and_after_delete_nothing() {
    let script = store_scenarios::basic(&placement(), &"0".to_string(), "v1", "v2");
    assert_eq!(script.len(), 9);
    let mut asked: Vec<Command> = Vec::new();
    let mut store = single_value_store();
    let verdict = play(script, |action| {
        if let Action::Ask { command, .. } = action {
            asked.push(match command {
                Command::Get { key, quorum } => Command::Get { key: key.clone(), quorum: *quorum },
                Command::Put { key, value, context, quorum } => Command::Put {
                    key: key.clone(),
                    value: value.clone(),
                    context: context.clone(),
                    quorum: *quorum,
                },
                Command::Delete { key, quorum } => Command::Delete { key: key.clone(), quorum: *quorum },
                _ => unreachable!(),
            });
        }
        store(action)
    });
    assert_eq!(verdict, (Ok(true), 9));
    assert_eq!(asked[1], Command::Put { key: "KEY".to_string(), value: "v1".to_string(), context: None, quorum: 2 });
    assert_eq!(asked[6], Command::Delete { key: "KEY".to_string(), quorum: 2 });
    assert_eq!(asked[8], Command::Get { key: "KEY".to_string(), quorum: 2 });
}

#[test]
fn store_that_forgets_fails_at_the_first_read() {
    let script = store_scenarios::basic(&placement(), &"0".to_string(), "v1", "v2");
    let verdict = play(script, |action| match action {
        Action::Ask { command: Command::Get { key, .. }, .. } => Event::Value(Some(ValueReply {
            tag: "GET_RESP".to_string(),
            body: Some(ValueBody { key: key.clone(), value: None }),
        })),
        Action::Ask { command: Command::Put { key, value, .. }, .. } => Event::Value(Some(ValueReply {
            tag: "PUT_RESP".to_string(),
            body: Some(ValueBody { key: key.clone(), value: Some(value.clone()) }),
        })),
        _ => Event::Done,
    });
    assert_eq!(
        verdict,
        (Err(Failure::Store { step: 2, node: "5".to_string(), error: StoreError::WrongValue }), 2)
    );
}

#[test]
fn silent_node_fails_the_scenario_at_once() {
    let script = store_scenarios::basic(&placement(), &"0".to_string(), "v1", "v2");
    let verdict = play(script, |_| Event::Value(None));
    let timeout = Failure::Timeout {
        step: 0,
        node: "0".to_string(),
        max_steps: 100,
        expected: "GET_RESP".to_string(),
    };
    assert_eq!(describe_failure(&timeout), "GET_RESP is not returned by 0");
    assert_eq!(verdict, (Err(timeout), 0));
}

#[test]
fn concurrent_writes_come_back_as_siblings() {
    for kind in [causal_scenarios::Kind::ConcurrentWrites1, causal_scenarios::Kind::ConcurrentWrites3] {
        let mut rng = rand_pcg::Pcg64::seed_from_u64(2021);
        let staged = causal_scenarios::stage(kind, &nodes(6), &mut rng, 1000).unwrap();
        assert_eq!(staged.script.len(), 3);
        assert_eq!(play(staged.script, multi_value_store()), (Ok(true), 3), "{:?}", kind);
    }
}

#[test]
fn store_that_keeps_only_the_last_write_fails_concurrent_writes() {
    let script = causal_scenarios::concurrent_writes_1(&placement(), "A", "B");
    let mut last: Option<String> = None;
    let verdict = play(script, |action| match action {
        Action::Ask { command: Command::Put { key, value, .. }, .. } => {
            last = Some(value.clone());
            Event::Values(Some(ValuesReply {
                tag: "PUT_RESP".to_string(),
                body: Some(ValuesBody { key: key.clone(), values: vec![value.clone()], context: Some("c".to_string()) }),
            }))
        }
        Action::Ask { command: Command::Get { key, .. }, .. } => Event::Values(Some(ValuesReply {
            tag: "GET_RESP".to_string(),
            body: Some(ValuesBody { key: key.clone(), values: last.clone().into_iter().collect(), context: None }),
        })),
        _ => Event::Done,
    });
    assert_eq!(
        verdict,
        (Err(Failure::Store { step: 1, node: "1".to_string(), error: StoreError::NotSingle }), 1)
    );
}

#[test]
fn multi_value_scenarios_pass_on_a_faithful_store() {
    for kind in [causal_scenarios::Kind::Basic, causal_scenarios::Kind::StaleReplica, causal_scenarios::Kind::SloppyQuorum, causal_scenarios::Kind::ConcurrentWrites1] {
        let mut rng = rand_pcg::Pcg64::seed_from_u64(7);
        let staged = causal_scenarios::stage(kind, &nodes(6), &mut rng, 1000).unwrap();
        let steps = staged.script.len();
        assert_eq!(play(staged.script, multi_value_store()), (Ok(true), steps), "{:?}", kind);
    }
}

#[test]
fn carts_of_two_clients_converge_to_the_union() {
    let mut rng = rand_pcg::Pcg64::seed_from_u64(2021);
    let staged = causal_scenarios::stage(causal_scenarios::Kind::ShoppingCart1, &nodes(6), &mut rng, 1000).unwrap();
    assert!(staged.cast.placement.key.starts_with("CART-"));
    assert_eq!(staged.cast.placement.key.len(), 13);
    let steps = staged.script.len();
    assert_eq!(steps, 5 + staged.cast.placement.others.len());
    let mut writes: Vec<String> = Vec::new();
    let mut store = multi_value_store();
    let verdict = play(staged.script, |action| {
        if let Action::Ask { command: Command::Put { value, .. }, .. } = action {
            writes.push(value.clone());
        }
        store(action)
    });
    assert_eq!(verdict, (Ok(true), steps));
    assert_eq!(
        writes,
        texts(&["milk", "eggs", "milk,flour", "milk,eggs,ham", "milk,eggs,flour,bacon"])
    );
}

#[test]
fn cart_that_loses_an_item_is_rejected() {
    let cart = Placement { key: "CART-1".to_string(), ..placement() };
    let script = causal_scenarios::shopping_cart_1(&cart);
    let mut store = multi_value_store();
    let verdict = play(script, |action| match action {
        Action::Ask { command: Command::Get { key, .. }, .. } => Event::Values(Some(ValuesReply {
            tag: "GET_RESP".to_string(),
            body: Some(ValuesBody {
                key: key.clone(),
                values: texts(&["milk,eggs,flour,bacon"]),
                context: None,
            }),
        })),
        other => store(other),
    });
    assert_eq!(
        verdict,
        (Err(Failure::Store { step: 5, node: "0".to_string(), error: StoreError::WrongValue }), 5)
    );
}

#[test]
fn later_steps_build_on_earlier_answers() {
    let p = placement();
    let script = causal_scenarios::partitioned_clients(&p, &"0".to_string(), "v");
    assert_eq!(script.len(), 12 + 3 + 6);
    assert_eq!(
        script[3],
        Step::Write {
            node: "0".to_string(),
            key: "KEY".to_string(),
            value: Source::Appended { step: 2, suffix: "-1".to_string() },
            context: Some(2),
            quorum: 2,
            after: After::Nothing,
            max_steps: 100,
        }
    );
    assert_eq!(
        script[1],
        Step::Do(Control::Partition { first: texts(&["0", "1", "3"]), second: texts(&["2", "4", "5"]) })
    );
    let mut side = 1; // the side of the partition that is being written to
    let mut sides: [Vec<(u64, String)>; 3] = [Vec::new(), Vec::new(), Vec::new()];
    let mut clock = 0;
    let mut healed = false;
    let mut puts: Vec<(String, Option<String>)> = Vec::new();
    let verdict = play(script, |action| match action {
        Action::Do(Control::Partition { .. }) => {
            sides[1] = sides[0].clone();
            sides[2] = sides[0].clone();
            Event::Done
        }
        Action::Do(Control::ResetNetwork) => {
            let mut all = sides[1].clone();
            all.extend(sides[2].clone());
            all.retain(|(v, _)| *v > 1);
            sides[0] = all;
            healed = true;
            Event::Done
        }
        Action::Do(_) => Event::Done,
        Action::Ask { node, command, .. } => {
            let at = if healed {
                0
            } else if puts.is_empty() {
                0
            } else if node == "2" {
                2
            } else {
                1
            };
            side = at;
            let entries = &mut sides[side];
            let (tag, key) = match command {
                Command::Get { key, .. } => ("GET_RESP", key.clone()),
                Command::Put { key, value, context, .. } => {
                    puts.push((value.clone(), context.clone()));
                    entries.clear();
                    clock += 1;
                    entries.push((clock, value.clone()));
                    ("PUT_RESP", key.clone())
                }
                _ => unreachable!(),
            };
            let context: Vec<String> = entries.iter().map(|(v, _)| v.to_string()).collect();
            Event::Values(Some(ValuesReply {
                tag: tag.to_string(),
                body: Some(ValuesBody {
                    key,
                    values: entries.iter().map(|(_, v)| v.clone()).collect(),
                    context: Some(context.join(",")),
                }),
            }))
        }
        other => panic!("unexpected action: {:?}", other),
    });
    assert_eq!(verdict, (Ok(true), 21));
    assert_eq!(
        puts,
        vec![
            ("v".to_string(), None),
            ("v-1".to_string(), Some("1".to_string())),
            ("v-1-2".to_string(), Some("2".to_string())),
            ("v-3".to_string(), Some("1".to_string())),
        ]
    );
}

#[test]
fn step_that_builds_on_nothing_is_unresolved() {
    let write = |value: Source, context: Option<usize>| Step::Write {
        node: "0".to_string(),
        key: "K".to_string(),
        value,
        context,
        quorum: 2,
        after: After::Nothing,
        max_steps: 100,
    };
    for step in [
        write(Source::PutAt(0), None),
        write(Source::Appended { step: 3, suffix: "x".to_string() }, None),
        write(Source::CartOf { step: 0, item: "x".to_string() }, None),
        write(Source::Fixed("v".to_string()), Some(0)),
    ] {
        assert_eq!(play(vec![step], |_| Event::Done), (Err(Failure::Unresolved { step: 0 }), 0));
    }
    let script = vec![Step::Do(Control::ResetNetwork), write(Source::PutAt(0), None)];
    assert_eq!(play(script, |_| Event::Done), (Err(Failure::Unresolved { step: 1 }), 1));
}

#[test]
fn event_that_was_not_asked_for_is_refused() {
    let mut run = Run::new(vec![Step::Do(Control::ResetNetwork)]);
    assert_eq!(run.remaining(), 1);
    assert_eq!(run.step(Event::Done), Action::Finish(Err(Failure::OutOfTurn { step: 0 })));
    let mut run = Run::new(vec![Step::Do(Control::ResetNetwork)]);
    assert_eq!(run.step(Event::Start), Action::Do(Control::ResetNetwork));
    assert_eq!(run.step(Event::Value(None)), Action::Finish(Err(Failure::OutOfTurn { step: 0 })));
}

#[test]
fn empty_script_passes() {
    assert_eq!(play(Vec::new(), |_| Event::Done), (Ok(true), 0));
}

#[test]
fn group_that_does_not_settle_fails_the_scenario() {
    let script = vec![
        Step::Do(Control::Crash { node: "1".to_string() }),
        Step::Stabilize { group: texts(&["0", "2"]), steps_per_iter: 30, max_steps: 300 },
        Step::Do(Control::ResetNetwork),
    ];
    let verdict = play(script, |action| match action {
        Action::Stabilize { group, steps_per_iter: 30, max_steps: 300 } => {
            assert_eq!(group, &texts(&["0", "2"]));
            Event::Stabilized(Err(Unsettled { error: MembershipError::NotStabilized, node: None }))
        }
        Action::Do(_) => Event::Done,
        other => panic!("unexpected action: {:?}", other),
    });
    assert_eq!(
        verdict,
        (
            Err(Failure::Membership { step: 1, error: MembershipError::NotStabilized, node: None }),
            1
        )
    );
}

#[test]
fn steps_are_chosen_by_the_number_of_events() {
    for (events, expected) in [(1usize, 2u32), (0, 1), (2, 1)] {
        let mut run = Run::new(vec![Step::StepsByEvents {
            node: "0".to_string(),
            events: 1,
            if_so: 2,
            if_not: 1,
        }]);
        assert_eq!(run.step(Event::Start), Action::CountEvents { node: "0".to_string() });
        assert_eq!(run.step(Event::EventCount(events)), Action::Do(Control::Steps { count: expected }));
        assert_eq!(run.step(Event::Done), Action::Finish(Ok(true)));
        assert_eq!(run.played(), 1);
    }
}

#[test]
fn writes_handed_out_before_their_answers_are_awaited() {
    let script = causal_scenarios::concurrent_writes_2(&placement(), "A", "B");
    let mut run = Run::new(script);
    let put = |value: &str| Command::Put {
        key: "KEY".to_string(),
        value: value.to_string(),
        context: None,
        quorum: 2,
    };
    assert_eq!(
        run.step(Event::Start),
        Action::Do(Control::Send { node: "0".to_string(), command: put("A") })
    );
    assert_eq!(
        run.step(Event::Done),
        Action::Do(Control::Send { node: "1".to_string(), command: put("B") })
    );
    assert_eq!(run.step(Event::Done), Action::Await { node: "0".to_string(), max_steps: 100 });
    let answer = |values: &[&str]| {
        Event::Values(Some(ValuesReply {
            tag: "PUT_RESP".to_string(),
            body: Some(ValuesBody { key: "KEY".to_string(), values: texts(values), context: Some("c".to_string()) }),
        }))
    };
    assert_eq!(run.step(answer(&["A"])), Action::Await { node: "1".to_string(), max_steps: 100 });
    assert_eq!(
        run.step(answer(&["A", "B"])),
        Action::Ask { node: "2".to_string(), command: Command::Get { key: "KEY".to_string(), quorum: 2 }, max_steps: 100, siblings: true }
    );
}

#[test]
fn diverged_replicas_read_idle_keys_that_avoid_the_replica() {
    let all = nodes(6);
    for seed in 0..10u64 {
        let mut rng = rand_pcg::Pcg64::seed_from_u64(seed);
        let Some(staged) = causal_scenarios::stage(causal_scenarios::Kind::DivergedReplicas, &all, &mut rng, 1000) else {
            continue;
        };
        assert_eq!(staged.script.len(), 17);
        assert_eq!(staged.cast.values.len(), 4);
        assert_eq!(staged.idle_keys.len(), 3);
        for (i, key) in staged.idle_keys.iter().enumerate() {
            let replicas = dscheck::placement::key_replicas(key, 6);
            assert!(!replicas.contains(&staged.cast.placement.replicas[i]));
            assert_eq!(key.to_uppercase(), *key);
        }
    }
}

#[test]
fn staging_needs_room_outside_the_replicas() {
    let mut rng = rand_pcg::Pcg64::seed_from_u64(1);
    assert!(store_scenarios::stage(store_scenarios::Kind::Basic, &nodes(5), &mut rng, 10).is_none());
    assert!(store_scenarios::stage(store_scenarios::Kind::Basic, &Vec::new(), &mut rng, 10).is_none());
    assert!(store_scenarios::stage(store_scenarios::Kind::ReplicasCheck, &nodes(3), &mut rng, 10).is_some());
    assert!(causal_scenarios::stage(causal_scenarios::Kind::ShoppingCart1, &nodes(4), &mut rng, 10).is_none());
    assert!(causal_scenarios::stage(causal_scenarios::Kind::ShoppingCart1, &nodes(5), &mut rng, 10).is_some());
}

#[test]
fn same_seed_stages_the_same_scenario() {
    let stage = |seed: u64| {
        let mut rng = rand_pcg::Pcg64::seed_from_u64(seed);
        store_scenarios::stage(store_scenarios::Kind::PartitionedClients, &nodes(6), &mut rng, 100).unwrap()
    };
    let (a, b) = (stage(2021), stage(2021));
    assert_eq!(a.script, b.script);
    assert_eq!(a.cast, b.cast);
    assert_ne!(stage(2022).cast.placement.key, a.cast.placement.key);
    assert_eq!(a.cast.placement.key, a.cast.placement.key.to_uppercase());
    let mut rng = rand_pcg::Pcg64::seed_from_u64(2021);
    let plain = store_scenarios::stage(store_scenarios::Kind::ReplicasCheck, &nodes(6), &mut rng, 100).unwrap();
    assert_eq!(plain.cast.placement.key.to_uppercase(), a.cast.placement.key);
}

#[test]
fn clients_on_both_sides_of_a_partition_end_with_the_last_write() {
    let script = store_scenarios::partitioned_clients(&placement(), &"0".to_string(), "v");
    assert_eq!(script.len(), 15 + 6);
    let get = |node: &str, quorum: u8, value: &str| Step::Get {
        node: node.to_string(),
        key: "KEY".to_string(),
        quorum,
        expected: Some(value.to_string()),
        max_steps: 100,
    };
    let put = |node: &str, value: &str| Step::Put {
        node: node.to_string(),
        key: "KEY".to_string(),
        value: value.to_string(),
        quorum: 2,
        max_steps: 100,
    };
    assert_eq!(script[3], put("0", "v-1"));
    assert_eq!(script[5], put("1", "v-1-2"));
    assert_eq!(script[6], get("1", 2, "v-1-2"));
    assert_eq!(script[8], put("2", "v-3"));
    assert_eq!(script[14], get("2", 2, "v-3"));
    assert_eq!(script[15], Step::Do(Control::Disconnect { node: "3".to_string() }));
    assert_eq!(script[20], get("5", 1, "v-3"));
    // a store in which the last write wins on each side, and the later side after healing
    let mut sides = [String::new(), String::new()];
    let mut whole: Option<String> = None;
    let mut parted = false;
    let verdict = play(script, |action| match action {
        Action::Do(Control::Partition { .. }) => {
            parted = true;
            sides = [whole.clone().unwrap(), whole.clone().unwrap()];
            Event::Done
        }
        Action::Do(Control::ResetNetwork) => {
            parted = false;
            whole = Some(sides[1].clone());
            Event::Done
        }
        Action::Do(_) => Event::Done,
        Action::Ask { node, command, .. } => {
            let side = if node == "2" { 1 } else { 0 };
            let (tag, key, value) = match command {
                Command::Put { key, value, .. } => {
                    if parted {
                        sides[side] = value.clone();
                    } else {
                        whole = Some(value.clone());
                    }
                    ("PUT_RESP", key, value.clone())
                }
                Command::Get { key, .. } => {
                    ("GET_RESP", key, if parted { sides[side].clone() } else { whole.clone().unwrap() })
                }
                _ => unreachable!(),
            };
            Event::Value(Some(ValueReply {
                tag: tag.to_string(),
                body: Some(ValueBody { key: key.clone(), value: Some(value) }),
            }))
        }
        other => panic!("unexpected action: {:?}", other),
    });
    assert_eq!(verdict, (Ok(true), 21));
}

#[test]
fn idle_key_avoids_the_node_where_the_cluster_is_large_enough() {
    for node in ["0", "1", "2"] {
        for count in [1u32, 2, 3] {
            let mut rng = rand_pcg::Pcg64::seed_from_u64(9);
            if node.parse::<u32>().unwrap() < count {
                assert_eq!(idle_key(&node.to_string(), count, &mut rng, 200), None);
            }
        }
    }
    let mut rng = rand_pcg::Pcg64::seed_from_u64(9);
    assert_eq!(idle_key(&"0".to_string(), 6, &mut rng, 0), None);
    let mut rng = rand_pcg::Pcg64::seed_from_u64(9);
    let key = idle_key(&"0".to_string(), 6, &mut rng, 1000).unwrap();
    assert_eq!(key.len(), 8);
    assert!(!dscheck::placement::key_replicas(&key, 6).contains(&"0".to_string()));
    let mut rng = rand_pcg::Pcg64::seed_from_u64(9);
    assert!(idle_key(&"elsewhere".to_string(), 3, &mut rng, 1).is_some());
}

#[test]
fn answer_with_another_tag_is_a_format_failure_that_names_both_tags() {
    let script = store_scenarios::basic(&placement(), &"0".to_string(), "v1", "v2");
    let verdict = play(script, |action| match action {
        Action::Ask { command: Command::Get { key, .. }, .. } => Event::Value(Some(ValueReply {
            tag: "PUT_RESP".to_string(),
            body: Some(ValueBody { key: key.clone(), value: None }),
        })),
        _ => Event::Done,
    });
    let failure = Failure::Format {
        step: 0,
        node: "0".to_string(),
        expected: "GET_RESP".to_string(),
        actual: "PUT_RESP".to_string(),
    };
    assert_eq!(describe_failure(&failure), "Wrong message type PUT_RESP from 0, expected GET_RESP");
    assert_eq!(verdict, (Err(failure), 0));
}

#[test]
fn timeout_of_a_write_names_node_budget_and_tag() {
    let script = causal_scenarios::concurrent_writes_1(&placement(), "A", "B");
    let verdict = play(script, |_| Event::Values(None));
    assert_eq!(
        verdict,
        (
            Err(Failure::Timeout {
                step: 0,
                node: "0".to_string(),
                max_steps: 100,
                expected: "PUT_RESP".to_string()
            }),
            0
        )
    );
}

#[test]
fn failures_are_described_with_the_node_they_are_about() {
    let store = |error| Failure::Store { step: 3, node: "4".to_string(), error };
    assert_eq!(describe_failure(&store(StoreError::WrongKey)), "Wrong key in response of 4");
    assert_eq!(describe_failure(&store(StoreError::WrongValue)), "Wrong value in response of 4");
    assert_eq!(describe_failure(&store(StoreError::Malformed)), "Unreadable response of 4");
    assert_eq!(
        describe_failure(&store(StoreError::NotSingle)),
        "Wrong number of values in response of 4"
    );
    let group = |error, node: Option<&str>| Failure::Membership {
        step: 1,
        error,
        node: node.map(|n| n.to_string()),
    };
    assert_eq!(
        describe_failure(&group(MembershipError::NoResponse { member: 2 }, Some("7"))),
        "Members list is not returned by 7"
    );
    assert_eq!(
        describe_failure(&group(MembershipError::WrongType { member: 2 }, Some("7"))),
        "Wrong message type"
    );
    assert_eq!(
        describe_failure(&group(MembershipError::Malformed { member: 2 }, Some("7"))),
        "Unreadable members list from 7"
    );
    assert_eq!(
        describe_failure(&group(MembershipError::NotStabilized, None)),
        "Group members lists are not stabilized"
    );
    assert_eq!(
        describe_failure(&Failure::Unresolved { step: 0 }),
        "Step builds on a response that was not given"
    );
    assert_eq!(
        describe_failure(&Failure::OutOfTurn { step: 0 }),
        "Runner was told what it had not asked for"
    );
}
