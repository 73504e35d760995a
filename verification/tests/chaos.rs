use dscheck::chaos::{
    chat_message, fault_class, next_fault, pick_two_victims, second_victim, severed_pair, Fault,
    FaultClass, MONKEY_FAULTS,
};
use rand::SeedableRng;

fn group(n: usize) -> Vec<String> {
    (0..n).map(|i| i.to_string()).collect()
}

#[test]
fn quarters_name_the_four_classes() {
    assert_eq!(fault_class(0), FaultClass::Crash);
    assert_eq!(fault_class(1), FaultClass::Disconnect);
    assert_eq!(fault_class(2), FaultClass::BlockIncoming);
    assert_eq!(fault_class(3), FaultClass::SeverLink);
    assert_eq!(fault_class(200), FaultClass::SeverLink);
}

#[test]
fn removing_fault_takes_its_victim_out_of_the_group() {
    for (class, seed) in [(FaultClass::Crash, 1u64), (FaultClass::Disconnect, 2), (FaultClass::BlockIncoming, 3)] {
        let mut rng = rand_pcg::Pcg64::seed_from_u64(seed);
        let mut g = group(10);
        let fault = next_fault(class, &mut g, &mut rng, 100).unwrap();
        let victim = match (class, fault) {
            (FaultClass::Crash, Fault::Crash { node }) => node,
            (FaultClass::Disconnect, Fault::Disconnect { node }) => node,
            (FaultClass::BlockIncoming, Fault::BlockIncoming { node }) => node,
            (_, other) => panic!("fault of another class: {:?}", other),
        };
        assert_eq!(g.len(), 9);
        assert!(!g.contains(&victim));
        let mut rest = group(10);
        rest.retain(|n| *n != victim);
        assert_eq!(g, rest);
    }
}

#[test]
fn severed_link_joins_two_different_members_and_removes_none() {
    for seed in 0..20u64 {
        let mut rng = rand_pcg::Pcg64::seed_from_u64(seed);
        let mut g = group(4);
        match next_fault(FaultClass::SeverLink, &mut g, &mut rng, 1000) {
            Some(Fault::SeverLink { first, second }) => {
                assert_ne!(first, second);
                assert!(g.contains(&first) && g.contains(&second));
            }
            other => panic!("no link severed: {:?}", other),
        }
        assert_eq!(g, group(4));
    }
}

#[test]
fn no_link_can_be_severed_in_a_group_of_one() {
    let mut rng = rand_pcg::Pcg64::seed_from_u64(7);
    let mut g = group(1);
    assert!(next_fault(FaultClass::SeverLink, &mut g, &mut rng, 50).is_none());
    assert_eq!(g, group(1));
}

#[test]
fn same_seed_gives_the_same_faults() {
    let run = |seed: u64| {
        let mut rng = rand_pcg::Pcg64::seed_from_u64(seed);
        let mut g = group(10);
        let mut victims = Vec::new();
        for quarter in [0u8, 2, 1, 0, 2] {
            match next_fault(fault_class(quarter), &mut g, &mut rng, 100).unwrap() {
                Fault::Crash { node } | Fault::Disconnect { node } | Fault::BlockIncoming { node } => {
                    victims.push(node)
                }
                Fault::SeverLink { .. } => unreachable!(),
            }
        }
        (victims, g)
    };
    let (victims, rest) = run(2021);
    assert_eq!(run(2021), (victims.clone(), rest.clone()));
    assert_eq!(rest.len(), 5);
    let mut all = victims.clone();
    all.extend(rest);
    all.sort();
    all.dedup();
    assert_eq!(all.len(), 10);
}

#[test]
fn two_victims_differ() {
    for seed in 0..20u64 {
        let mut rng = rand_pcg::Pcg64::seed_from_u64(seed);
        let (a, b) = pick_two_victims(&mut rng, 5, 1000).unwrap();
        assert!(a < 5 && b < 5);
        assert_ne!(a, b);
    }
    let mut rng = rand_pcg::Pcg64::seed_from_u64(1);
    assert_eq!(pick_two_victims(&mut rng, 1, 10), None);
}

#[test]
fn chat_message_names_user_and_round() {
    assert_eq!(chat_message(3, 0), "3:0");
    assert_eq!(chat_message(12, 9), "12:9");
}

#[test]
fn second_victim_must_be_another_node() {
    assert_eq!(second_victim(2, 4), Some((2, 4)));
    assert_eq!(second_victim(4, 2), Some((4, 2)));
    assert_eq!(second_victim(3, 3), None);
}

#[test]
fn no_victims_without_a_draw_of_the_second() {
    let mut rng = rand_pcg::Pcg64::seed_from_u64(5);
    assert_eq!(pick_two_victims(&mut rng, 5, 0), None);
    let mut rng = rand_pcg::Pcg64::seed_from_u64(5);
    assert!(pick_two_victims(&mut rng, 5, 1000).is_some());
}

#[test]
fn link_is_severed_between_members_of_different_names_only() {
    let g: Vec<String> = ["a", "b", "a"].iter().map(|s| s.to_string()).collect();
    assert_eq!(
        severed_pair(&g, 0, 1),
        Some(Fault::SeverLink { first: "a".to_string(), second: "b".to_string() })
    );
    assert_eq!(
        severed_pair(&g, 1, 2),
        Some(Fault::SeverLink { first: "b".to_string(), second: "a".to_string() })
    );
    assert_eq!(severed_pair(&g, 0, 2), None);
    assert_eq!(severed_pair(&g, 1, 1), None);
}

#[test]
fn no_link_is_severed_without_a_draw_or_among_namesakes() {
    let mut rng = rand_pcg::Pcg64::seed_from_u64(4);
    let mut g = group(6);
    assert!(next_fault(FaultClass::SeverLink, &mut g, &mut rng, 0).is_none());
    assert_eq!(g, group(6));
    let mut alike: Vec<String> = vec!["x".to_string(); 4];
    assert!(next_fault(FaultClass::SeverLink, &mut alike, &mut rng, 100).is_none());
    assert_eq!(alike.len(), 4);
}

#[test]
fn chaos_monkey_injects_five_faults() {
    assert_eq!(MONKEY_FAULTS, 5);
    let mut rng = rand_pcg::Pcg64::seed_from_u64(8);
    let mut g = group(6);
    for quarter in [3u8, 0, 3, 1, 2] {
        assert!(next_fault(fault_class(quarter), &mut g, &mut rng, 1000).is_some());
    }
    assert_eq!(g.len(), 3);
}
