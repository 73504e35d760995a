use dscheck::membership::{Action, Event, MembersReply, MembershipError, Phase, Stabilizer};

fn texts(items: &[&str]) -> Vec<String> {
    items.iter().map(|s| s.to_string()).collect()
}

fn members(items: &[&str]) -> Event {
    Event::Reply(MembersReply { tag: "MEMBERS".to_string(), members: Some(texts(items)) })
}

#[test]
fn full_views_converge_in_one_round() {
    let group = texts(&["0", "1", "2"]);
    let mut s = Stabilizer::new(&group, 30, 300);
    assert_eq!(s.phase(), Phase::Fresh);
    assert_eq!(s.step(Event::Start), Action::Advance { steps: 30 });
    assert_eq!(s.step(Event::Advanced { more: true }), Action::Ask { member: 0, max_steps: 300 });
    assert_eq!(s.step(members(&["2", "1", "0"])), Action::Ask { member: 1, max_steps: 300 });
    assert_eq!(s.step(members(&["0", "1", "2"])), Action::Ask { member: 2, max_steps: 300 });
    assert_eq!(s.step(members(&["1", "0", "2", "2"])), Action::Finish(Ok(true)));
    assert_eq!(s.phase(), Phase::Done);
    assert_eq!(s.steps(), 30);
    assert!(s.stabilized_all());
}

#[test]
fn late_member_is_asked_again_and_only_it() {
    let group = texts(&["0", "1"]);
    let mut s = Stabilizer::new(&group, 30, 300);
    s.step(Event::Start);
    assert_eq!(s.step(Event::Advanced { more: true }), Action::Ask { member: 0, max_steps: 300 });
    assert_eq!(s.step(members(&["0", "1"])), Action::Ask { member: 1, max_steps: 300 });
    assert_eq!(s.step(members(&["1"])), Action::Advance { steps: 30 });
    assert!(s.is_stabilized(0));
    assert!(!s.is_stabilized(1));
    assert_eq!(s.observed(1), Some(&texts(&["1"])));
    assert_eq!(s.step(Event::Advanced { more: true }), Action::Ask { member: 1, max_steps: 300 });
    assert_eq!(s.step(members(&["1", "0"])), Action::Finish(Ok(true)));
    assert_eq!(s.steps(), 60);
}

#[test]
fn budget_ends_the_run() {
    let group = texts(&["0"]);
    let mut s = Stabilizer::new(&group, 30, 45);
    assert_eq!(s.step(Event::Start), Action::Advance { steps: 30 });
    s.step(Event::Advanced { more: true });
    assert_eq!(s.step(members(&[])), Action::Advance { steps: 30 });
    s.step(Event::Advanced { more: true });
    assert_eq!(
        s.step(members(&["0", "9"])),
        Action::Finish(Err(MembershipError::NotStabilized))
    );
    assert_eq!(s.steps(), 60);
}

#[test]
fn quiet_simulation_ends_the_run_after_the_round() {
    let group = texts(&["0", "1"]);
    let mut s = Stabilizer::new(&group, 30, 300);
    s.step(Event::Start);
    assert_eq!(s.step(Event::Advanced { more: false }), Action::Ask { member: 0, max_steps: 300 });
    assert_eq!(s.step(members(&["0", "1"])), Action::Ask { member: 1, max_steps: 300 });
    assert_eq!(s.step(members(&["0"])), Action::Finish(Err(MembershipError::NotStabilized)));
}

#[test]
fn silence_fails_at_once() {
    let group = texts(&["0", "1"]);
    let mut s = Stabilizer::new(&group, 30, 300);
    s.step(Event::Start);
    s.step(Event::Advanced { more: true });
    s.step(members(&["0", "1"]));
    assert_eq!(
        s.step(Event::Timeout),
        Action::Finish(Err(MembershipError::NoResponse { member: 1 }))
    );
}

#[test]
fn wrong_tag_and_unreadable_list_fail_at_once() {
    let group = texts(&["0"]);
    let mut s = Stabilizer::new(&group, 30, 300);
    s.step(Event::Start);
    s.step(Event::Advanced { more: true });
    let reply = MembersReply { tag: "OTHER".to_string(), members: Some(texts(&["0"])) };
    assert_eq!(
        s.step(Event::Reply(reply)),
        Action::Finish(Err(MembershipError::WrongType { member: 0 }))
    );
    let mut s = Stabilizer::new(&group, 30, 300);
    s.step(Event::Start);
    s.step(Event::Advanced { more: true });
    let reply = MembersReply { tag: "MEMBERS".to_string(), members: None };
    assert_eq!(
        s.step(Event::Reply(reply)),
        Action::Finish(Err(MembershipError::Malformed { member: 0 }))
    );
}

#[test]
fn event_out_of_turn_is_refused() {
    let group = texts(&["0"]);
    let mut s = Stabilizer::new(&group, 30, 300);
    assert_eq!(
        s.step(Event::Advanced { more: true }),
        Action::Finish(Err(MembershipError::OutOfTurn))
    );
    let mut s = Stabilizer::new(&group, 30, 300);
    s.step(Event::Start);
    assert_eq!(s.step(Event::Timeout), Action::Finish(Err(MembershipError::OutOfTurn)));
}

#[test]
fn empty_group_is_stable_from_the_start() {
    let mut s = Stabilizer::new(&Vec::new(), 30, 300);
    assert_eq!(s.step(Event::Start), Action::Finish(Ok(true)));
}

#[test]
fn repeated_members_count_once() {
    let s = Stabilizer::new(&texts(&["0", "1", "0"]), 30, 300);
    assert_eq!(s.group(), &texts(&["0", "1"]));
}

#[test]
fn ten_nodes_joining_converge_within_budget() {
    let group: Vec<String> = (0..10).map(|n| n.to_string()).collect();
    let mut s = Stabilizer::new(&group, 30, 300);
    let mut round = 0;
    let mut action = s.step(Event::Start);
    let mut asked = 0;
    loop {
        action = match action {
            Action::Advance { steps } => {
                assert_eq!(steps, 30);
                round += 1;
                s.step(Event::Advanced { more: true })
            }
            Action::Ask { member, .. } => {
                asked += 1;
                // a member has learnt of `3 * round` peers besides itself
                let known: Vec<String> =
                    group.iter().take((3 * round).max(1)).cloned().chain([group[member].clone()]).collect();
                s.step(Event::Reply(MembersReply { tag: "MEMBERS".to_string(), members: Some(known) }))
            }
            Action::Finish(verdict) => {
                assert_eq!(verdict, Ok(true));
                break;
            }
        };
    }
    assert_eq!(round, 4);
    assert_eq!(asked, 39);
    assert!(s.steps() <= 300);
}

#[test]
fn accepted_run_has_seen_the_group_from_every_member_last() {
    let group = texts(&["0", "1", "2"]);
    let mut s = Stabilizer::new(&group, 30, 300);
    s.step(Event::Start);
    s.step(Event::Advanced { more: true });
    s.step(members(&["0"]));
    s.step(members(&["1", "0", "2"]));
    assert_eq!(s.step(members(&["2", "1", "0"])), Action::Advance { steps: 30 });
    s.step(Event::Advanced { more: true });
    assert_eq!(s.step(members(&["0", "2", "1", "1"])), Action::Finish(Ok(true)));
    assert_eq!(s.observed(0), Some(&texts(&["0", "2", "1", "1"])));
    assert_eq!(s.observed(1), Some(&texts(&["1", "0", "2"])));
    assert_eq!(s.observed(2), Some(&texts(&["2", "1", "0"])));
}

#[test]
fn failure_names_the_member_it_is_about() {
    let group = texts(&["7", "3"]);
    let s = Stabilizer::new(&group, 30, 300);
    assert_eq!(s.unsettled(MembershipError::NoResponse { member: 1 }).node, Some("3".to_string()));
    assert_eq!(s.unsettled(MembershipError::WrongType { member: 0 }).node, Some("7".to_string()));
    assert_eq!(s.unsettled(MembershipError::Malformed { member: 2 }).node, None);
    assert_eq!(s.unsettled(MembershipError::NotStabilized).node, None);
    assert_eq!(s.unsettled(MembershipError::OutOfTurn).error, MembershipError::OutOfTurn);
}
