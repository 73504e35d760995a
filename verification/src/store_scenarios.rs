//! The scenarios of the single-value quorum store, as scripts.
//!
//! Each scenario is a function from the key under test, its placement and the
//! values to write to the list of steps. Every read names the value that the
//! store must return at that point.

use crate::plan::ControlView;
use crate::random::{made_of_symbols, random_string};
use crate::scenario::{
    append_step, avoids, connect, delete_step, deleting, disconnect, doing, draw_cast,
    draw_values, extend, get_nothing_step, get_step, getting, heal, idle_key, is_random_key,
    is_roomy, lemma_room, partition, place, placed, put_step, putting, random_values, roomy, split,
    split_step, steps, Cast, Placement, Staged,
};
use crate::plan::copy_texts;
use crate::script::{step_views, Step, StepView};
use crate::text::{text_of, texts};
use vstd::prelude::*;

verus! {

/// The script followed, for each of the nodes, by cutting it off the network and
/// reading `value` under `key` at it from itself alone.
pub open spec fn with_isolated_gets(
    script: Seq<StepView>,
    nodes: Seq<Seq<char>>,
    key: Seq<char>,
    value: Seq<char>,
) -> Seq<StepView>
    decreases nodes.len(),
{
    if nodes.len() == 0 {
        script
    } else {
        with_isolated_gets(script, nodes.drop_last(), key, value).push(
            doing(ControlView::Disconnect { node: nodes.last() }),
        ).push(getting(nodes.last(), key, 1, Some(value)))
    }
}

/// Adds, for each of the nodes, a step that cuts it off and a read of `value`
/// under `key` at it.
pub fn add_isolated_gets(script: &mut Vec<Step>, nodes: &Vec<String>, key: &String, value: &str)
    ensures
        step_views(final(script)@) == with_isolated_gets(
            step_views(old(script)@),
            texts(nodes@),
            key@,
            value@,
        ),
{
    let ghost start = step_views(script@);
    let ghost all = texts(nodes@);
    let mut i: usize = 0;
    assert(all.take(0) == Seq::<Seq<char>>::empty());
    while i < nodes.len()
        invariant
            i <= nodes.len(),
            all == texts(nodes@),
            step_views(script@) == with_isolated_gets(start, all.take(i as int), key@, value@),
        decreases nodes.len() - i,
    {
        proof {
            assert(all.take(i + 1).drop_last() == all.take(i as int));
            assert(all.take(i + 1).last() == nodes[i as int]@);
        }
        append_step(script, disconnect(&nodes[i]));
        append_step(script, get_step(&nodes[i], key, 1, value));
        i += 1;
    }
    assert(all.take(nodes.len() as int) == all);
}

/// The basic scenario: a key that holds nothing is written, read at a replica
/// and at another node, overwritten, read, deleted, and read as holding nothing.
pub open spec fn basic_script(p: Placement, anyone: Seq<char>, value: Seq<char>, newer: Seq<char>) -> Seq<
    StepView,
> {
    let key = p.key@;
    seq![
        getting(anyone, key, 2, None),
        putting(p.replicas[0]@, key, value, 2),
        getting(p.replicas[2]@, key, 2, Some(value)),
        getting(p.others[0]@, key, 2, Some(value)),
        putting(p.others[2]@, key, newer, 2),
        getting(anyone, key, 2, Some(newer)),
        deleting(p.others[0]@, key, 2, Some(newer)),
        getting(p.replicas[2]@, key, 2, None),
        getting(p.others[0]@, key, 2, None),
    ]
}

/// The script of the basic scenario.
#[verifier::rlimit(40)]
pub fn basic(p: &Placement, anyone: &String, value: &str, newer: &str) -> (script: Vec<Step>)
    requires
        roomy(*p, 3),
    ensures
        step_views(script@) == basic_script(*p, anyone@, value@, newer@),
{
    let key = &p.key;
    let mut script: Vec<Step> = Vec::new();
    append_step(&mut script, get_nothing_step(anyone, key, 2));
    append_step(&mut script, put_step(&p.replicas[0], key, value, 2));
    append_step(&mut script, get_step(&p.replicas[2], key, 2, value));
    append_step(&mut script, get_step(&p.others[0], key, 2, value));
    append_step(&mut script, put_step(&p.others[2], key, newer, 2));
    append_step(&mut script, get_step(anyone, key, 2, newer));
    append_step(&mut script, delete_step(&p.others[0], key, 2, newer));
    append_step(&mut script, get_nothing_step(&p.replicas[2], key, 2));
    append_step(&mut script, get_nothing_step(&p.others[0], key, 2));
    script
}

/// The scenario that checks the replicas: after a write with quorum three, each
/// replica on its own must hold the value.
pub open spec fn replicas_check_script(p: Placement, value: Seq<char>) -> Seq<StepView> {
    with_isolated_gets(
        seq![putting(p.replicas[0]@, p.key@, value, 3)],
        texts(p.replicas@),
        p.key@,
        value,
    )
}

/// The script of the scenario that checks the replicas.
pub fn replicas_check(p: &Placement, value: &str) -> (script: Vec<Step>)
    requires
        roomy(*p, 0),
    ensures
        step_views(script@) == replicas_check_script(*p, value@),
{
    let key = &p.key;
    let mut script: Vec<Step> = Vec::new();
    append_step(&mut script, put_step(&p.replicas[0], key, value, 3));
    assert(step_views(script@) == seq![putting(p.replicas[0]@, p.key@, value@, 3)]);
    add_isolated_gets(&mut script, &p.replicas, key, value);
    script
}

/// The scenario of a stale replica: a replica misses a write while it is cut
/// off, and must have caught up some time after it is connected again.
pub open spec fn stale_replica_script(p: Placement, value: Seq<char>, newer: Seq<char>) -> Seq<
    StepView,
> {
    let key = p.key@;
    seq![
        putting(p.replicas[0]@, key, value, 3),
        doing(ControlView::Disconnect { node: p.replicas[2]@ }),
        putting(p.replicas[0]@, key, newer, 2),
        doing(ControlView::Disconnect { node: p.replicas[0]@ }),
        doing(ControlView::Connect { node: p.replicas[2]@ }),
        getting(p.replicas[1]@, key, 2, Some(newer)),
        doing(ControlView::Steps { count: 100 }),
        doing(ControlView::Disconnect { node: p.replicas[2]@ }),
        getting(p.replicas[2]@, key, 1, Some(newer)),
    ]
}

/// The script of the scenario of a stale replica.
#[verifier::rlimit(40)]
pub fn stale_replica(p: &Placement, value: &str, newer: &str) -> (script: Vec<Step>)
    requires
        roomy(*p, 0),
    ensures
        step_views(script@) == stale_replica_script(*p, value@, newer@),
{
    let key = &p.key;
    let mut script: Vec<Step> = Vec::new();
    append_step(&mut script, put_step(&p.replicas[0], key, value, 3));
    append_step(&mut script, disconnect(&p.replicas[2]));
    append_step(&mut script, put_step(&p.replicas[0], key, newer, 2));
    append_step(&mut script, disconnect(&p.replicas[0]));
    append_step(&mut script, connect(&p.replicas[2]));
    append_step(&mut script, get_step(&p.replicas[1], key, 2, newer));
    append_step(&mut script, steps(100));
    append_step(&mut script, disconnect(&p.replicas[2]));
    append_step(&mut script, get_step(&p.replicas[2], key, 1, newer));
    script
}

/// The steps in which replica `i` diverges: cut off, it takes a write of `newer`
/// alone. A read of another key at a node outside the replicas lets time pass
/// before the replica is connected again.
pub open spec fn divergence(p: Placement, i: int, newer: Seq<char>, idle_key: Seq<char>) -> Seq<
    StepView,
> {
    seq![
        doing(ControlView::Disconnect { node: p.replicas[i]@ }),
        putting(p.replicas[i]@, p.key@, newer, 1),
        getting(p.others[0]@, idle_key, 3, None),
        doing(ControlView::Connect { node: p.replicas[i]@ }),
    ]
}

/// The scenario of diverged replicas: each replica in turn takes a write of its
/// own while cut off. A read with quorum three must then return the last of the
/// three values.
pub open spec fn diverged_replicas_script(
    p: Placement,
    value: Seq<char>,
    newer: Seq<Seq<char>>,
    idle_keys: Seq<Seq<char>>,
) -> Seq<StepView> {
    seq![putting(p.replicas[0]@, p.key@, value, 3)] + divergence(p, 0, newer[0], idle_keys[0])
        + divergence(p, 1, newer[1], idle_keys[1]) + divergence(p, 2, newer[2], idle_keys[2])
        + seq![getting(p.replicas[0]@, p.key@, 3, Some(newer[2]))]
}

fn diverge(p: &Placement, i: usize, newer: &String, idle_key: &String) -> (part: Vec<Step>)
    requires
        roomy(*p, 1),
        i < 3,
    ensures
        step_views(part@) == divergence(*p, i as int, newer@, idle_key@),
{
    let mut part: Vec<Step> = Vec::new();
    append_step(&mut part, disconnect(&p.replicas[i]));
    append_step(&mut part, put_step(&p.replicas[i], &p.key, newer.as_str(), 1));
    append_step(&mut part, get_nothing_step(&p.others[0], idle_key, 3));
    append_step(&mut part, connect(&p.replicas[i]));
    part
}

/// The script of the scenario of diverged replicas.
pub fn diverged_replicas(p: &Placement, value: &str, newer: &Vec<String>, idle_keys: &Vec<String>) -> (script:
    Vec<Step>)
    requires
        roomy(*p, 1),
        newer.len() == 3,
        idle_keys.len() == 3,
    ensures
        step_views(script@) == diverged_replicas_script(
            *p,
            value@,
            texts(newer@),
            texts(idle_keys@),
        ),
{
    let key = &p.key;
    let mut script: Vec<Step> = Vec::new();
    append_step(&mut script, put_step(&p.replicas[0], key, value, 3));
    assert(step_views(script@) == seq![putting(p.replicas[0]@, p.key@, value@, 3)]);
    extend(&mut script, diverge(p, 0, &newer[0], &idle_keys[0]));
    extend(&mut script, diverge(p, 1, &newer[1], &idle_keys[1]));
    extend(&mut script, diverge(p, 2, &newer[2], &idle_keys[2]));
    let last = get_step(&p.replicas[0], key, 3, newer[2].as_str());
    let ghost before = step_views(script@);
    append_step(&mut script, last);
    assert(before.push(last@) == before + seq![last@]);
    script
}

/// The scenario of sloppy quorum: with one replica cut off, a write and a read
/// with quorum three must still succeed, and the replica must hold the value
/// some time after it is connected again.
pub open spec fn sloppy_quorum_script(
    p: Placement,
    anyone: Seq<char>,
    value: Seq<char>,
    newer: Seq<char>,
) -> Seq<StepView> {
    let key = p.key@;
    seq![
        putting(anyone, key, value, 3),
        doing(ControlView::Disconnect { node: p.replicas[0]@ }),
        putting(p.replicas[1]@, key, newer, 3),
        getting(p.replicas[2]@, key, 3, Some(newer)),
        doing(ControlView::Connect { node: p.replicas[0]@ }),
        doing(ControlView::Steps { count: 100 }),
        doing(ControlView::Disconnect { node: p.replicas[0]@ }),
        getting(p.replicas[0]@, key, 1, Some(newer)),
    ]
}

/// The script of the scenario of sloppy quorum.
#[verifier::rlimit(40)]
pub fn sloppy_quorum(p: &Placement, anyone: &String, value: &str, newer: &str) -> (script: Vec<
    Step,
>)
    requires
        roomy(*p, 0),
    ensures
        step_views(script@) == sloppy_quorum_script(*p, anyone@, value@, newer@),
{
    let key = &p.key;
    let mut script: Vec<Step> = Vec::new();
    append_step(&mut script, put_step(anyone, key, value, 3));
    append_step(&mut script, disconnect(&p.replicas[0]));
    append_step(&mut script, put_step(&p.replicas[1], key, newer, 3));
    append_step(&mut script, get_step(&p.replicas[2], key, 3, newer));
    append_step(&mut script, connect(&p.replicas[0]));
    append_step(&mut script, steps(100));
    append_step(&mut script, disconnect(&p.replicas[0]));
    append_step(&mut script, get_step(&p.replicas[0], key, 1, newer));
    script
}

/// The scenario of a client cut off from all replicas: with the replicas on one
/// side of a partition and all other nodes on the other, a write and a read at
/// two of the other nodes must still succeed.
pub open spec fn partitioned_client_script(p: Placement, value: Seq<char>) -> Seq<StepView> {
    seq![
        doing(ControlView::Partition { first: texts(p.replicas@), second: texts(p.others@) }),
        putting(p.others[0]@, p.key@, value, 2),
        getting(p.others[1]@, p.key@, 2, Some(value)),
    ]
}

/// The script of the scenario of a client cut off from all replicas.
pub fn partitioned_client(p: &Placement, value: &str) -> (script: Vec<Step>)
    requires
        roomy(*p, 2),
    ensures
        step_views(script@) == partitioned_client_script(*p, value@),
{
    let key = &p.key;
    let mut script: Vec<Step> = Vec::new();
    append_step(&mut script, partition(copy_texts(&p.replicas), copy_texts(&p.others)));
    append_step(&mut script, put_step(&p.others[0], key, value, 2));
    append_step(&mut script, get_step(&p.others[1], key, 2, value));
    script
}

/// The three marked values of the scenario of clients on both sides of a
/// partition: `value` with `-1`, with `-1-2` and with `-3` added.
pub open spec fn marked(value: Seq<char>) -> (Seq<char>, Seq<char>, Seq<char>) {
    (value + "-1"@, value + "-1"@ + "-2"@, value + "-3"@)
}

/// The steps of the scenario of clients on both sides of a partition, up to the
/// healing of the network: each side reads the value, writes it with a mark of
/// its own added, and checks that by a read; one side does so twice.
pub open spec fn partitioned_clients_steps(p: Placement, anyone: Seq<char>, value: Seq<char>) -> Seq<
    StepView,
> {
    let key = p.key@;
    let (once, twice, other) = marked(value);
    seq![
        putting(anyone, key, value, 2),
        split(p),
        getting(p.others[0]@, key, 2, Some(value)),
        putting(p.others[0]@, key, once, 2),
        getting(p.others[1]@, key, 2, Some(once)),
        putting(p.others[1]@, key, twice, 2),
        getting(p.others[1]@, key, 2, Some(twice)),
        getting(p.others[2]@, key, 2, Some(value)),
        putting(p.others[2]@, key, other, 2),
        getting(p.others[2]@, key, 2, Some(other)),
        doing(ControlView::ResetNetwork),
        doing(ControlView::Steps { count: 100 }),
        getting(p.others[0]@, key, 2, Some(other)),
        getting(p.others[1]@, key, 2, Some(other)),
        getting(p.others[2]@, key, 2, Some(other)),
    ]
}

/// The scenario of clients on both sides of a partition: after the network
/// healed, every client and then every replica on its own must hold the value
/// that was written last.
pub open spec fn partitioned_clients_script(p: Placement, anyone: Seq<char>, value: Seq<char>) -> Seq<
    StepView,
> {
    with_isolated_gets(
        partitioned_clients_steps(p, anyone, value),
        texts(p.replicas@),
        p.key@,
        marked(value).2,
    )
}

fn with_mark(value: &str, mark: &str) -> (r: String)
    ensures
        r@ == value@ + mark@,
{
    let mut r = text_of(value);
    r.append(mark);
    r
}

/// The script of the scenario of clients on both sides of a partition.
#[verifier::rlimit(80)]
pub fn partitioned_clients(p: &Placement, anyone: &String, value: &str) -> (script: Vec<Step>)
    requires
        roomy(*p, 3),
    ensures
        step_views(script@) == partitioned_clients_script(*p, anyone@, value@),
{
    let key = &p.key;
    let once = with_mark(value, "-1");
    let twice = with_mark(once.as_str(), "-2");
    let other = with_mark(value, "-3");
    let mut script: Vec<Step> = Vec::new();
    append_step(&mut script, put_step(anyone, key, value, 2));
    append_step(&mut script, split_step(p));
    append_step(&mut script, get_step(&p.others[0], key, 2, value));
    append_step(&mut script, put_step(&p.others[0], key, once.as_str(), 2));
    append_step(&mut script, get_step(&p.others[1], key, 2, once.as_str()));
    append_step(&mut script, put_step(&p.others[1], key, twice.as_str(), 2));
    append_step(&mut script, get_step(&p.others[1], key, 2, twice.as_str()));
    append_step(&mut script, get_step(&p.others[2], key, 2, value));
    append_step(&mut script, put_step(&p.others[2], key, other.as_str(), 2));
    append_step(&mut script, get_step(&p.others[2], key, 2, other.as_str()));
    append_step(&mut script, heal());
    append_step(&mut script, steps(100));
    append_step(&mut script, get_step(&p.others[0], key, 2, other.as_str()));
    append_step(&mut script, get_step(&p.others[1], key, 2, other.as_str()));
    append_step(&mut script, get_step(&p.others[2], key, 2, other.as_str()));
    assert(step_views(script@) == partitioned_clients_steps(*p, anyone@, value@));
    add_isolated_gets(&mut script, &p.replicas, key, other.as_str());
    script
}

/// The scenarios of the single-value store.
#[derive(Clone, Copy, Debug, PartialEq, Eq, Structural)]
pub enum Kind {
    Basic,
    ReplicasCheck,
    StaleReplica,
    DivergedReplicas,
    SloppyQuorum,
    PartitionedClient,
    PartitionedClients,
}

/// How many nodes outside the replicas a scenario needs.
pub open spec fn room_needed(kind: Kind) -> nat {
    match kind {
        Kind::Basic | Kind::PartitionedClients => 3,
        Kind::PartitionedClient => 2,
        Kind::DivergedReplicas => 1,
        _ => 0,
    }
}

/// How many random values a scenario writes.
pub open spec fn values_drawn(kind: Kind) -> nat {
    match kind {
        Kind::ReplicasCheck | Kind::PartitionedClient | Kind::PartitionedClients => 1,
        Kind::DivergedReplicas => 4,
        _ => 2,
    }
}

/// The keys of all scenarios but one are random keys in upper case; the scenario
/// that checks the replicas uses eight symbols as they are drawn.
pub open spec fn key_fits(kind: Kind, key: Seq<char>) -> bool {
    match kind {
        Kind::ReplicasCheck => key.len() == 8 && made_of_symbols(key),
        _ => is_random_key(key, ""@),
    }
}

/// The script of a scenario for a cast.
pub open spec fn script_for(
    kind: Kind,
    p: Placement,
    nodes: Seq<Seq<char>>,
    values: Seq<Seq<char>>,
    idle_keys: Seq<Seq<char>>,
) -> Seq<StepView> {
    match kind {
        Kind::Basic => basic_script(p, nodes[0], values[0], values[1]),
        Kind::ReplicasCheck => replicas_check_script(p, values[0]),
        Kind::StaleReplica => stale_replica_script(p, values[0], values[1]),
        Kind::DivergedReplicas => diverged_replicas_script(p, values[0], values.skip(1), idle_keys),
        Kind::SloppyQuorum => sloppy_quorum_script(p, nodes[0], values[0], values[1]),
        Kind::PartitionedClient => partitioned_client_script(p, values[0]),
        Kind::PartitionedClients => partitioned_clients_script(p, nodes[0], values[0]),
    }
}

/// What holds of a staged scenario: the key fits the scenario and is placed
/// among the nodes with room enough, the values are random, every idle key
/// avoids the replica that is cut off while it is read, and the script is that
/// of the scenario for this cast.
pub open spec fn staged(kind: Kind, nodes: Seq<Seq<char>>, s: Staged) -> bool {
    let p = s.cast.placement;
    &&& key_fits(kind, p.key@)
    &&& placed(p, p.key@, nodes)
    &&& roomy(p, room_needed(kind))
    &&& s.cast.values.len() == values_drawn(kind)
    &&& random_values(texts(s.cast.values@))
    &&& forall|i: int|
        0 <= i < s.idle_keys.len() ==> i < 3 && avoids(
            #[trigger] texts(s.idle_keys@)[i],
            p.replicas[i]@,
            nodes.len(),
        )
    &&& step_views(s.script@) == script_for(
        kind,
        p,
        nodes,
        texts(s.cast.values@),
        texts(s.idle_keys@),
    )
}

fn first_values(kind: Kind) -> (count: usize)
    ensures
        count == if kind is DivergedReplicas {
            1
        } else {
            values_drawn(kind)
        },
{
    match kind {
        Kind::ReplicasCheck | Kind::PartitionedClient | Kind::PartitionedClients
        | Kind::DivergedReplicas => 1,
        _ => 2,
    }
}

fn room_of(kind: Kind) -> (room: usize)
    ensures
        room == room_needed(kind),
{
    match kind {
        Kind::Basic | Kind::PartitionedClients => 3,
        Kind::PartitionedClient => 2,
        Kind::DivergedReplicas => 1,
        _ => 0,
    }
}

fn cast_for(kind: Kind, nodes: &Vec<String>, rng: &mut rand_pcg::Pcg64) -> (r: Option<Cast>)
    ensures
        r is Some <==> 0 < nodes.len() <= u32::MAX,
        r matches Some(cast) ==> {
            &&& key_fits(kind, cast.placement.key@)
            &&& placed(cast.placement, cast.placement.key@, texts(nodes@))
            &&& cast.values.len() == if kind is DivergedReplicas {
                1
            } else {
                values_drawn(kind)
            }
            &&& random_values(texts(cast.values@))
        },
{
    match kind {
        Kind::ReplicasCheck => {
            if nodes.len() == 0 || nodes.len() > u32::MAX as usize {
                return None;
            }
            let key = random_string(8, rng);
            let values = draw_values(1, rng);
            Some(Cast { placement: place(key, nodes), values })
        },
        _ => {
            proof {
                reveal_strlit("");
            }
            draw_cast("", nodes, first_values(kind), rng)
        },
    }
}

/// Stages a scenario: draws its key and values in the order in which the
/// scenario uses them, places the key, and writes the script. There is no result
/// where the cluster has no nodes or too few outside the replicas of the key
/// drawn, or where no idle key was drawn within `max_draws` draws, as is the case
/// where no draw is allowed. A cluster of
/// nodes that are all different has room for a scenario where it has three nodes
/// more than the scenario needs outside the replicas.
pub fn stage(kind: Kind, nodes: &Vec<String>, rng: &mut rand_pcg::Pcg64, max_draws: u32) -> (r:
    Option<Staged>)
    ensures
        r matches Some(s) ==> staged(kind, texts(nodes@), s),
        r is None ==> {
            ||| nodes.len() == 0
            ||| nodes.len() > u32::MAX
            ||| nodes.len() < room_needed(kind) + 3
            ||| !texts(nodes@).no_duplicates()
            ||| kind is DivergedReplicas
        },
        nodes.len() == 0 ==> r is None,
        kind is DivergedReplicas && max_draws == 0 ==> r is None,
{
    let cast = match cast_for(kind, nodes, rng) {
        Some(cast) => cast,
        None => {
            return None;
        },
    };
    if !is_roomy(&cast.placement, room_of(kind)) {
        proof {
            if texts(nodes@).no_duplicates() {
                lemma_room(cast.placement, cast.placement.key@, texts(nodes@));
            }
        }
        return None;
    }
    let mut cast = cast;
    let mut idle_keys: Vec<String> = Vec::new();
    let p = &cast.placement;
    assert(texts(nodes@)[0] == nodes[0]@);
    assert(texts(cast.values@)[0] == cast.values[0]@);
    let script = match kind {
        Kind::Basic => {
            assert(texts(cast.values@)[1] == cast.values[1]@);
            basic(p, &nodes[0], cast.values[0].as_str(), cast.values[1].as_str())
        },
        Kind::ReplicasCheck => replicas_check(p, cast.values[0].as_str()),
        Kind::StaleReplica => {
            assert(texts(cast.values@)[1] == cast.values[1]@);
            stale_replica(p, cast.values[0].as_str(), cast.values[1].as_str())
        },
        Kind::SloppyQuorum => {
            assert(texts(cast.values@)[1] == cast.values[1]@);
            sloppy_quorum(p, &nodes[0], cast.values[0].as_str(), cast.values[1].as_str())
        },
        Kind::PartitionedClient => partitioned_client(p, cast.values[0].as_str()),
        Kind::PartitionedClients => partitioned_clients(p, &nodes[0], cast.values[0].as_str()),
        Kind::DivergedReplicas => {
            let value = cast.values[0].clone();
            let mut newer: Vec<String> = Vec::new();
            let mut i: usize = 0;
            while i < 3
                invariant
                    kind is DivergedReplicas,
                    i <= 3,
                    max_draws == 0 ==> i == 0,
                    0 < nodes.len() <= u32::MAX,
                    cast.placement.replicas.len() == 3,
                    newer.len() == i,
                    idle_keys.len() == i,
                    random_values(texts(newer@)),
                    forall|k: int|
                        0 <= k < i ==> avoids(
                            #[trigger] texts(idle_keys@)[k],
                            cast.placement.replicas[k]@,
                            nodes.len() as nat,
                        ),
                decreases 3 - i,
            {
                let ghost newer_before = texts(newer@);
                let ghost idle_before = texts(idle_keys@);
                let next = random_string(8, rng);
                let idle = match idle_key(
                    &cast.placement.replicas[i],
                    nodes.len() as u32,
                    rng,
                    max_draws,
                ) {
                    Some(key) => key,
                    None => {
                        return None;
                    },
                };
                newer.push(next);
                idle_keys.push(idle);
                proof {
                    assert forall|k: int| 0 <= k < newer.len() implies (#[trigger] texts(
                        newer@,
                    )[k]).len() == 8 && made_of_symbols(texts(newer@)[k]) by {
                        if k < i {
                            assert(texts(newer@)[k] == newer_before[k]);
                        }
                    }
                    assert forall|k: int| 0 <= k < i + 1 implies avoids(
                        #[trigger] texts(idle_keys@)[k],
                        cast.placement.replicas[k]@,
                        nodes.len() as nat,
                    ) by {
                        if k < i {
                            assert(texts(idle_keys@)[k] == idle_before[k]);
                        }
                    }
                }
                i += 1;
            }
            let script = diverged_replicas(&cast.placement, value.as_str(), &newer, &idle_keys);
            let ghost first = texts(cast.values@);
            let ghost later = texts(newer@);
            let mut values: Vec<String> = Vec::new();
            values.push(value);
            let mut newer = newer;
            values.append(&mut newer);
            proof {
                assert(texts(values@) == seq![first[0]] + later);
                assert(texts(values@).skip(1) == later);
                assert(texts(values@)[0] == first[0]);
                assert forall|k: int| 0 <= k < values.len() implies (#[trigger] texts(
                    values@,
                )[k]).len() == 8 && made_of_symbols(texts(values@)[k]) by {
                    if k == 0 {
                        assert(texts(values@)[0] == first[0]);
                    } else {
                        assert(texts(values@)[k] == later[k - 1]);
                    }
                }
            }
            cast.values = values;
            script
        },
    };
    Some(Staged { cast, idle_keys, script })
}

} // verus!
