//! The scalability analyzer: bounded growth of network load with the node count,
//! and fair spread of load over the nodes.
//!
//! The same scenario is run at growing node counts. For each run the load of a
//! time window is measured from two readings of the simulation's counters. Rates
//! are never divided out: a rate is a count over a duration, and rates are
//! compared by multiplying across, in whole numbers.

use vstd::prelude::*;

verus! {

/// The counters of one node.
#[derive(Clone, Copy, Debug, PartialEq, Eq, Structural)]
pub struct NodeCounters {
    pub sent: u64,
    pub received: u64,
}

/// One reading of the simulation's counters.
#[derive(Debug)]
pub struct Reading {
    /// The simulated time, in milliseconds.
    pub time: u64,
    /// The bytes that crossed the network so far.
    pub traffic: u64,
    /// The messages that crossed the network so far.
    pub messages: u64,
    /// The counters of each node, in the order of the node list.
    pub nodes: Vec<NodeCounters>,
}

/// The load of one run over a time window.
#[derive(Clone, Copy, Debug, PartialEq, Eq, Structural)]
pub struct Measurement {
    pub node_count: u32,
    /// The length of the window in simulated milliseconds.
    pub duration: u32,
    /// The bytes that crossed the network in the window.
    pub traffic: u64,
    /// The messages that crossed the network in the window.
    pub messages: u64,
    /// The least number of messages that one node sent and received in the window.
    pub min_load: u64,
    /// The greatest number of messages that one node sent and received in the
    /// window.
    pub max_load: u64,
}

/// Which of the two assertions on a series of measurements failed first.
#[derive(Clone, Copy, Debug, PartialEq, Eq, Structural)]
pub enum ScalingError {
    /// From one size to the next, traffic or message rate grew more than twice as
    /// much as the node count.
    BadScaling,
    /// At some size the most loaded node carried more than five times the load of
    /// the least loaded one.
    BadLoadRatio,
}

/// The messages that a node has sent and received.
pub open spec fn load_of(c: NodeCounters) -> int {
    c.sent + c.received
}

/// The load that node `i` carried between two readings.
pub open spec fn load_between(before: Seq<NodeCounters>, after: Seq<NodeCounters>, i: int) -> int {
    load_of(after[i]) - load_of(before[i])
}

/// Whether node `i` counts: every node but the one left out.
pub open spec fn counted(skip: Option<usize>, i: int) -> bool {
    skip != Some(i as usize)
}

/// `m` is what the two readings measure: the differences of time, traffic and
/// message count, and the least and greatest load among the nodes that count.
pub open spec fn measures(
    m: Measurement,
    node_count: u32,
    before: Reading,
    after: Reading,
    skip: Option<usize>,
) -> bool {
    &&& m.node_count == node_count
    &&& m.duration == after.time - before.time
    &&& m.traffic == after.traffic - before.traffic
    &&& m.messages == after.messages - before.messages
    &&& forall|i: int|
        0 <= i < before.nodes.len() && counted(skip, i) ==> m.min_load <= #[trigger] load_between(
            before.nodes@,
            after.nodes@,
            i,
        ) <= m.max_load
    &&& exists|i: int|
        0 <= i < before.nodes.len() && counted(skip, i) && #[trigger] load_between(
            before.nodes@,
            after.nodes@,
            i,
        ) == m.min_load
    &&& exists|i: int|
        0 <= i < before.nodes.len() && counted(skip, i) && #[trigger] load_between(
            before.nodes@,
            after.nodes@,
            i,
        ) == m.max_load
}

/// Two readings can be measured when they cover the same nodes, at least one node
/// counts, no counter ran backwards or past its type, and the window fits the
/// measure of time.
pub open spec fn measurable(before: Reading, after: Reading, skip: Option<usize>) -> bool {
    &&& before.nodes.len() == after.nodes.len()
    &&& exists|i: int| 0 <= i < before.nodes.len() && #[trigger] counted(skip, i)
    &&& before.time <= after.time
    &&& after.time - before.time <= u32::MAX
    &&& before.traffic <= after.traffic
    &&& before.messages <= after.messages
    &&& forall|i: int|
        0 <= i < before.nodes.len() && counted(skip, i) ==> 0 <= #[trigger] load_between(
            before.nodes@,
            after.nodes@,
            i,
        ) && load_of(after.nodes[i]) <= u64::MAX
}

/// Measures the load between two readings of a run with `node_count` nodes,
/// leaving out the node at `skip` if one is given. There is no result where the
/// readings cannot be measured.
pub fn measure(node_count: u32, before: &Reading, after: &Reading, skip: Option<usize>) -> (r:
    Option<Measurement>)
    ensures
        r is Some <==> measurable(*before, *after, skip),
        r matches Some(m) ==> measures(m, node_count, *before, *after, skip),
{
    if before.nodes.len() != after.nodes.len() || before.time > after.time || after.time
        - before.time > u32::MAX as u64 || before.traffic > after.traffic || before.messages
        > after.messages {
        return None;
    }
    let mut range: Option<(u64, u64)> = None;
    let mut i: usize = 0;
    while i < before.nodes.len()
        invariant
            i <= before.nodes.len(),
            before.nodes.len() == after.nodes.len(),
            forall|k: int|
                0 <= k < i && counted(skip, k) ==> 0 <= #[trigger] load_between(
                    before.nodes@,
                    after.nodes@,
                    k,
                ) && load_of(after.nodes[k]) <= u64::MAX,
            range is None <==> forall|k: int| 0 <= k < i ==> !#[trigger] counted(skip, k),
            range matches Some((low, high)) ==> {
                &&& forall|k: int|
                    0 <= k < i && counted(skip, k) ==> low <= #[trigger] load_between(
                        before.nodes@,
                        after.nodes@,
                        k,
                    ) <= high
                &&& exists|k: int|
                    0 <= k < i && counted(skip, k) && #[trigger] load_between(
                        before.nodes@,
                        after.nodes@,
                        k,
                    ) == low
                &&& exists|k: int|
                    0 <= k < i && counted(skip, k) && #[trigger] load_between(
                        before.nodes@,
                        after.nodes@,
                        k,
                    ) == high
            },
        decreases before.nodes.len() - i,
    {
        let counts = match skip {
            Some(s) => s != i,
            None => true,
        };
        assert(counts == counted(skip, i as int));
        if counts {
            let then = before.nodes[i];
            let now = after.nodes[i];
            let ghost load = load_between(before.nodes@, after.nodes@, i as int);
            if now.received > u64::MAX - now.sent || then.received > u64::MAX - then.sent {
                proof {
                    if then.received > u64::MAX - then.sent && !(now.received > u64::MAX
                        - now.sent) {
                        assert(load < 0);
                    }
                }
                return None;
            }
            let load_now = now.sent + now.received;
            let load_then = then.sent + then.received;
            if load_now < load_then {
                assert(load < 0);
                return None;
            }
            let load = load_now - load_then;
            range = match range {
                None => Some((load, load)),
                Some((low, high)) => Some(
                    (
                        if load < low {
                            load
                        } else {
                            low
                        },
                        if load > high {
                            load
                        } else {
                            high
                        },
                    ),
                ),
            };
        }
        i += 1;
    }
    match range {
        None => None,
        Some((low, high)) => Some(
            Measurement {
                node_count,
                duration: (after.time - before.time) as u32,
                traffic: after.traffic - before.traffic,
                messages: after.messages - before.messages,
                min_load: low,
                max_load: high,
            },
        ),
    }
}

/// The load is fairly spread when the most loaded node carries at most five times
/// the load of the least loaded one.
pub open spec fn fair(m: Measurement) -> bool {
    m.max_load <= 5 * m.min_load
}

/// A count per time grew at most twice as much as the node count: the rate
/// `count / duration` of the current run, over that of the previous run, is at
/// most twice `node_count` of the current run over that of the previous one.
pub open spec fn rate_within(
    prev_count: u64,
    prev: Measurement,
    cur_count: u64,
    cur: Measurement,
) -> bool {
    cur_count * prev.duration * prev.node_count <= 2 * (prev_count * cur.duration * cur.node_count)
}

/// From `prev` to `cur`, traffic rate and message rate each grew at most twice as
/// much as the node count.
pub open spec fn scales(prev: Measurement, cur: Measurement) -> bool {
    rate_within(prev.traffic, prev, cur.traffic, cur) && rate_within(
        prev.messages,
        prev,
        cur.messages,
        cur,
    )
}

/// Every step from one size to the next scales.
pub open spec fn all_scale(ms: Seq<Measurement>) -> bool {
    forall|i: int| 0 < i < ms.len() ==> scales(ms[i - 1], #[trigger] ms[i])
}

/// At every size the load is fairly spread.
pub open spec fn all_fair(ms: Seq<Measurement>) -> bool {
    forall|i: int| 0 <= i < ms.len() ==> fair(#[trigger] ms[i])
}

/// Whether the load is fairly spread.
pub fn is_fair(m: &Measurement) -> (r: bool)
    ensures
        r == fair(*m),
{
    (m.max_load as u128) <= 5 * (m.min_load as u128)
}

fn triple(count: u64, duration: u32, node_count: u32) -> (p: u128)
    ensures
        p == count * duration * node_count,
{
    assert(count * duration <= 0xffff_ffff_ffff_ffff * 0xffff_ffff) by (nonlinear_arith)
        requires
            0 <= count <= 0xffff_ffff_ffff_ffff,
            0 <= duration <= 0xffff_ffff,
    ;
    let first: u128 = (count as u128) * (duration as u128);
    assert(first * node_count <= 0xffff_ffff_ffff_ffff * 0xffff_ffff * 0xffff_ffff)
        by (nonlinear_arith)
        requires
            0 <= first <= 0xffff_ffff_ffff_ffff * 0xffff_ffff,
            0 <= node_count <= 0xffff_ffff,
    ;
    first * (node_count as u128)
}

/// Whether a count per time grew at most twice as much as the node count.
pub fn is_rate_within(prev_count: u64, prev: &Measurement, cur_count: u64, cur: &Measurement) -> (r:
    bool)
    ensures
        r == rate_within(prev_count, *prev, cur_count, *cur),
{
    let grown = triple(cur_count, prev.duration, prev.node_count);
    let allowed = triple(prev_count, cur.duration, cur.node_count);
    grown / 2 + grown % 2 <= allowed
}

/// Whether traffic and message rates each grew at most twice as much as the node
/// count.
pub fn is_scaling(prev: &Measurement, cur: &Measurement) -> (r: bool)
    ensures
        r == scales(*prev, *cur),
{
    is_rate_within(prev.traffic, prev, cur.traffic, cur) && is_rate_within(
        prev.messages,
        prev,
        cur.messages,
        cur,
    )
}

/// The verdict on a series of measurements: bad scaling where some step does not
/// scale, else bad load ratio where some size is not fair, else success.
pub open spec fn scaling_verdict(ms: Seq<Measurement>) -> Result<bool, ScalingError> {
    if !all_scale(ms) {
        Err(ScalingError::BadScaling)
    } else if !all_fair(ms) {
        Err(ScalingError::BadLoadRatio)
    } else {
        Ok(true)
    }
}

/// The two assertions on a series of measurements taken at growing sizes: load
/// must scale from each size to the next, and must be fairly spread at every
/// size. A series that does not scale is reported as such, whether or not its
/// load is fairly spread.
pub fn check_scaling(ms: &Vec<Measurement>) -> (r: Result<bool, ScalingError>)
    ensures
        r == scaling_verdict(ms@),
{
    let mut scaling_ok = true;
    let mut load_ratio_ok = true;
    let mut i: usize = 0;
    while i < ms.len()
        invariant
            i <= ms.len(),
            scaling_ok <==> forall|k: int| 0 < k < i ==> scales(ms@[k - 1], #[trigger] ms@[k]),
            load_ratio_ok <==> forall|k: int| 0 <= k < i ==> fair(#[trigger] ms@[k]),
        decreases ms.len() - i,
    {
        if !is_fair(&ms[i]) {
            load_ratio_ok = false;
        }
        if i > 0 && !is_scaling(&ms[i - 1], &ms[i]) {
            scaling_ok = false;
        }
        i += 1;
    }
    if !scaling_ok {
        Err(ScalingError::BadScaling)
    } else if !load_ratio_ok {
        Err(ScalingError::BadLoadRatio)
    } else {
        Ok(true)
    }
}

/// The node counts at which a scenario is run: the given count once, twice, five
/// times and ten times. There is no result where ten times the count does not fit.
pub fn scaling_sizes(node_count: u32) -> (r: Option<Vec<u32>>)
    ensures
        r is Some <==> node_count * 10 <= u32::MAX,
        r matches Some(sizes) ==> sizes@ == seq![
            node_count,
            (node_count * 2) as u32,
            (node_count * 5) as u32,
            (node_count * 10) as u32,
        ],
{
    if node_count > u32::MAX / 10 {
        return None;
    }
    let mut sizes: Vec<u32> = Vec::new();
    sizes.push(node_count);
    sizes.push(node_count * 2);
    sizes.push(node_count * 5);
    sizes.push(node_count * 10);
    Some(sizes)
}

/// For runs of the same duration at `n` and `k * n` nodes, a rate scales exactly
/// when the count grew at most `2 * k` times.
pub proof fn lemma_rate_as_ratio(
    prev_count: u64,
    prev: Measurement,
    cur_count: u64,
    cur: Measurement,
    k: nat,
)
    requires
        prev.duration == cur.duration,
        prev.duration > 0,
        prev.node_count > 0,
        cur.node_count == k * prev.node_count,
    ensures
        rate_within(prev_count, prev, cur_count, cur) <==> cur_count <= 2 * k * prev_count,
{
    let d = prev.duration as int;
    let n = prev.node_count as int;
    let c = cur_count as int;
    let p = prev_count as int;
    let kk = k as int;
    assert(c * d * n == c * (d * n)) by (nonlinear_arith);
    assert(2 * (p * d * (kk * n)) == (2 * kk * p) * (d * n)) by (nonlinear_arith);
    assert(d * n > 0) by (nonlinear_arith)
        requires
            d > 0,
            n > 0,
    ;
    let q = d * n;
    let a = 2 * kk * p;
    assert((c * q <= a * q) <==> (c <= a)) by (nonlinear_arith)
        requires
            q > 0,
    ;
}

/// In an accepted series the most loaded node carries at most five times the
/// load of the least loaded one at every size, and from each size to the next
/// traffic rate and message rate each grow at most twice as much as the node
/// count.
pub proof fn lemma_accepted_series(ms: Seq<Measurement>, i: int)
    requires
        scaling_verdict(ms) is Ok,
        0 <= i < ms.len(),
    ensures
        ms[i].max_load <= 5 * ms[i].min_load,
        i > 0 ==> rate_within(ms[i - 1].traffic, ms[i - 1], ms[i].traffic, ms[i]),
        i > 0 ==> rate_within(ms[i - 1].messages, ms[i - 1], ms[i].messages, ms[i]),
{
    assert(fair(ms[i]));
    if i > 0 {
        assert(scales(ms[i - 1], ms[i]));
    }
}

/// The text that names a failed assertion on a series of measurements.
pub open spec fn scaling_error_text(error: ScalingError) -> Seq<char> {
    match error {
        ScalingError::BadScaling => "Bad network load scaling"@,
        ScalingError::BadLoadRatio => "Bad max/min node load"@,
    }
}

/// The text that names a failed assertion on a series of measurements.
pub fn describe_scaling_error(error: ScalingError) -> (r: String)
    ensures
        r@ == scaling_error_text(error),
{
    match error {
        ScalingError::BadScaling => "Bad network load scaling".to_owned(),
        ScalingError::BadLoadRatio => "Bad max/min node load".to_owned(),
    }
}

} // verus!
