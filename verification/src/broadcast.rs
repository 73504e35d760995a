//! The broadcast property oracle: no duplication, no creation, validity, uniform
//! agreement and causal order.
//!
//! Each node's trace is first read into a history of message texts: what the node
//! was asked to broadcast, what it delivered, and both interleaved as they
//! happened. The five properties are then judged independently of one another, and
//! every violated one is reported.

use crate::text::{
    all_contained, all_distinct, before_first, contains_text, is_first_at, lemma_before_first,
    position_of, text_of, texts,
};
use crate::trace::{event_views, EventKind, LocalEvent, LocalEventView};
use vstd::prelude::*;

verus! {

/// The text under the key `key` of the JSON object that `data` spells, where
/// `data` is such an object and holds a string there.
pub uninterp spec fn json_text_field(data: Seq<char>, key: Seq<char>) -> Option<Seq<char>>;

/// Parses `data` with `serde_json::from_str` into a `serde_json::Value` and reads
/// the string under `key` with `Value::get`. The result is `None` where `data` is
/// not JSON, is no object, has no such key or holds something other than a
/// string there. It depends on `data` and `key` alone.
#[verifier::external_body]
fn text_field(data: &str, key: &str) -> (r: Option<String>)
    ensures
        match r {
            Some(t) => json_text_field(data@, key@) == Some(t@),
            None => json_text_field(data@, key@) is None,
        },
{
    let parsed: Result<serde_json::Value, serde_json::Error> = serde_json::from_str(data);
    match parsed {
        Ok(value) => match value.get(key) {
            Some(serde_json::Value::String(s)) => Some(s.clone()),
            _ => None,
        },
        Err(_) => None,
    }
}

/// The key under which a payload holds the text of a message.
pub open spec fn message_key() -> Seq<char> {
    "message"@
}

/// The text of the message that a payload holds, where it holds one.
pub open spec fn json_message_field(data: Seq<char>) -> Option<Seq<char>> {
    json_text_field(data, message_key())
}

/// The text of the message that a payload holds, where it holds one.
pub fn message_field(data: &str) -> (r: Option<String>)
    ensures
        match r {
            Some(t) => json_message_field(data@) == Some(t@),
            None => json_message_field(data@) is None,
        },
{
    text_field(data, "message")
}

/// A node's trace as the simulation recorded it.
#[derive(Debug)]
pub struct NodeTrace {
    pub node: String,
    pub crashed: bool,
    pub events: Vec<LocalEvent>,
}

/// What a [`NodeTrace`] holds.
pub struct NodeTraceView {
    pub node: Seq<char>,
    pub crashed: bool,
    pub events: Seq<LocalEventView>,
}

impl View for NodeTrace {
    type V = NodeTraceView;

    open spec fn view(&self) -> NodeTraceView {
        NodeTraceView { node: self.node@, crashed: self.crashed, events: event_views(self.events@) }
    }
}

/// A node's history in message texts.
#[derive(Debug)]
pub struct NodeHistory {
    pub node: String,
    pub crashed: bool,
    /// The messages that the node was asked to broadcast, in order.
    pub sent: Vec<String>,
    /// The messages that the node delivered, in order.
    pub delivered: Vec<String>,
    /// Both, interleaved in the order in which they happened.
    pub history: Vec<String>,
}

/// What a [`NodeHistory`] holds.
pub struct HistoryView {
    pub node: Seq<char>,
    pub crashed: bool,
    pub sent: Seq<Seq<char>>,
    pub delivered: Seq<Seq<char>>,
    pub history: Seq<Seq<char>>,
}

impl View for NodeHistory {
    type V = HistoryView;

    open spec fn view(&self) -> HistoryView {
        HistoryView {
            node: self.node@,
            crashed: self.crashed,
            sent: texts(self.sent@),
            delivered: texts(self.delivered@),
            history: texts(self.history@),
        }
    }
}

/// The views of a list of histories, in order.
pub open spec fn history_views(v: Seq<NodeHistory>) -> Seq<HistoryView> {
    v.map_values(|h: NodeHistory| h@)
}

/// The views of a list of traces, in order.
pub open spec fn trace_views(v: Seq<NodeTrace>) -> Seq<NodeTraceView> {
    v.map_values(|t: NodeTrace| t@)
}

/// The message text that an event carries; arbitrary where it carries none.
pub open spec fn event_text(e: LocalEventView) -> Seq<char> {
    match json_message_field(e.message.payload) {
        Some(t) => t,
        None => Seq::<char>::empty(),
    }
}

/// Every event of the trace carries a message text.
pub open spec fn readable(events: Seq<LocalEventView>) -> bool {
    forall|i: int|
        0 <= i < events.len() ==> json_message_field((#[trigger] events[i]).message.payload) is Some
}

/// The message texts of the events of one kind, in order.
pub open spec fn texts_of_kind(events: Seq<LocalEventView>, kind: EventKind) -> Seq<Seq<char>> {
    events.filter(|e: LocalEventView| e.kind == kind).map_values(|e: LocalEventView| event_text(e))
}

/// The history that a readable trace amounts to.
pub open spec fn history_of(t: NodeTraceView) -> HistoryView {
    HistoryView {
        node: t.node,
        crashed: t.crashed,
        sent: texts_of_kind(t.events, EventKind::Originate),
        delivered: texts_of_kind(t.events, EventKind::Deliver),
        history: t.events.map_values(|e: LocalEventView| event_text(e)),
    }
}

/// Reads a trace into a history. There is none where an event carries no message
/// text.
pub fn collect_history(trace: &NodeTrace) -> (r: Option<NodeHistory>)
    ensures
        r is Some <==> readable(trace@.events),
        r matches Some(h) ==> h@ == history_of(trace@),
{
    let ghost all = trace@.events;
    let ghost originated = |e: LocalEventView| e.kind == EventKind::Originate;
    let ghost handed = |e: LocalEventView| e.kind == EventKind::Deliver;
    let ghost read = |e: LocalEventView| event_text(e);
    let mut sent: Vec<String> = Vec::new();
    let mut delivered: Vec<String> = Vec::new();
    let mut history: Vec<String> = Vec::new();
    let mut i: usize = 0;
    proof {
        reveal(Seq::filter);
        assert(all.take(0).filter(originated) == Seq::<LocalEventView>::empty());
        assert(all.take(0).filter(handed) == Seq::<LocalEventView>::empty());
    }
    while i < trace.events.len()
        invariant
            i <= trace.events.len(),
            all == trace@.events,
            all.len() == trace.events.len(),
            originated == |e: LocalEventView| e.kind == EventKind::Originate,
            handed == |e: LocalEventView| e.kind == EventKind::Deliver,
            read == |e: LocalEventView| event_text(e),
            forall|j: int| 0 <= j < i ==> json_message_field((#[trigger] all[j]).message.payload) is Some,
            texts(sent@) == all.take(i as int).filter(originated).map_values(read),
            texts(delivered@) == all.take(i as int).filter(handed).map_values(read),
            texts(history@) == all.take(i as int).map_values(read),
        decreases trace.events.len() - i,
    {
        let ghost seen = all.take(i as int);
        let ghost e = all[i as int];
        let ghost sent_before = texts(sent@);
        let ghost delivered_before = texts(delivered@);
        let ghost history_before = texts(history@);
        proof {
            assert(all.take(i + 1) == seen.push(e));
            seen.lemma_filter_push(e, originated);
            seen.lemma_filter_push(e, handed);
        }
        match message_field(trace.events[i].message.payload.as_str()) {
            None => {
                return None;
            },
            Some(text) => {
                assert(text@ == event_text(e));
                match trace.events[i].kind {
                    EventKind::Originate => {
                        sent.push(text.clone());
                        assert(texts(sent@) == sent_before.push(text@));
                        assert(seen.filter(originated).push(e).map_values(read) == seen.filter(
                            originated,
                        ).map_values(read).push(text@));
                    },
                    EventKind::Deliver => {
                        delivered.push(text.clone());
                        assert(texts(delivered@) == delivered_before.push(text@));
                        assert(seen.filter(handed).push(e).map_values(read) == seen.filter(
                            handed,
                        ).map_values(read).push(text@));
                    },
                }
                history.push(text);
                assert(texts(history@) == history_before.push(event_text(e)));
                assert(seen.push(e).map_values(read) == seen.map_values(read).push(event_text(e)));
            },
        }
        i += 1;
    }
    assert(all.take(trace.events.len() as int) == all);
    Some(NodeHistory { node: trace.node.clone(), crashed: trace.crashed, sent, delivered, history })
}

/// Reads every trace into a history. There is no result where some event carries
/// no message text.
pub fn collect_histories(traces: &Vec<NodeTrace>) -> (r: Option<Vec<NodeHistory>>)
    ensures
        r is Some <==> forall|n: int|
            0 <= n < traces.len() ==> readable((#[trigger] trace_views(traces@)[n]).events),
        r matches Some(hs) ==> hs.len() == traces.len() && forall|n: int|
            0 <= n < traces.len() ==> (#[trigger] history_views(hs@)[n]) == history_of(
                trace_views(traces@)[n],
            ),
{
    let mut out: Vec<NodeHistory> = Vec::new();
    let mut n: usize = 0;
    while n < traces.len()
        invariant
            n <= traces.len(),
            out.len() == n,
            forall|m: int| 0 <= m < n ==> readable((#[trigger] trace_views(traces@)[m]).events),
            forall|m: int|
                0 <= m < n ==> (#[trigger] history_views(out@)[m]) == history_of(
                    trace_views(traces@)[m],
                ),
        decreases traces.len() - n,
    {
        match collect_history(&traces[n]) {
            None => {
                assert(!readable(trace_views(traces@)[n as int].events));
                return None;
            },
            Some(h) => {
                let ghost before = history_views(out@);
                out.push(h);
                assert forall|m: int| 0 <= m < n + 1 implies (#[trigger] history_views(out@)[m])
                    == history_of(trace_views(traces@)[m]) by {
                    if m < n {
                        assert(history_views(out@)[m] == before[m]);
                    }
                }
            },
        }
        n += 1;
    }
    Some(out)
}

/// No node delivered the same message twice.
pub open spec fn no_duplication(hs: Seq<HistoryView>) -> bool {
    forall|n: int| 0 <= n < hs.len() ==> (#[trigger] hs[n]).delivered.no_duplicates()
}

/// Some node was asked to broadcast `p`.
pub open spec fn was_sent(hs: Seq<HistoryView>, p: Seq<char>) -> bool {
    exists|m: int| 0 <= m < hs.len() && (#[trigger] hs[m]).sent.contains(p)
}

/// Every delivered message was broadcast by some node.
pub open spec fn no_creation(hs: Seq<HistoryView>) -> bool {
    forall|n: int, i: int|
        0 <= n < hs.len() && 0 <= i < hs[n].delivered.len() ==> was_sent(
            hs,
            #[trigger] hs[n].delivered[i],
        )
}

/// A node that did not crash delivered every message it was asked to broadcast.
pub open spec fn node_valid(h: HistoryView) -> bool {
    !h.crashed ==> h.sent.to_set().subset_of(h.delivered.to_set())
}

/// Every node that did not crash delivered its own messages.
pub open spec fn validity(hs: Seq<HistoryView>) -> bool {
    forall|n: int| 0 <= n < hs.len() ==> node_valid(#[trigger] hs[n])
}

/// Where `to` did not crash, it delivered every message that `from` delivered.
pub open spec fn agrees(from: HistoryView, to: HistoryView) -> bool {
    !to.crashed ==> from.delivered.to_set().subset_of(to.delivered.to_set())
}

/// Every message delivered by any node, crashed or not, was delivered by every
/// node that did not crash.
pub open spec fn uniform_agreement(hs: Seq<HistoryView>) -> bool {
    forall|m: int, n: int|
        0 <= m < hs.len() && 0 <= n < hs.len() ==> agrees(#[trigger] hs[m], #[trigger] hs[n])
}

/// Where `dst` did not crash and delivered `msg`, it had delivered before it all
/// that stands in the history of `src` before `msg`.
pub open spec fn causal_for(src: HistoryView, msg: Seq<char>, dst: HistoryView) -> bool {
    !dst.crashed && dst.delivered.contains(msg) ==> before_first(src.history, msg).to_set().subset_of(
        before_first(dst.delivered, msg).to_set(),
    )
}

/// `causal_for` for the message at `i` among those that node `s` broadcast, and
/// node `d`.
pub open spec fn causal_at(hs: Seq<HistoryView>, s: int, i: int, d: int) -> bool {
    causal_for(hs[s], hs[s].sent[i], hs[d])
}

/// Every node that did not crash delivered, before each message, what its sender
/// had sent or delivered before sending it.
pub open spec fn causal_order(hs: Seq<HistoryView>) -> bool {
    forall|s: int, i: int, d: int|
        0 <= s < hs.len() && 0 <= i < hs[s].sent.len() && 0 <= d < hs.len() ==> #[trigger] causal_at(
            hs,
            s,
            i,
            d,
        )
}

/// Whether the first `na` items of `a` all occur among the first `nb` items of `b`.
pub fn prefix_contained(a: &Vec<String>, na: usize, b: &Vec<String>, nb: usize) -> (r: bool)
    requires
        na <= a.len(),
        nb <= b.len(),
    ensures
        r == texts(a@).take(na as int).to_set().subset_of(texts(b@).take(nb as int).to_set()),
{
    let ghost pa = texts(a@).take(na as int);
    let ghost pb = texts(b@).take(nb as int);
    let mut i: usize = 0;
    while i < na
        invariant
            i <= na <= a.len(),
            nb <= b.len(),
            pa == texts(a@).take(na as int),
            pb == texts(b@).take(nb as int),
            forall|j: int| 0 <= j < i ==> pb.contains(#[trigger] pa[j]),
        decreases na - i,
    {
        let mut found = false;
        let mut k: usize = 0;
        while k < nb && !found
            invariant
                k <= nb <= b.len(),
                i < na <= a.len(),
                pa == texts(a@).take(na as int),
                pb == texts(b@).take(nb as int),
                !found ==> forall|j: int| 0 <= j < k ==> pb[j] != pa[i as int],
                found ==> pb.contains(pa[i as int]),
            decreases nb - k + (if found { 0int } else { 1int }),
        {
            if b[k] == a[i] {
                assert(pb[k as int] == pa[i as int]);
                found = true;
            } else {
                k += 1;
            }
        }
        if !found {
            assert(pa.to_set().contains(pa[i as int]));
            assert(!pb.to_set().contains(pa[i as int]));
            return false;
        }
        i += 1;
    }
    true
}

/// Whether some node was asked to broadcast `p`.
pub fn sent_somewhere(hs: &Vec<NodeHistory>, p: &String) -> (r: bool)
    ensures
        r == was_sent(history_views(hs@), p@),
{
    let ghost views = history_views(hs@);
    let mut m: usize = 0;
    while m < hs.len()
        invariant
            m <= hs.len(),
            views == history_views(hs@),
            forall|j: int| 0 <= j < m ==> !(#[trigger] views[j]).sent.contains(p@),
        decreases hs.len() - m,
    {
        if contains_text(&hs[m].sent, p) {
            assert(views[m as int].sent.contains(p@));
            return true;
        }
        m += 1;
    }
    false
}

/// Whether no node delivered the same message twice.
pub fn holds_no_duplication(hs: &Vec<NodeHistory>) -> (r: bool)
    ensures
        r == no_duplication(history_views(hs@)),
{
    let ghost views = history_views(hs@);
    let mut n: usize = 0;
    while n < hs.len()
        invariant
            n <= hs.len(),
            views == history_views(hs@),
            forall|j: int| 0 <= j < n ==> (#[trigger] views[j]).delivered.no_duplicates(),
        decreases hs.len() - n,
    {
        if !all_distinct(&hs[n].delivered) {
            assert(!views[n as int].delivered.no_duplicates());
            return false;
        }
        n += 1;
    }
    true
}

/// Whether every delivered message was broadcast by some node.
pub fn holds_no_creation(hs: &Vec<NodeHistory>) -> (r: bool)
    ensures
        r == no_creation(history_views(hs@)),
{
    let ghost views = history_views(hs@);
    let mut n: usize = 0;
    while n < hs.len()
        invariant
            n <= hs.len(),
            views == history_views(hs@),
            forall|j: int, i: int|
                0 <= j < n && 0 <= i < views[j].delivered.len() ==> was_sent(
                    views,
                    #[trigger] views[j].delivered[i],
                ),
        decreases hs.len() - n,
    {
        let mut i: usize = 0;
        while i < hs[n].delivered.len()
            invariant
                n < hs.len(),
                i <= hs[n as int].delivered.len(),
                views == history_views(hs@),
                views[n as int].delivered.len() == hs[n as int].delivered.len(),
                forall|k: int| 0 <= k < i ==> was_sent(views, #[trigger] views[n as int].delivered[k]),
            decreases hs[n as int].delivered.len() - i,
        {
            if !sent_somewhere(hs, &hs[n].delivered[i]) {
                assert(!was_sent(views, views[n as int].delivered[i as int]));
                return false;
            }
            i += 1;
        }
        n += 1;
    }
    true
}

/// Whether every node that did not crash delivered its own messages.
pub fn holds_validity(hs: &Vec<NodeHistory>) -> (r: bool)
    ensures
        r == validity(history_views(hs@)),
{
    let ghost views = history_views(hs@);
    let mut n: usize = 0;
    while n < hs.len()
        invariant
            n <= hs.len(),
            views == history_views(hs@),
            forall|j: int| 0 <= j < n ==> node_valid(#[trigger] views[j]),
        decreases hs.len() - n,
    {
        if !hs[n].crashed && !all_contained(&hs[n].sent, &hs[n].delivered) {
            assert(!node_valid(views[n as int]));
            return false;
        }
        n += 1;
    }
    true
}

/// Whether every delivered message was delivered by every node that did not crash.
pub fn holds_uniform_agreement(hs: &Vec<NodeHistory>) -> (r: bool)
    ensures
        r == uniform_agreement(history_views(hs@)),
{
    let ghost views = history_views(hs@);
    let mut m: usize = 0;
    while m < hs.len()
        invariant
            m <= hs.len(),
            views == history_views(hs@),
            forall|a: int, b: int|
                0 <= a < m && 0 <= b < views.len() ==> agrees(#[trigger] views[a], #[trigger] views[b]),
        decreases hs.len() - m,
    {
        let mut n: usize = 0;
        while n < hs.len()
            invariant
                m < hs.len(),
                n <= hs.len(),
                views == history_views(hs@),
                forall|b: int| 0 <= b < n ==> agrees(views[m as int], #[trigger] views[b]),
            decreases hs.len() - n,
        {
            if !hs[n].crashed && !all_contained(&hs[m].delivered, &hs[n].delivered) {
                assert(!agrees(views[m as int], views[n as int]));
                return false;
            }
            n += 1;
        }
        m += 1;
    }
    true
}

/// Whether `dst` delivered, before `msg`, all that stands in the history of `src`
/// before `msg`; true where `dst` crashed or did not deliver `msg`.
pub fn holds_causal_for(src: &NodeHistory, msg: &String, dst: &NodeHistory) -> (r: bool)
    ensures
        r == causal_for(src@, msg@, dst@),
{
    if dst.crashed {
        return true;
    }
    match position_of(&dst.delivered, msg) {
        None => true,
        Some(at) => {
            proof {
                lemma_before_first(dst@.delivered, msg@, at as int);
            }
            match position_of(&src.history, msg) {
                None => {
                    assert(src@.history.take(src.history.len() as int) == src@.history);
                    prefix_contained(&src.history, src.history.len(), &dst.delivered, at)
                },
                Some(from) => {
                    proof {
                        lemma_before_first(src@.history, msg@, from as int);
                    }
                    prefix_contained(&src.history, from, &dst.delivered, at)
                },
            }
        },
    }
}

/// What `dst` had yet to deliver when it delivered `msg`: the messages that stand
/// in the history of `src` before `msg` and that `dst` had not delivered before
/// it. Nothing where `dst` crashed or did not deliver `msg`.
pub open spec fn missing_for(src: HistoryView, msg: Seq<char>, dst: HistoryView) -> Set<Seq<char>> {
    if !dst.crashed && dst.delivered.contains(msg) {
        before_first(src.history, msg).to_set().difference(
            before_first(dst.delivered, msg).to_set(),
        )
    } else {
        Set::empty()
    }
}

/// Causal order holds of a sender, a message and a receiver exactly when the
/// receiver had nothing yet to deliver.
pub proof fn lemma_nothing_missing(src: HistoryView, msg: Seq<char>, dst: HistoryView)
    ensures
        causal_for(src, msg, dst) <==> missing_for(src, msg, dst) == Set::<Seq<char>>::empty(),
{
    let needed = before_first(src.history, msg).to_set();
    let had = before_first(dst.delivered, msg).to_set();
    if !dst.crashed && dst.delivered.contains(msg) {
        if needed.subset_of(had) {
            assert(needed.difference(had) =~= Set::<Seq<char>>::empty());
        } else {
            let x = choose|x: Seq<char>| needed.contains(x) && !had.contains(x);
            assert(needed.difference(had).contains(x));
        }
    }
}

/// The messages that `dst` had yet to deliver when it delivered `msg`, each
/// once, in the order of the history of `src`.
pub fn causal_missing(src: &NodeHistory, msg: &String, dst: &NodeHistory) -> (missing: Vec<String>)
    ensures
        texts(missing@).to_set() == missing_for(src@, msg@, dst@),
        texts(missing@).no_duplicates(),
{
    let mut missing: Vec<String> = Vec::new();
    assert(texts(missing@).to_set() =~= Set::<Seq<char>>::empty());
    if dst.crashed {
        return missing;
    }
    let at = match position_of(&dst.delivered, msg) {
        None => {
            return missing;
        },
        Some(at) => at,
    };
    let from = match position_of(&src.history, msg) {
        None => src.history.len(),
        Some(from) => from,
    };
    let ghost needed = texts(src.history@).take(from as int);
    let ghost had = texts(dst.delivered@).take(at as int);
    proof {
        lemma_before_first(dst@.delivered, msg@, at as int);
        if texts(src.history@).contains(msg@) {
            lemma_before_first(src@.history, msg@, from as int);
        } else {
            assert(texts(src.history@).take(src.history.len() as int) == texts(src.history@));
        }
        assert(needed == before_first(src@.history, msg@));
        assert(had == before_first(dst@.delivered, msg@));
        assert(needed.take(0).to_set() =~= Set::<Seq<char>>::empty());
    }
    let mut i: usize = 0;
    while i < from
        invariant
            i <= from <= src.history.len(),
            at <= dst.delivered.len(),
            needed == texts(src.history@).take(from as int),
            had == texts(dst.delivered@).take(at as int),
            texts(missing@).to_set() == needed.take(i as int).to_set().difference(had.to_set()),
            texts(missing@).no_duplicates(),
        decreases from - i,
    {
        let item = &src.history[i];
        let ghost before = texts(missing@);
        let ghost seen = needed.take(i as int);
        proof {
            assert(needed.take(i + 1) == seen.push(item@));
            assert(seen.push(item@).to_set() =~= seen.to_set().insert(item@)) by {
                assert forall|x: Seq<char>| seen.push(item@).to_set().contains(x)
                    == seen.to_set().insert(item@).contains(x) by {
                    if seen.push(item@).contains(x) {
                        let k = choose|k: int| 0 <= k < seen.push(item@).len() && seen.push(item@)[k] == x;
                        if k < seen.len() {
                            assert(seen[k] == x);
                        }
                    }
                    if seen.contains(x) {
                        let k = choose|k: int| 0 <= k < seen.len() && seen[k] == x;
                        assert(seen.push(item@)[k] == x);
                    }
                    if x == item@ {
                        assert(seen.push(item@)[seen.len() as int] == x);
                    }
                }
            }
        }
        let held = prefix_holds(&dst.delivered, at, item);
        if !held && !contains_text(&missing, item) {
            missing.push(item.clone());
            proof {
                assert(texts(missing@) == before.push(item@));
                assert(before.push(item@).to_set() =~= before.to_set().insert(item@)) by {
                    assert forall|x: Seq<char>| before.push(item@).to_set().contains(x)
                        == before.to_set().insert(item@).contains(x) by {
                        if before.push(item@).contains(x) {
                            let k = choose|k: int|
                                0 <= k < before.push(item@).len() && before.push(item@)[k] == x;
                            if k < before.len() {
                                assert(before[k] == x);
                            }
                        }
                        if before.contains(x) {
                            let k = choose|k: int| 0 <= k < before.len() && before[k] == x;
                            assert(before.push(item@)[k] == x);
                        }
                        if x == item@ {
                            assert(before.push(item@)[before.len() as int] == x);
                        }
                    }
                }
                assert(texts(missing@).to_set() =~= needed.take(i + 1).to_set().difference(
                    had.to_set(),
                ));
                assert forall|a: int, b: int|
                    0 <= a < texts(missing@).len() && 0 <= b < texts(missing@).len() && a
                        != b implies texts(missing@)[a] != texts(missing@)[b] by {
                    if a < before.len() && b < before.len() {
                        assert(before[a] != before[b]);
                    } else if a < before.len() {
                        assert(before.contains(before[a]));
                    } else if b < before.len() {
                        assert(before.contains(before[b]));
                    }
                }
            }
        } else {
            proof {
                assert(texts(missing@).to_set() =~= needed.take(i + 1).to_set().difference(
                    had.to_set(),
                )) by {
                    if held {
                        assert(had.to_set().contains(item@));
                    } else {
                        assert(before.to_set().contains(item@));
                    }
                }
            }
        }
        i += 1;
    }
    assert(needed.take(from as int) == needed);
    missing
}

/// Whether `item` occurs among the first `n` items of `list`.
fn prefix_holds(list: &Vec<String>, n: usize, item: &String) -> (r: bool)
    requires
        n <= list.len(),
    ensures
        r == texts(list@).take(n as int).contains(item@),
{
    let ghost part = texts(list@).take(n as int);
    let mut k: usize = 0;
    while k < n
        invariant
            k <= n <= list.len(),
            part == texts(list@).take(n as int),
            forall|j: int| 0 <= j < k ==> part[j] != item@,
        decreases n - k,
    {
        if list[k] == *item {
            assert(part[k as int] == item@);
            return true;
        }
        k += 1;
    }
    false
}

/// Whether causal order holds of all messages and all nodes.
pub fn holds_causal_order(hs: &Vec<NodeHistory>) -> (r: bool)
    ensures
        r == causal_order(history_views(hs@)),
{
    let ghost views = history_views(hs@);
    let mut s: usize = 0;
    while s < hs.len()
        invariant
            s <= hs.len(),
            views == history_views(hs@),
            forall|a: int, i: int, d: int|
                0 <= a < s && 0 <= i < views[a].sent.len() && 0 <= d < views.len() ==> #[trigger] causal_at(
                    views,
                    a,
                    i,
                    d,
                ),
        decreases hs.len() - s,
    {
        let mut i: usize = 0;
        while i < hs[s].sent.len()
            invariant
                s < hs.len(),
                i <= hs[s as int].sent.len(),
                views == history_views(hs@),
                views[s as int].sent.len() == hs[s as int].sent.len(),
                forall|k: int, d: int|
                    0 <= k < i && 0 <= d < views.len() ==> #[trigger] causal_at(views, s as int, k, d),
            decreases hs[s as int].sent.len() - i,
        {
            let mut d: usize = 0;
            while d < hs.len()
                invariant
                    s < hs.len(),
                    i < hs[s as int].sent.len(),
                    d <= hs.len(),
                    views == history_views(hs@),
                    views[s as int].sent.len() == hs[s as int].sent.len(),
                    forall|b: int| 0 <= b < d ==> #[trigger] causal_at(views, s as int, i as int, b),
                decreases hs.len() - d,
            {
                if !holds_causal_for(&hs[s], &hs[s].sent[i], &hs[d]) {
                    assert(!causal_at(views, s as int, i as int, d as int));
                    return false;
                }
                assert(causal_at(views, s as int, i as int, d as int));
                d += 1;
            }
            i += 1;
        }
        s += 1;
    }
    true
}

/// How a run fared on each of the five properties.
#[derive(Clone, Copy, Debug, PartialEq, Eq, Structural)]
pub struct Verdict {
    pub no_duplication: bool,
    pub no_creation: bool,
    pub validity: bool,
    pub uniform_agreement: bool,
    pub causal_order: bool,
}

/// The five properties.
#[derive(Clone, Copy, Debug, PartialEq, Eq, Structural)]
pub enum Property {
    NoDuplication,
    NoCreation,
    Validity,
    UniformAgreement,
    CausalOrder,
}

/// The verdict that the histories deserve.
pub open spec fn verdict_of(hs: Seq<HistoryView>) -> Verdict {
    Verdict {
        no_duplication: no_duplication(hs),
        no_creation: no_creation(hs),
        validity: validity(hs),
        uniform_agreement: uniform_agreement(hs),
        causal_order: causal_order(hs),
    }
}

/// The properties that a verdict finds violated, in their fixed order.
pub open spec fn violations(v: Verdict) -> Seq<Property> {
    (if v.no_duplication {
        Seq::<Property>::empty()
    } else {
        seq![Property::NoDuplication]
    }) + (if v.no_creation {
        Seq::<Property>::empty()
    } else {
        seq![Property::NoCreation]
    }) + (if v.validity {
        Seq::<Property>::empty()
    } else {
        seq![Property::Validity]
    }) + (if v.uniform_agreement {
        Seq::<Property>::empty()
    } else {
        seq![Property::UniformAgreement]
    }) + (if v.causal_order {
        Seq::<Property>::empty()
    } else {
        seq![Property::CausalOrder]
    })
}

/// Judges each of the five properties on its own.
pub fn judge(hs: &Vec<NodeHistory>) -> (v: Verdict)
    ensures
        v == verdict_of(history_views(hs@)),
{
    Verdict {
        no_duplication: holds_no_duplication(hs),
        no_creation: holds_no_creation(hs),
        validity: holds_validity(hs),
        uniform_agreement: holds_uniform_agreement(hs),
        causal_order: holds_causal_order(hs),
    }
}

/// The violated properties of a verdict, in their fixed order.
pub fn violated(v: &Verdict) -> (out: Vec<Property>)
    ensures
        out@ == violations(*v),
{
    let mut out: Vec<Property> = Vec::new();
    if !v.no_duplication {
        out.push(Property::NoDuplication);
    }
    if !v.no_creation {
        out.push(Property::NoCreation);
    }
    if !v.validity {
        out.push(Property::Validity);
    }
    if !v.uniform_agreement {
        out.push(Property::UniformAgreement);
    }
    if !v.causal_order {
        out.push(Property::CausalOrder);
    }
    out
}

/// The broadcast property oracle: success where all five properties hold, else
/// every violated property.
pub fn check(hs: &Vec<NodeHistory>) -> (r: Result<bool, Vec<Property>>)
    ensures
        match r {
            Ok(passed) => passed && violations(verdict_of(history_views(hs@))).len() == 0,
            Err(list) => list.len() > 0 && list@ == violations(verdict_of(history_views(hs@))),
        },
        r is Ok <==> {
            &&& no_duplication(history_views(hs@))
            &&& no_creation(history_views(hs@))
            &&& validity(history_views(hs@))
            &&& uniform_agreement(history_views(hs@))
            &&& causal_order(history_views(hs@))
        },
{
    let v = judge(hs);
    let list = violated(&v);
    if list.len() == 0 {
        Ok(true)
    } else {
        Err(list)
    }
}

/// The oracle on traces as recorded: reads them into histories and judges those.
/// There is no answer where some event carries no message text.
pub fn check_traces(traces: &Vec<NodeTrace>) -> (r: Option<Result<bool, Vec<Property>>>)
    ensures
        r is Some <==> forall|n: int|
            0 <= n < traces.len() ==> readable((#[trigger] trace_views(traces@)[n]).events),
        r matches Some(answer) ==> {
            let hs = trace_views(traces@).map_values(|t: NodeTraceView| history_of(t));
            match answer {
                Ok(passed) => passed && violations(verdict_of(hs)).len() == 0,
                Err(list) => list.len() > 0 && list@ == violations(verdict_of(hs)),
            }
        },
{
    match collect_histories(traces) {
        None => None,
        Some(hs) => {
            assert(history_views(hs@) == trace_views(traces@).map_values(
                |t: NodeTraceView| history_of(t),
            ));
            Some(check(&hs))
        },
    }
}

/// The name of a property, as reports spell it.
pub open spec fn name_of(p: Property) -> Seq<char> {
    match p {
        Property::NoDuplication => "NO DUPLICATION"@,
        Property::NoCreation => "NO CREATION"@,
        Property::Validity => "VALIDITY"@,
        Property::UniformAgreement => "UNIFORM AGREEMENT"@,
        Property::CausalOrder => "CAUSAL ORDER"@,
    }
}

/// The names of the properties, each after a comma and a blank but the first.
pub open spec fn names_joined(list: Seq<Property>) -> Seq<char>
    decreases list.len(),
{
    if list.len() == 0 {
        Seq::empty()
    } else if list.len() == 1 {
        name_of(list[0])
    } else {
        names_joined(list.drop_last()) + ", "@ + name_of(list.last())
    }
}

/// The text that reports violated properties: the word `Violated` and their
/// names.
pub open spec fn violations_text(list: Seq<Property>) -> Seq<char> {
    "Violated "@ + names_joined(list)
}

/// The text that reports violated properties.
pub fn describe_violations(list: &Vec<Property>) -> (r: String)
    ensures
        r@ == violations_text(list@),
{
    let mut names = String::new();
    let mut i: usize = 0;
    assert(list@.take(0) == Seq::<Property>::empty());
    while i < list.len()
        invariant
            i <= list.len(),
            names@ == names_joined(list@.take(i as int)),
        decreases list.len() - i,
    {
        proof {
            assert(list@.take(i + 1).drop_last() == list@.take(i as int));
            assert(list@.take(i + 1).last() == list[i as int]);
        }
        if i > 0 {
            names.append(", ");
        } else {
            assert(names@ + name_of(list[0]) == name_of(list[0]));
        }
        let name = property_name(list[i]);
        names.append(name.as_str());
        i += 1;
    }
    assert(list@.take(list.len() as int) == list@);
    let mut out = text_of("Violated ");
    out.append(names.as_str());
    out
}

/// The name of a property, as reports spell it.
pub fn property_name(p: Property) -> (r: String)
    ensures
        r@ == name_of(p),
{
    match p {
        Property::NoDuplication => text_of("NO DUPLICATION"),
        Property::NoCreation => text_of("NO CREATION"),
        Property::Validity => text_of("VALIDITY"),
        Property::UniformAgreement => text_of("UNIFORM AGREEMENT"),
        Property::CausalOrder => text_of("CAUSAL ORDER"),
    }
}

/// One message broadcast by one node and delivered exactly once by every node,
/// the sender after it was asked to broadcast it, satisfies all five properties.
pub proof fn lemma_single_broadcast(hs: Seq<HistoryView>, sender: int, m: Seq<char>)
    requires
        0 <= sender < hs.len(),
        hs[sender].sent == seq![m],
        hs[sender].history == seq![m, m],
        forall|n: int| 0 <= n < hs.len() ==> (#[trigger] hs[n]).delivered == seq![m],
        forall|n: int| 0 <= n < hs.len() && n != sender ==> (#[trigger] hs[n]).sent.len() == 0,
    ensures
        no_duplication(hs),
        no_creation(hs),
        validity(hs),
        uniform_agreement(hs),
        causal_order(hs),
        violations(verdict_of(hs)).len() == 0,
{
    assert(seq![m][0] == m);
    assert(hs[sender].sent.contains(m));
    assert(was_sent(hs, m));
    assert forall|n: int, i: int| 0 <= n < hs.len() && 0 <= i < hs[n].delivered.len() implies was_sent(
        hs,
        #[trigger] hs[n].delivered[i],
    ) by {
        assert(hs[n].delivered[i] == m);
    }
    assert forall|n: int| 0 <= n < hs.len() implies node_valid(#[trigger] hs[n]) by {
        if n == sender {
            assert(hs[n].sent.to_set() =~= hs[n].delivered.to_set());
        } else {
            assert(hs[n].sent.to_set() =~= Set::<Seq<char>>::empty());
        }
    }
    assert forall|a: int, b: int| 0 <= a < hs.len() && 0 <= b < hs.len() implies agrees(
        #[trigger] hs[a],
        #[trigger] hs[b],
    ) by {
        assert(hs[a].delivered == hs[b].delivered);
    }
    assert forall|s: int, i: int, d: int|
        0 <= s < hs.len() && 0 <= i < hs[s].sent.len() && 0 <= d < hs.len() implies #[trigger] causal_at(
        hs,
        s,
        i,
        d,
    ) by {
        assert(s == sender);
        assert(hs[s].sent[i] == m);
        assert(is_first_at(hs[s].history, m, 0));
        lemma_before_first(hs[s].history, m, 0);
        assert(before_first(hs[s].history, m).to_set() =~= Set::<Seq<char>>::empty());
    }
}

/// A history is well kept when every message that the node was asked to
/// broadcast stands in its interleaved history, and that history holds nothing
/// but what the node was asked to broadcast or delivered.
pub open spec fn well_kept(h: HistoryView) -> bool {
    &&& forall|i: int| 0 <= i < h.sent.len() ==> h.history.contains(#[trigger] h.sent[i])
    &&& forall|i: int|
        0 <= i < h.history.len() ==> h.sent.contains(#[trigger] h.history[i])
            || h.delivered.contains(h.history[i])
}

/// Where no node crashed and one node alone was asked to broadcast, and that one
/// message only, the run satisfies all five properties exactly when every node
/// delivered that message once and nothing else.
pub proof fn lemma_single_broadcast_exactly(hs: Seq<HistoryView>, sender: int, m: Seq<char>)
    requires
        0 <= sender < hs.len(),
        forall|n: int| 0 <= n < hs.len() ==> !(#[trigger] hs[n]).crashed,
        hs[sender].sent == seq![m],
        forall|n: int| 0 <= n < hs.len() && n != sender ==> (#[trigger] hs[n]).sent.len() == 0,
        well_kept(hs[sender]),
    ensures
        violations(verdict_of(hs)).len() == 0 <==> forall|n: int|
            0 <= n < hs.len() ==> (#[trigger] hs[n]).delivered == seq![m],
{
    let src = hs[sender];
    assert(seq![m][0] == m);
    assert(src.sent[0] == m);
    if forall|n: int| 0 <= n < hs.len() ==> (#[trigger] hs[n]).delivered == seq![m] {
        assert(src.sent.contains(m));
        assert(was_sent(hs, m));
        assert forall|n: int, i: int|
            0 <= n < hs.len() && 0 <= i < hs[n].delivered.len() implies was_sent(
            hs,
            #[trigger] hs[n].delivered[i],
        ) by {
            assert(hs[n].delivered[i] == m);
        }
        assert forall|n: int| 0 <= n < hs.len() implies node_valid(#[trigger] hs[n]) by {
            if n == sender {
                assert(hs[n].sent.to_set() =~= hs[n].delivered.to_set());
            } else {
                assert(hs[n].sent.to_set() =~= Set::<Seq<char>>::empty());
            }
        }
        assert forall|a: int, b: int| 0 <= a < hs.len() && 0 <= b < hs.len() implies agrees(
            #[trigger] hs[a],
            #[trigger] hs[b],
        ) by {
            assert(hs[a].delivered == hs[b].delivered);
        }
        assert(src.history.contains(src.sent[0]));
        assert(src.history.len() > 0);
        assert(src.history[0] == m) by {
            if src.sent.contains(src.history[0]) {
                let k = choose|k: int| 0 <= k < src.sent.len() && src.sent[k] == src.history[0];
            } else {
                assert(src.delivered.contains(src.history[0]));
                let k = choose|k: int|
                    0 <= k < src.delivered.len() && src.delivered[k] == src.history[0];
            }
        }
        assert(is_first_at(src.history, m, 0));
        lemma_before_first(src.history, m, 0);
        assert(before_first(src.history, m).to_set() =~= Set::<Seq<char>>::empty());
        assert forall|s: int, i: int, d: int|
            0 <= s < hs.len() && 0 <= i < hs[s].sent.len() && 0 <= d < hs.len() implies #[trigger] causal_at(
            hs,
            s,
            i,
            d,
        ) by {
            assert(s == sender);
            assert(hs[s].sent[i] == m);
        }
        assert(no_duplication(hs) && no_creation(hs) && validity(hs) && uniform_agreement(hs)
            && causal_order(hs));
    }
    if violations(verdict_of(hs)).len() == 0 {
        assert(no_duplication(hs) && no_creation(hs) && validity(hs) && uniform_agreement(hs));
        assert(node_valid(src));
        assert(src.sent.contains(m));
        assert(src.sent.to_set().contains(m));
        assert(src.delivered.contains(m));
        assert forall|n: int| 0 <= n < hs.len() implies (#[trigger] hs[n]).delivered == seq![m] by {
            let d = hs[n].delivered;
            assert(agrees(hs[sender], hs[n]));
            assert(src.delivered.to_set().contains(m));
            assert(d.contains(m));
            assert forall|i: int| 0 <= i < d.len() implies d[i] == m by {
                assert(was_sent(hs, hs[n].delivered[i]));
                let k = choose|k: int| 0 <= k < hs.len() && (#[trigger] hs[k]).sent.contains(d[i]);
                if k != sender {
                    assert(hs[k].sent.len() == 0);
                    let j = choose|j: int| 0 <= j < hs[k].sent.len() && hs[k].sent[j] == d[i];
                } else {
                    let j = choose|j: int| 0 <= j < src.sent.len() && src.sent[j] == d[i];
                    assert(src.sent[j] == m);
                }
            }
            assert(d.no_duplicates());
            if d.len() >= 2 {
                assert(d[0] == m && d[1] == m);
            }
            assert(d.len() == 1);
            assert(d =~= seq![m]);
        }
    }
}

/// The history that a readable trace amounts to is well kept.
pub proof fn lemma_history_well_kept(t: NodeTraceView)
    ensures
        well_kept(history_of(t)),
{
    let h = history_of(t);
    let originated = |e: LocalEventView| e.kind == EventKind::Originate;
    let handed = |e: LocalEventView| e.kind == EventKind::Deliver;
    let read = |e: LocalEventView| event_text(e);
    let sent_events = t.events.filter(originated);
    let delivered_events = t.events.filter(handed);
    assert forall|i: int| 0 <= i < h.sent.len() implies h.history.contains(#[trigger] h.sent[i]) by {
        t.events.lemma_filter_contains_rev(originated, sent_events[i]);
        assert(sent_events.contains(sent_events[i]));
        let k = choose|k: int| 0 <= k < t.events.len() && t.events[k] == sent_events[i];
        assert(h.history[k] == h.sent[i]);
    }
    assert forall|i: int| 0 <= i < h.history.len() implies h.sent.contains(#[trigger] h.history[i])
        || h.delivered.contains(h.history[i]) by {
        let e = t.events[i];
        if e.kind == EventKind::Originate {
            t.events.lemma_filter_contains(originated, i);
            let k = choose|k: int| 0 <= k < sent_events.len() && sent_events[k] == e;
            assert(h.sent[k] == h.history[i]);
        } else {
            t.events.lemma_filter_contains(handed, i);
            let k = choose|k: int| 0 <= k < delivered_events.len() && delivered_events[k] == e;
            assert(h.delivered[k] == h.history[i]);
        }
    }
}

/// The history of a node after it was asked to broadcast one more message, `m`.
pub open spec fn with_origin(h: HistoryView, m: Seq<char>) -> HistoryView {
    HistoryView { sent: h.sent.push(m), history: h.history.push(m), ..h }
}

/// A message known only to a crashed node binds nobody: where a run satisfies all
/// five properties, it still does after a crashed node was asked to broadcast a
/// message that no node delivered.
pub proof fn lemma_crashed_origin_binds_nobody(hs: Seq<HistoryView>, s: int, m: Seq<char>)
    requires
        0 <= s < hs.len(),
        hs[s].crashed,
        forall|n: int| 0 <= n < hs.len() ==> !(#[trigger] hs[n]).delivered.contains(m),
        forall|i: int| 0 <= i < hs[s].sent.len() ==> hs[s].history.contains(#[trigger] hs[s].sent[i]),
        violations(verdict_of(hs)).len() == 0,
    ensures
        violations(verdict_of(hs.update(s, with_origin(hs[s], m)))).len() == 0,
{
    let after = hs.update(s, with_origin(hs[s], m));
    assert(no_duplication(hs) && no_creation(hs) && validity(hs) && uniform_agreement(hs)
        && causal_order(hs));
    assert forall|n: int| 0 <= n < after.len() implies (#[trigger] after[n]).delivered.no_duplicates() by {
        assert(after[n].delivered == hs[n].delivered);
    }
    assert forall|n: int, i: int|
        0 <= n < after.len() && 0 <= i < after[n].delivered.len() implies was_sent(
        after,
        #[trigger] after[n].delivered[i],
    ) by {
        let p = after[n].delivered[i];
        assert(p == hs[n].delivered[i]);
        assert(was_sent(hs, p));
        let k = choose|k: int| 0 <= k < hs.len() && (#[trigger] hs[k]).sent.contains(p);
        if k == s {
            let at = choose|at: int| 0 <= at < hs[s].sent.len() && hs[s].sent[at] == p;
            assert(after[s].sent[at] == p);
        }
        assert(after[k].sent.contains(p));
    }
    assert forall|n: int| 0 <= n < after.len() implies node_valid(#[trigger] after[n]) by {
        if n != s {
            assert(after[n] == hs[n]);
            assert(node_valid(hs[n]));
        }
    }
    assert forall|a: int, b: int| 0 <= a < after.len() && 0 <= b < after.len() implies agrees(
        #[trigger] after[a],
        #[trigger] after[b],
    ) by {
        assert(agrees(hs[a], hs[b]));
        assert(after[a].delivered == hs[a].delivered);
        assert(after[b].delivered == hs[b].delivered);
        assert(after[b].crashed == hs[b].crashed);
    }
    assert forall|a: int, i: int, d: int|
        0 <= a < after.len() && 0 <= i < after[a].sent.len() && 0 <= d < after.len() implies #[trigger] causal_at(
        after,
        a,
        i,
        d,
    ) by {
        let msg = after[a].sent[i];
        assert(after[d].delivered == hs[d].delivered);
        assert(after[d].crashed == hs[d].crashed);
        if !after[d].crashed && after[d].delivered.contains(msg) {
            if a != s {
                assert(after[a] == hs[a]);
                assert(causal_at(hs, a, i, d));
            } else {
                assert(msg != m);
                assert(i < hs[s].sent.len());
                assert(hs[s].sent[i] == msg);
                assert(causal_at(hs, s, i, d));
                let old_history = hs[s].history;
                assert(old_history.contains(msg));
                let first = choose|first: int| is_first_at(old_history, msg, first);
                let some = choose|k: int| 0 <= k < old_history.len() && old_history[k] == msg;
                lemma_first_exists(old_history, msg, some);
                assert(is_first_at(old_history, msg, first));
                lemma_before_first(old_history, msg, first);
                let new_history = old_history.push(m);
                assert(is_first_at(new_history, msg, first)) by {
                    assert(new_history[first] == old_history[first]);
                    assert forall|j: int| 0 <= j < first implies new_history[j] != msg by {
                        assert(new_history[j] == old_history[j]);
                    }
                }
                lemma_before_first(new_history, msg, first);
                assert(new_history.take(first) == old_history.take(first));
            }
        }
    }
}

/// An item that occurs in a list has a first occurrence.
pub proof fn lemma_first_exists(v: Seq<Seq<char>>, item: Seq<char>, at: int)
    requires
        0 <= at < v.len(),
        v[at] == item,
    ensures
        exists|first: int| is_first_at(v, item, first),
    decreases at,
{
    if exists|j: int| 0 <= j < at && v[j] == item {
        let j = choose|j: int| 0 <= j < at && v[j] == item;
        lemma_first_exists(v, item, j);
    } else {
        assert(is_first_at(v, item, at));
    }
}

} // verus!
