//! The delivery guarantee oracle: at-most-once, at-least-once, exactly-once and
//! ordered delivery of point-to-point messages.
//!
//! The oracle compares what a sender was asked to send with what the receiver
//! handed to its application. Two messages are the same when their payloads are
//! equal texts.

use crate::text::text_of;
use crate::trace::{
    delivered_messages, event_views, message_views, messages_of_kind, payloads, EventKind,
    LocalEvent, Message, MessageView,
};
use vstd::prelude::*;

verus! {

/// Which guarantees a run is held to.
#[derive(Clone, Copy, Debug, PartialEq, Eq, Structural)]
pub struct Guarantees {
    /// Every sent message is delivered at least once.
    pub reliable: bool,
    /// No sent message is delivered more than once.
    pub once: bool,
    /// Messages are delivered in the order in which they were sent.
    pub ordered: bool,
}

/// The first condition that a run violates.
#[derive(Clone, Copy, Debug, PartialEq, Eq, Structural)]
pub enum DeliveryError {
    /// The delivered message at `index` has another tag than the sent messages.
    WrongType { index: usize },
    /// The delivered message at `index` has a payload that was never sent.
    WrongData { index: usize },
    /// The sent message at `sent` was not delivered, in a reliable run.
    NotDelivered { sent: usize },
    /// The sent message at `sent` was delivered more than once, in a run that
    /// delivers at most once.
    Duplicated { sent: usize },
    /// The delivered message at `index` was sent before the one delivered just
    /// before it.
    OrderViolation { index: usize },
}

/// The tag that delivered messages must carry is that of the first sent message.
pub open spec fn tag_expected(sent: Seq<MessageView>, m: MessageView) -> bool {
    sent.len() > 0 ==> m.tag == sent[0].tag
}

/// A delivered message is well formed when it has the expected tag and a payload
/// that was sent.
pub open spec fn well_formed(sent: Seq<MessageView>, m: MessageView) -> bool {
    tag_expected(sent, m) && payloads(sent).contains(m.payload)
}

/// How often `payload` was delivered.
pub open spec fn tally(delivered: Seq<MessageView>, payload: Seq<char>) -> nat {
    payloads(delivered).to_multiset().count(payload)
}

/// Whether a payload delivered `n` times meets the guarantees on counts.
pub open spec fn tally_allowed(g: Guarantees, n: nat) -> bool {
    (g.reliable ==> n >= 1) && (g.once ==> n <= 1)
}

/// `f` maps each delivered payload to a position in the sending order that holds
/// the same payload, and never steps back.
pub open spec fn is_embedding(f: Seq<int>, sent: Seq<Seq<char>>, delivered: Seq<Seq<char>>) -> bool {
    &&& f.len() == delivered.len()
    &&& forall|i: int| 0 <= i < f.len() ==> 0 <= #[trigger] f[i] < sent.len() && sent[f[i]] == delivered[i]
    &&& forall|i: int, j: int| 0 <= i <= j < f.len() ==> #[trigger] f[i] <= #[trigger] f[j]
}

/// The delivered payloads follow the sending order: walking once through the sent
/// payloads, each delivered payload is met in turn.
pub open spec fn in_sending_order(sent: Seq<Seq<char>>, delivered: Seq<Seq<char>>) -> bool {
    exists|f: Seq<int>| is_embedding(f, sent, delivered)
}

/// `sub` is obtained from `full` by leaving items out.
pub open spec fn is_subsequence(sub: Seq<Seq<char>>, full: Seq<Seq<char>>) -> bool {
    exists|f: Seq<int>|
        {
            &&& f.len() == sub.len()
            &&& forall|i: int|
                0 <= i < f.len() ==> 0 <= #[trigger] f[i] < full.len() && full[f[i]] == sub[i]
            &&& forall|i: int, j: int| 0 <= i < j < f.len() ==> #[trigger] f[i] < #[trigger] f[j]
        }
}

/// What the oracle answers for a run: the first violated condition in the order
/// message form, counts, order; success where there is none.
pub open spec fn delivery_verdict(
    sent: Seq<MessageView>,
    delivered: Seq<MessageView>,
    g: Guarantees,
    r: Result<bool, DeliveryError>,
) -> bool {
    let all_formed = forall|i: int|
        0 <= i < delivered.len() ==> well_formed(sent, #[trigger] delivered[i]);
    let all_counted = forall|k: int|
        0 <= k < sent.len() ==> tally_allowed(g, tally(delivered, (#[trigger] sent[k]).payload));
    match r {
        Ok(passed) => {
            &&& passed
            &&& all_formed
            &&& all_counted
            &&& g.ordered ==> in_sending_order(payloads(sent), payloads(delivered))
        },
        Err(DeliveryError::WrongType { index }) => {
            &&& index < delivered.len()
            &&& forall|i: int| 0 <= i < index ==> well_formed(sent, #[trigger] delivered[i])
            &&& !tag_expected(sent, delivered[index as int])
        },
        Err(DeliveryError::WrongData { index }) => {
            &&& index < delivered.len()
            &&& forall|i: int| 0 <= i < index ==> well_formed(sent, #[trigger] delivered[i])
            &&& tag_expected(sent, delivered[index as int])
            &&& !payloads(sent).contains(delivered[index as int].payload)
        },
        Err(DeliveryError::NotDelivered { sent: k }) => {
            &&& all_formed
            &&& k < sent.len()
            &&& forall|j: int|
                0 <= j < k ==> tally_allowed(g, tally(delivered, (#[trigger] sent[j]).payload))
            &&& g.reliable
            &&& tally(delivered, sent[k as int].payload) == 0
        },
        Err(DeliveryError::Duplicated { sent: k }) => {
            &&& all_formed
            &&& k < sent.len()
            &&& forall|j: int|
                0 <= j < k ==> tally_allowed(g, tally(delivered, (#[trigger] sent[j]).payload))
            &&& g.once
            &&& tally(delivered, sent[k as int].payload) >= 2
        },
        Err(DeliveryError::OrderViolation { index }) => {
            &&& all_formed
            &&& all_counted
            &&& g.ordered
            &&& 0 < index < delivered.len()
            &&& in_sending_order(payloads(sent), payloads(delivered).take(index as int))
            &&& !in_sending_order(payloads(sent), payloads(delivered).take(index + 1))
        },
    }
}

/// Whether `payload` is the payload of one of the messages.
pub fn knows_payload(messages: &Vec<Message>, payload: &String) -> (found: bool)
    ensures
        found == payloads(message_views(messages@)).contains(payload@),
{
    let ghost all = payloads(message_views(messages@));
    let mut i: usize = 0;
    while i < messages.len()
        invariant
            i <= messages.len(),
            all == payloads(message_views(messages@)),
            forall|j: int| 0 <= j < i ==> all[j] != payload@,
        decreases messages.len() - i,
    {
        if messages[i].payload == *payload {
            assert(all[i as int] == payload@);
            return true;
        }
        i += 1;
    }
    false
}

/// How many of the messages carry `payload`.
pub fn count_payload(messages: &Vec<Message>, payload: &String) -> (n: usize)
    ensures
        n == tally(message_views(messages@), payload@),
{
    broadcast use {vstd::seq_lib::to_multiset_build, vstd::multiset::group_multiset_axioms};

    let ghost all = payloads(message_views(messages@));
    let mut n: usize = 0;
    let mut i: usize = 0;
    proof {
        assert(all.take(0) == Seq::<Seq<char>>::empty());
        all.take(0).to_multiset_ensures();
    }
    while i < messages.len()
        invariant
            i <= messages.len(),
            n <= i,
            all == payloads(message_views(messages@)),
            n == all.take(i as int).to_multiset().count(payload@),
        decreases messages.len() - i,
    {
        proof {
            let seen = all.take(i as int);
            assert(all.take(i + 1) == seen.push(all[i as int]));
            vstd::seq_lib::to_multiset_build(seen, all[i as int]);
        }
        if messages[i].payload == *payload {
            n += 1;
        }
        i += 1;
    }
    assert(all.take(messages.len() as int) == all);
    n
}

/// An embedding of a list of payloads restricts to an embedding of each of its
/// beginnings.
pub proof fn lemma_embedding_prefix(
    f: Seq<int>,
    sent: Seq<Seq<char>>,
    delivered: Seq<Seq<char>>,
    n: int,
)
    requires
        is_embedding(f, sent, delivered),
        0 <= n <= delivered.len(),
    ensures
        is_embedding(f.take(n), sent, delivered.take(n)),
{
    let g = f.take(n);
    assert forall|i: int| 0 <= i < g.len() implies 0 <= #[trigger] g[i] < sent.len() && sent[g[i]]
        == delivered.take(n)[i] by {
        assert(g[i] == f[i]);
    }
    assert forall|i: int, j: int| 0 <= i <= j < g.len() implies #[trigger] g[i] <= #[trigger] g[j] by {
        assert(g[i] == f[i] && g[j] == f[j]);
    }
}

/// The delivery guarantee oracle on delivered messages.
///
/// Checks, in this order and stopping at the first violation: that every delivered
/// message has the tag of the sent ones and a payload that was sent; that every
/// sent payload was delivered as often as `reliable` and `once` allow; and, where
/// `ordered` is set, that the deliveries follow the sending order.
pub fn check_delivery(sent: &Vec<Message>, delivered: &Vec<Message>, g: &Guarantees) -> (r: Result<
    bool,
    DeliveryError,
>)
    ensures
        delivery_verdict(message_views(sent@), message_views(delivered@), *g, r),
{
    let ghost s = message_views(sent@);
    let ghost d = message_views(delivered@);
    let mut i: usize = 0;
    while i < delivered.len()
        invariant
            i <= delivered.len(),
            s == message_views(sent@),
            d == message_views(delivered@),
            forall|j: int| 0 <= j < i ==> well_formed(s, #[trigger] d[j]),
        decreases delivered.len() - i,
    {
        if sent.len() > 0 && !(delivered[i].tag == sent[0].tag) {
            return Err(DeliveryError::WrongType { index: i });
        }
        if !knows_payload(sent, &delivered[i].payload) {
            return Err(DeliveryError::WrongData { index: i });
        }
        i += 1;
    }
    let mut k: usize = 0;
    while k < sent.len()
        invariant
            k <= sent.len(),
            s == message_views(sent@),
            d == message_views(delivered@),
            forall|j: int| 0 <= j < d.len() ==> well_formed(s, #[trigger] d[j]),
            forall|j: int| 0 <= j < k ==> tally_allowed(*g, tally(d, (#[trigger] s[j]).payload)),
        decreases sent.len() - k,
    {
        let n = count_payload(delivered, &sent[k].payload);
        if n == 0 && g.reliable {
            return Err(DeliveryError::NotDelivered { sent: k });
        }
        if n >= 2 && g.once {
            return Err(DeliveryError::Duplicated { sent: k });
        }
        k += 1;
    }
    if g.ordered {
        let ghost sp = payloads(s);
        let ghost dp = payloads(d);
        let ghost mut f: Seq<int> = Seq::empty();
        let mut next: usize = 0;
        let mut i: usize = 0;
        proof {
            assert(is_embedding(f, sp, dp.take(0)));
        }
        while i < delivered.len()
            invariant
                i <= delivered.len(),
                next <= sent.len(),
                s == message_views(sent@),
                d == message_views(delivered@),
                sp == payloads(s),
                dp == payloads(d),
                forall|j: int| 0 <= j < d.len() ==> well_formed(s, #[trigger] d[j]),
                forall|j: int|
                    0 <= j < s.len() ==> tally_allowed(*g, tally(d, (#[trigger] s[j]).payload)),
                g.ordered,
                is_embedding(f, sp, dp.take(i as int)),
                i == 0 ==> next == 0,
                i > 0 ==> f[i - 1] == next,
                forall|e: Seq<int>|
                    i > 0 && #[trigger] is_embedding(e, sp, dp.take(i as int)) ==> e[i - 1] >= next,
            decreases delivered.len() - i,
        {
            let ghost start = next;
            let mut matched = false;
            while !matched && next < sent.len()
                invariant
                    start <= next <= sent.len(),
                    i < delivered.len(),
                    s == message_views(sent@),
                    d == message_views(delivered@),
                    sp == payloads(s),
                    dp == payloads(d),
                    forall|j: int| start <= j < next ==> sp[j] != dp[i as int],
                    matched ==> next < sent.len() && sp[next as int] == dp[i as int],
                decreases sent.len() - next + (if matched { 0int } else { 1int }),
            {
                if delivered[i].payload == sent[next].payload {
                    matched = true;
                } else {
                    next += 1;
                }
            }
            let ghost longer = dp.take(i + 1);
            proof {
                assert(longer.drop_last() == dp.take(i as int));
                assert forall|e: Seq<int>| #[trigger] is_embedding(e, sp, longer) implies e[i as int]
                    >= next && e[i as int] < sent.len() by {
                    lemma_embedding_prefix(e, sp, longer, i as int);
                    assert(longer.take(i as int) == dp.take(i as int));
                    if i > 0 {
                        assert(e.take(i as int)[i - 1] == e[i - 1]);
                        assert(e[i - 1] <= e[i as int]);
                    }
                    assert(sp[e[i as int]] == longer[i as int]);
                }
            }
            if !matched {
                proof {
                    assert(in_sending_order(sp, dp.take(i as int)));
                    if in_sending_order(sp, longer) {
                        let e = choose|e: Seq<int>| is_embedding(e, sp, longer);
                        assert(e[i as int] >= next);
                    }
                    if i == 0 {
                        assert(well_formed(s, d[0]));
                        let p = dp[0];
                        let at = choose|at: int| 0 <= at < sp.len() && sp[at] == p;
                        assert(false);
                    }
                }
                return Err(DeliveryError::OrderViolation { index: i });
            }
            proof {
                let grown = f.push(next as int);
                assert forall|a: int| 0 <= a < grown.len() implies 0 <= #[trigger] grown[a] < sp.len()
                    && sp[grown[a]] == longer[a] by {
                    if a < i {
                        assert(grown[a] == f[a]);
                        assert(longer[a] == dp.take(i as int)[a]);
                    }
                }
                assert forall|a: int, b: int| 0 <= a <= b < grown.len() implies #[trigger] grown[a]
                    <= #[trigger] grown[b] by {
                    if b < i {
                        assert(grown[a] == f[a] && grown[b] == f[b]);
                    } else if a < i {
                        assert(grown[a] == f[a]);
                        assert(f[a] <= f[i - 1]);
                    }
                }
                f = grown;
            }
            i += 1;
        }
        proof {
            assert(dp.take(delivered.len() as int) == dp);
        }
    }
    Ok(true)
}

/// The delivery guarantee oracle on a receiver's trace: [`check_delivery`] on the
/// messages that the receiver handed to its application.
pub fn check_guarantees(events: &Vec<LocalEvent>, sent: &Vec<Message>, g: &Guarantees) -> (r:
    Result<bool, DeliveryError>)
    ensures
        delivery_verdict(
            message_views(sent@),
            messages_of_kind(event_views(events@), EventKind::Deliver),
            *g,
            r,
        ),
{
    let delivered = delivered_messages(events);
    check_delivery(sent, &delivered, g)
}

/// Where every delivered payload was sent and no sent payload was delivered twice,
/// no payload occurs twice among the deliveries.
pub proof fn lemma_once_no_duplicates(sent: Seq<MessageView>, delivered: Seq<MessageView>)
    requires
        forall|i: int| 0 <= i < delivered.len() ==> payloads(sent).contains(
            (#[trigger] delivered[i]).payload,
        ),
        forall|k: int| 0 <= k < sent.len() ==> tally(delivered, (#[trigger] sent[k]).payload) <= 1,
    ensures
        payloads(delivered).no_duplicates(),
{
    let dp = payloads(delivered);
    let sp = payloads(sent);
    assert forall|x: Seq<char>| dp.to_multiset().contains(x) implies dp.to_multiset().count(x)
        == 1 by {
        dp.to_multiset_ensures();
        assert(dp.contains(x));
        let i = choose|i: int| 0 <= i < dp.len() && dp[i] == x;
        assert(sp.contains(delivered[i].payload));
        let k = choose|k: int| 0 <= k < sp.len() && sp[k] == x;
        assert(tally(delivered, sent[k].payload) <= 1);
    }
    dp.lemma_multiset_has_no_duplicates_conv();
}

/// Deliveries that follow the sending order and repeat no payload are a
/// subsequence of the sent payloads.
pub proof fn lemma_ordered_distinct_is_subsequence(sent: Seq<Seq<char>>, delivered: Seq<Seq<char>>)
    requires
        in_sending_order(sent, delivered),
        delivered.no_duplicates(),
    ensures
        is_subsequence(delivered, sent),
{
    let f = choose|f: Seq<int>| is_embedding(f, sent, delivered);
    assert forall|i: int, j: int| 0 <= i < j < f.len() implies #[trigger] f[i] < #[trigger] f[j] by {
        assert(f[i] <= f[j]);
        if f[i] == f[j] {
            assert(sent[f[i]] == delivered[i]);
            assert(sent[f[j]] == delivered[j]);
        }
    }
}

/// A subsequence of the sent payloads follows the sending order.
pub proof fn lemma_subsequence_in_order(sent: Seq<Seq<char>>, delivered: Seq<Seq<char>>)
    requires
        is_subsequence(delivered, sent),
    ensures
        in_sending_order(sent, delivered),
{
    let f = choose|f: Seq<int>|
        {
            &&& f.len() == delivered.len()
            &&& forall|i: int|
                0 <= i < f.len() ==> 0 <= #[trigger] f[i] < sent.len() && sent[f[i]] == delivered[i]
            &&& forall|i: int, j: int| 0 <= i < j < f.len() ==> #[trigger] f[i] < #[trigger] f[j]
        };
    assert(is_embedding(f, sent, delivered));
}

/// A run accepted under `reliable` delivered every sent payload, and a run
/// accepted under `once` delivered none twice.
pub proof fn lemma_accepted_counts(
    sent: Seq<MessageView>,
    delivered: Seq<MessageView>,
    g: Guarantees,
    r: Result<bool, DeliveryError>,
    k: int,
)
    requires
        delivery_verdict(sent, delivered, g, r),
        r is Ok,
        0 <= k < sent.len(),
    ensures
        g.reliable ==> tally(delivered, sent[k].payload) >= 1,
        g.once ==> tally(delivered, sent[k].payload) <= 1,
{
}

/// A run accepted under `once` and `ordered` delivered a subsequence of the sent
/// payloads, in the order of sending.
pub proof fn lemma_accepted_order(
    sent: Seq<MessageView>,
    delivered: Seq<MessageView>,
    g: Guarantees,
    r: Result<bool, DeliveryError>,
)
    requires
        delivery_verdict(sent, delivered, g, r),
        r is Ok,
        g.once,
        g.ordered,
    ensures
        is_subsequence(payloads(delivered), payloads(sent)),
{
    assert forall|k: int| 0 <= k < sent.len() implies tally(delivered, (#[trigger] sent[k]).payload)
        <= 1 by {
        assert(tally_allowed(g, tally(delivered, sent[k].payload)));
    }
    assert forall|i: int| 0 <= i < delivered.len() implies payloads(sent).contains(
        (#[trigger] delivered[i]).payload,
    ) by {
        assert(well_formed(sent, delivered[i]));
    }
    lemma_once_no_duplicates(sent, delivered);
    lemma_ordered_distinct_is_subsequence(payloads(sent), payloads(delivered));
}

/// The payload of the message at `index`; the empty text where there is none.
pub open spec fn payload_at(messages: Seq<MessageView>, index: int) -> Seq<char> {
    if 0 <= index < messages.len() {
        messages[index].payload
    } else {
        Seq::empty()
    }
}

/// The tag of the message at `index`; the empty text where there is none.
pub open spec fn tag_at(messages: Seq<MessageView>, index: int) -> Seq<char> {
    if 0 <= index < messages.len() {
        messages[index].tag
    } else {
        Seq::empty()
    }
}

/// The text that names a violation, with the tag or the payloads it is about.
pub open spec fn violation_text(e: DeliveryError, sent: Seq<MessageView>, delivered: Seq<MessageView>) -> Seq<
    char,
> {
    match e {
        DeliveryError::WrongType { index } => "Wrong message type "@ + tag_at(delivered, index as int),
        DeliveryError::WrongData { index } => "Wrong message data: "@ + payload_at(
            delivered,
            index as int,
        ),
        DeliveryError::NotDelivered { sent: k } => "Message "@ + payload_at(sent, k as int)
            + " is not delivered"@,
        DeliveryError::Duplicated { sent: k } => "Message "@ + payload_at(sent, k as int)
            + " is delivered more than once"@,
        DeliveryError::OrderViolation { index } => "Order violation: "@ + payload_at(
            delivered,
            index as int,
        ) + " after "@ + payload_at(delivered, index - 1),
    }
}

fn payload_copy(messages: &Vec<Message>, index: usize) -> (r: String)
    ensures
        r@ == payload_at(message_views(messages@), index as int),
{
    if index < messages.len() {
        messages[index].payload.clone()
    } else {
        String::new()
    }
}

/// The text that names a violation, with the tag or the payloads it is about.
pub fn describe_delivery_error(e: &DeliveryError, sent: &Vec<Message>, delivered: &Vec<Message>) -> (r:
    String)
    ensures
        r@ == violation_text(*e, message_views(sent@), message_views(delivered@)),
{
    match e {
        DeliveryError::WrongType { index } => {
            let mut out = text_of("Wrong message type ");
            if *index < delivered.len() {
                out.append(delivered[*index].tag.as_str());
            } else {
                assert(out@ + Seq::<char>::empty() == out@);
            }
            out
        },
        DeliveryError::WrongData { index } => {
            let mut out = text_of("Wrong message data: ");
            out.append(payload_copy(delivered, *index).as_str());
            out
        },
        DeliveryError::NotDelivered { sent: k } => {
            let mut out = text_of("Message ");
            out.append(payload_copy(sent, *k).as_str());
            out.append(" is not delivered");
            out
        },
        DeliveryError::Duplicated { sent: k } => {
            let mut out = text_of("Message ");
            out.append(payload_copy(sent, *k).as_str());
            out.append(" is delivered more than once");
            out
        },
        DeliveryError::OrderViolation { index } => {
            let mut out = text_of("Order violation: ");
            out.append(payload_copy(delivered, *index).as_str());
            out.append(" after ");
            if *index > 0 {
                out.append(payload_copy(delivered, *index - 1).as_str());
            } else {
                assert(out@ + Seq::<char>::empty() == out@);
            }
            out
        },
    }
}

} // verus!
