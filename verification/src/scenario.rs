//! What scenarios of the quorum store share: the key under test with the nodes
//! that hold it, and the steps that read and write it.
//!
//! Every answer is waited for during at most a hundred simulation steps.

use crate::placement::{
    is_preference_list, key_hash, key_replicas, non_replicas, replica_position,
};
use crate::text::decimal;
use crate::plan::{copy_texts, Control, ControlView};
use crate::random::{made_of_symbols, random_string, symbols};
use crate::script::{source_views, After, Source, SourceView, Step, StepView};
use crate::text::{is_ascii_text, text_of, texts, upper, uppercase};
use vstd::prelude::*;

verus! {

/// The steps for which every answer is waited.
pub open spec fn patience() -> u32 {
    100
}

/// A key with the nodes that hold it and those that do not.
#[derive(Clone, Debug, PartialEq, Eq)]
pub struct Placement {
    pub key: String,
    /// The three replicas of the key, in the order of its preference list.
    pub replicas: Vec<String>,
    /// The other nodes, in the order of the node list.
    pub others: Vec<String>,
}

/// The nodes of `nodes` that are not among the replicas of a key with this hash.
pub open spec fn others_of(nodes: Seq<Seq<char>>, replicas: Seq<Seq<char>>) -> Seq<Seq<char>> {
    nodes.filter(|n: Seq<char>| !replicas.contains(n))
}

/// The placement of `key` among `nodes`.
pub open spec fn placed(p: Placement, key: Seq<char>, nodes: Seq<Seq<char>>) -> bool {
    &&& p.key@ == key
    &&& is_preference_list(texts(p.replicas@), key_hash(key), nodes.len())
    &&& texts(p.others@) == others_of(nodes, texts(p.replicas@))
}

/// Places `key` among `nodes`.
pub fn place(key: String, nodes: &Vec<String>) -> (p: Placement)
    requires
        0 < nodes.len() <= u32::MAX,
    ensures
        placed(p, key@, texts(nodes@)),
{
    let replicas = key_replicas(key.as_str(), nodes.len() as u32);
    let others = non_replicas(nodes, &replicas);
    Placement { key, replicas, others }
}

/// Symbols are ASCII characters.
pub proof fn lemma_symbols_ascii(s: Seq<char>)
    requires
        made_of_symbols(s),
    ensures
        is_ascii_text(s),
{
    assert forall|i: int| 0 <= i < s.len() implies '\0' <= #[trigger] s[i] <= '\u{7f}' by {
        assert(symbols().contains(s[i]));
        let k = choose|k: int| 0 <= k < symbols().len() && symbols()[k] == s[i];
        assert(symbols().len() == 36);
        assert(forall|j: int| 0 <= j < 36 ==> '\0' <= #[trigger] symbols()[j] <= '\u{7f}');
    }
}

/// A key is a random key after `prefix` when it is the upper-case form of the
/// prefix followed by eight symbols.
pub open spec fn is_random_key(key: Seq<char>, prefix: Seq<char>) -> bool {
    exists|tail: Seq<char>|
        #![trigger made_of_symbols(tail)]
        tail.len() == 8 && made_of_symbols(tail) && key == (prefix + tail).map_values(
            |c: char| upper(c),
        )
}

/// A random key: eight random symbols after `prefix`, in upper case.
pub fn random_key(prefix: &str, rng: &mut rand_pcg::Pcg64) -> (key: String)
    requires
        is_ascii_text(prefix@),
    ensures
        is_random_key(key@, prefix@),
{
    let tail = random_string(8, rng);
    let mut low = text_of(prefix);
    low.append(tail.as_str());
    proof {
        lemma_symbols_ascii(tail@);
        assert forall|i: int| 0 <= i < low@.len() implies '\0' <= #[trigger] low@[i] <= '\u{7f}' by {
            if i < prefix@.len() {
                assert(low@[i] == prefix@[i]);
            } else {
                assert(low@[i] == tail@[i - prefix@.len()]);
            }
        }
    }
    uppercase(low.as_str())
}

/// A step that reads `key` at `node` and expects the siblings that `expected`
/// stands for, or nothing in particular.
pub open spec fn reading(
    node: Seq<char>,
    key: Seq<char>,
    quorum: u8,
    expected: Option<Seq<SourceView>>,
) -> StepView {
    StepView::Read { node, key, quorum, expected, cart: None, max_steps: patience() }
}

/// A step that reads `key` at `node` and expects one cart with these items.
pub open spec fn reading_cart(node: Seq<char>, key: Seq<char>, quorum: u8, cart: Seq<Seq<char>>) -> StepView {
    StepView::Read { node, key, quorum, expected: None, cart: Some(cart), max_steps: patience() }
}

/// A step that writes `value` under `key` at `node`.
pub open spec fn writing(
    node: Seq<char>,
    key: Seq<char>,
    value: SourceView,
    context: Option<usize>,
    quorum: u8,
    after: After,
) -> StepView {
    StepView::Write { node, key, value, context, quorum, after, max_steps: patience() }
}

/// A step that acts on the simulation.
pub open spec fn doing(control: ControlView) -> StepView {
    StepView::Do(control)
}

/// A source that stands for the text itself.
pub fn fixed(text: &str) -> (s: Source)
    ensures
        s@ == SourceView::Fixed(text@),
{
    Source::Fixed(text_of(text))
}

/// The value that the write at `step` put.
pub fn put_at(step: usize) -> (s: Source)
    ensures
        s@ == SourceView::PutAt(step),
{
    Source::PutAt(step)
}

/// A list of one source.
pub fn one(a: Source) -> (list: Vec<Source>)
    ensures
        source_views(list@) == seq![a@],
{
    let mut list: Vec<Source> = Vec::new();
    list.push(a);
    assert(source_views(list@) == seq![a@]);
    list
}

/// A list of two sources.
pub fn two(a: Source, b: Source) -> (list: Vec<Source>)
    ensures
        source_views(list@) == seq![a@, b@],
{
    let mut list: Vec<Source> = Vec::new();
    list.push(a);
    list.push(b);
    assert(source_views(list@) == seq![a@, b@]);
    list
}

/// A step that reads `key` at `node` and expects these siblings, or nothing in
/// particular.
pub fn read_step(node: &String, key: &String, quorum: u8, expected: Option<Vec<Source>>) -> (s: Step)
    ensures
        s@ == reading(
            node@,
            key@,
            quorum,
            match expected {
                Some(list) => Some(source_views(list@)),
                None => None,
            },
        ),
{
    Step::Read { node: node.clone(), key: key.clone(), quorum, expected, cart: None, max_steps: 100 }
}

/// A step that reads `key` at `node` and expects one cart with these items.
pub fn read_cart(node: &String, key: &String, quorum: u8, cart: &Vec<String>) -> (s: Step)
    ensures
        s@ == reading_cart(node@, key@, quorum, texts(cart@)),
{
    Step::Read {
        node: node.clone(),
        key: key.clone(),
        quorum,
        expected: None,
        cart: Some(copy_texts(cart)),
        max_steps: 100,
    }
}

/// A step that writes `value` under `key` at `node`.
pub fn write_step(
    node: &String,
    key: &String,
    value: Source,
    context: Option<usize>,
    quorum: u8,
    after: After,
) -> (s: Step)
    ensures
        s@ == writing(node@, key@, value@, context, quorum, after),
{
    Step::Write {
        node: node.clone(),
        key: key.clone(),
        value,
        context,
        quorum,
        after,
        max_steps: 100,
    }
}

/// A step that cuts `node` off the network.
pub fn disconnect(node: &String) -> (s: Step)
    ensures
        s@ == doing(ControlView::Disconnect { node: node@ }),
{
    Step::Do(Control::Disconnect { node: node.clone() })
}

/// A step that connects `node` to the network again.
pub fn connect(node: &String) -> (s: Step)
    ensures
        s@ == doing(ControlView::Connect { node: node@ }),
{
    Step::Do(Control::Connect { node: node.clone() })
}

/// A step that advances the simulation by `count` events.
pub fn steps(count: u32) -> (s: Step)
    ensures
        s@ == doing(ControlView::Steps { count }),
{
    Step::Do(Control::Steps { count })
}

/// A step that makes the network whole again.
pub fn heal() -> (s: Step)
    ensures
        s@ == doing(ControlView::ResetNetwork),
{
    Step::Do(Control::ResetNetwork)
}

/// A list of three texts.
pub fn three(a: &String, b: &String, c: &String) -> (list: Vec<String>)
    ensures
        texts(list@) == seq![a@, b@, c@],
{
    let mut list: Vec<String> = Vec::new();
    list.push(a.clone());
    list.push(b.clone());
    list.push(c.clone());
    assert(texts(list@) == seq![a@, b@, c@]);
    list
}

/// A step that cuts every link between the two groups.
pub fn partition(first: Vec<String>, second: Vec<String>) -> (s: Step)
    ensures
        s@ == doing(ControlView::Partition { first: texts(first@), second: texts(second@) }),
{
    Step::Do(Control::Partition { first, second })
}

/// Adds a step at the end of a script.
pub fn append_step(script: &mut Vec<Step>, step: Step)
    ensures
        crate::script::step_views(final(script)@) == crate::script::step_views(old(script)@).push(
            step@,
        ),
{
    let ghost before = crate::script::step_views(script@);
    script.push(step);
    assert(crate::script::step_views(script@) == before.push(step@));
}

/// A placement offers what most scenarios need: three replicas and at least
/// `others` other nodes.
pub open spec fn roomy(p: Placement, others: nat) -> bool {
    p.replicas.len() == 3 && p.others.len() >= others
}

/// Whether the placement has three replicas and at least `others` other nodes.
pub fn is_roomy(p: &Placement, others: usize) -> (r: bool)
    ensures
        r == roomy(*p, others as nat),
{
    p.replicas.len() == 3 && p.others.len() >= others
}

/// The two sides of the partition that the scenarios make: the first two of the
/// other nodes with the first replica, and the third with the other replicas.
pub open spec fn split(p: Placement) -> StepView {
    doing(
        ControlView::Partition {
            first: seq![p.others[0]@, p.others[1]@, p.replicas[0]@],
            second: seq![p.others[2]@, p.replicas[1]@, p.replicas[2]@],
        },
    )
}

pub fn split_step(p: &Placement) -> (s: Step)
    requires
        roomy(*p, 3),
    ensures
        s@ == split(*p),
{
    partition(
        three(&p.others[0], &p.others[1], &p.replicas[0]),
        three(&p.others[2], &p.replicas[1], &p.replicas[2]),
    )
}

/// A step that reads `key` at `node` from the single-value store and expects
/// this value, or that there is none.
pub open spec fn getting(node: Seq<char>, key: Seq<char>, quorum: u8, expected: Option<Seq<char>>) -> StepView {
    StepView::Get { node, key, quorum, expected, max_steps: patience() }
}

/// A step that writes `value` under `key` at `node` to the single-value store.
pub open spec fn putting(node: Seq<char>, key: Seq<char>, value: Seq<char>, quorum: u8) -> StepView {
    StepView::Put { node, key, value, quorum, max_steps: patience() }
}

/// A step that deletes `key` at `node` from the single-value store and expects
/// that this value was stored, or none.
pub open spec fn deleting(node: Seq<char>, key: Seq<char>, quorum: u8, expected: Option<Seq<char>>) -> StepView {
    StepView::Delete { node, key, quorum, expected, max_steps: patience() }
}

/// A step that reads `key` at `node` and expects `value`.
pub fn get_step(node: &String, key: &String, quorum: u8, value: &str) -> (s: Step)
    ensures
        s@ == getting(node@, key@, quorum, Some(value@)),
{
    Step::Get {
        node: node.clone(),
        key: key.clone(),
        quorum,
        expected: Some(text_of(value)),
        max_steps: 100,
    }
}

/// A step that reads `key` at `node` and expects that nothing is stored.
pub fn get_nothing_step(node: &String, key: &String, quorum: u8) -> (s: Step)
    ensures
        s@ == getting(node@, key@, quorum, None),
{
    Step::Get { node: node.clone(), key: key.clone(), quorum, expected: None, max_steps: 100 }
}

/// A step that writes `value` under `key` at `node`.
pub fn put_step(node: &String, key: &String, value: &str, quorum: u8) -> (s: Step)
    ensures
        s@ == putting(node@, key@, value@, quorum),
{
    Step::Put { node: node.clone(), key: key.clone(), value: text_of(value), quorum, max_steps: 100 }
}

/// A step that deletes `key` at `node` and expects that `value` was stored.
pub fn delete_step(node: &String, key: &String, quorum: u8, value: &str) -> (s: Step)
    ensures
        s@ == deleting(node@, key@, quorum, Some(value@)),
{
    Step::Delete {
        node: node.clone(),
        key: key.clone(),
        quorum,
        expected: Some(text_of(value)),
        max_steps: 100,
    }
}

/// Adds the steps of `part` at the end of a script.
pub fn extend(script: &mut Vec<Step>, part: Vec<Step>)
    ensures
        crate::script::step_views(final(script)@) == crate::script::step_views(old(script)@)
            + crate::script::step_views(part@),
{
    let mut part = part;
    let ghost before = crate::script::step_views(script@);
    let ghost added = crate::script::step_views(part@);
    script.append(&mut part);
    assert(crate::script::step_views(script@) == before + added);
}

/// A key avoids a node when the node is none of its three replicas among
/// `node_count` nodes.
pub open spec fn avoids(key: Seq<char>, node: Seq<char>, node_count: nat) -> bool {
    &&& node != decimal(replica_position(key_hash(key), node_count, 0))
    &&& node != decimal(replica_position(key_hash(key), node_count, 1))
    &&& node != decimal(replica_position(key_hash(key), node_count, 2))
}

/// Draws random keys until one avoids `node`, at most `max_draws` times. Whether
/// a key drawn avoids the node is what [`crate::placement::holds_key`] says of
/// it. There is no result where every key drawn has `node` among its replicas:
/// so where no draw is allowed, and where `node` is one of the nodes of a
/// cluster of three or fewer, which are replicas of every key.
pub fn idle_key(node: &String, node_count: u32, rng: &mut rand_pcg::Pcg64, max_draws: u32) -> (r:
    Option<String>)
    requires
        node_count > 0,
    ensures
        r matches Some(key) ==> is_random_key(key@, ""@) && avoids(key@, node@, node_count as nat),
        max_draws == 0 ==> r is None,
        node_count <= 3 && (exists|k: nat| k < node_count && node@ == #[trigger] decimal(k))
            ==> r is None,
{
    let mut left = max_draws;
    while left > 0
        invariant
            node_count > 0,
            left <= max_draws,
        decreases left,
    {
        proof {
            reveal_strlit("");
        }
        let key = random_key("", rng);
        if !crate::placement::holds_key(node, key.as_str(), node_count) {
            proof {
                if node_count <= 3 && (exists|k: nat| k < node_count && node@ == #[trigger] decimal(k)) {
                    let k = choose|k: nat| k < node_count && node@ == #[trigger] decimal(k);
                    crate::placement::lemma_small_cluster_covered(
                        key_hash(key@),
                        node_count as nat,
                        k,
                    );
                }
            }
            return Some(key);
        }
        left -= 1;
    }
    None
}

/// The cast of a scenario: the key under test with its placement, and the
/// random values that the scenario writes.
#[derive(Clone, Debug, PartialEq, Eq)]
pub struct Cast {
    pub placement: Placement,
    pub values: Vec<String>,
}

/// Every text is eight symbols long.
pub open spec fn random_values(values: Seq<Seq<char>>) -> bool {
    forall|i: int| 0 <= i < values.len() ==> (#[trigger] values[i]).len() == 8 && made_of_symbols(values[i])
}

/// Draws `count` random values.
pub fn draw_values(count: usize, rng: &mut rand_pcg::Pcg64) -> (values: Vec<String>)
    ensures
        values.len() == count,
        random_values(texts(values@)),
{
    let mut values: Vec<String> = Vec::new();
    while values.len() < count
        invariant
            values.len() <= count,
            random_values(texts(values@)),
        decreases count - values.len(),
    {
        let ghost before = texts(values@);
        let value = random_string(8, rng);
        values.push(value);
        assert forall|i: int| 0 <= i < values.len() implies (#[trigger] texts(values@)[i]).len() == 8
            && made_of_symbols(texts(values@)[i]) by {
            if i < before.len() {
                assert(texts(values@)[i] == before[i]);
            }
        }
    }
    values
}

/// Draws the key of a scenario, places it among the nodes, and draws `count`
/// values. The key is drawn first. There is no cast where there is no node or
/// their number does not fit the measure of the cluster.
pub fn draw_cast(prefix: &str, nodes: &Vec<String>, count: usize, rng: &mut rand_pcg::Pcg64) -> (r:
    Option<Cast>)
    requires
        is_ascii_text(prefix@),
    ensures
        r is Some <==> 0 < nodes.len() <= u32::MAX,
        r matches Some(cast) ==> {
            &&& is_random_key(cast.placement.key@, prefix@)
            &&& placed(cast.placement, cast.placement.key@, texts(nodes@))
            &&& cast.values.len() == count
            &&& random_values(texts(cast.values@))
        },
{
    if nodes.len() == 0 || nodes.len() > u32::MAX as usize {
        return None;
    }
    let key = random_key(prefix, rng);
    let values = draw_values(count, rng);
    Some(Cast { placement: place(key, nodes), values })
}

/// A scenario made ready to run: its cast, the keys that are read to let time
/// pass, and its script.
#[derive(Debug)]
pub struct Staged {
    pub cast: Cast,
    pub idle_keys: Vec<String>,
    pub script: Vec<Step>,
}

/// Of nodes that are all different, as many are held back as are also among
/// `replicas`.
proof fn lemma_held_back(nodes: Seq<Seq<char>>, replicas: Seq<Seq<char>>)
    requires
        nodes.no_duplicates(),
    ensures
        nodes.len() - others_of(nodes, replicas).len() == replicas.to_set().intersect(
            nodes.to_set(),
        ).len(),
    decreases nodes.len(),
{
    broadcast use {vstd::set::group_set_axioms, vstd::seq_lib::seq_to_set_is_finite};

    let outside = |n: Seq<char>| !replicas.contains(n);
    let both = replicas.to_set().intersect(nodes.to_set());
    if nodes.len() == 0 {
        reveal(Seq::filter);
        assert(both =~= Set::<Seq<char>>::empty());
    } else {
        let head = nodes.drop_last();
        let x = nodes.last();
        assert(head.push(x) == nodes);
        head.lemma_filter_push(x, outside);
        lemma_held_back(head, replicas);
        let before = replicas.to_set().intersect(head.to_set());
        assert(!head.contains(x)) by {
            if head.contains(x) {
                let k = choose|k: int| 0 <= k < head.len() && head[k] == x;
                assert(nodes[k] == x);
            }
        }
        vstd::set_lib::lemma_len_intersect(replicas.to_set(), head.to_set());
        if replicas.contains(x) {
            assert(both =~= before.insert(x)) by {
                assert forall|y: Seq<char>| both.contains(y) == before.insert(x).contains(y) by {
                    if nodes.contains(y) && y != x {
                        let k = choose|k: int| 0 <= k < nodes.len() && nodes[k] == y;
                        assert(head[k] == y);
                    }
                    if head.contains(y) {
                        let k = choose|k: int| 0 <= k < head.len() && head[k] == y;
                        assert(nodes[k] == y);
                    }
                    if y == x {
                        assert(nodes[nodes.len() - 1] == y);
                    }
                }
            }
        } else {
            assert(both =~= before) by {
                assert forall|y: Seq<char>| both.contains(y) == before.contains(y) by {
                    if nodes.contains(y) && y != x {
                        let k = choose|k: int| 0 <= k < nodes.len() && nodes[k] == y;
                        assert(head[k] == y);
                    }
                    if head.contains(y) {
                        let k = choose|k: int| 0 <= k < head.len() && head[k] == y;
                        assert(nodes[k] == y);
                    }
                }
            }
        }
    }
}

/// Among nodes that are all different, all but three at most are left outside
/// the replicas of a key.
pub proof fn lemma_room(p: Placement, key: Seq<char>, nodes: Seq<Seq<char>>)
    requires
        placed(p, key, nodes),
        nodes.no_duplicates(),
    ensures
        p.replicas.len() == 3,
        p.others.len() + 3 >= nodes.len(),
{
    broadcast use vstd::seq_lib::seq_to_set_is_finite;

    let replicas = texts(p.replicas@);
    lemma_held_back(nodes, replicas);
    vstd::set_lib::lemma_len_intersect(replicas.to_set(), nodes.to_set());
    replicas.lemma_cardinality_of_set();
}

} // verus!
