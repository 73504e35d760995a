//! The scenarios of the multi-value quorum store, as scripts.
//!
//! Each scenario is a function from the key under test, its placement and the
//! values to write to the list of steps. Concurrent writes are writes that hand
//! no context on; a write that builds on a read hands on the context that the
//! read returned.

use crate::plan::{Command, CommandView, Control, ControlView};
use crate::scenario::{
    append_step, connect, disconnect, doing, extend, fixed, heal, one, patience, put_at,
    avoids, draw_cast, idle_key, is_random_key, is_roomy, lemma_room, placed, random_values, read_cart,
    read_step, reading, reading_cart, roomy, split, split_step, steps, three, two, write_step,
    writing, Placement, Staged,
};
use crate::script::{source_views, step_views, After, Source, SourceView, Step, StepView};
use crate::random::{made_of_symbols, random_string};
use crate::text::{is_ascii_text, text_of, texts};
use vstd::prelude::*;

verus! {

/// What the reads at the end of a scenario expect.
#[derive(Debug)]
pub enum Expecting {
    /// The values put at these two steps, as siblings.
    Pair { first: usize, second: usize },
    /// One cart that lists these items.
    Cart(Vec<String>),
}

/// What an [`Expecting`] holds.
pub enum ExpectingView {
    Pair { first: usize, second: usize },
    Cart(Seq<Seq<char>>),
}

impl View for Expecting {
    type V = ExpectingView;

    open spec fn view(&self) -> ExpectingView {
        match self {
            Expecting::Pair { first, second } => ExpectingView::Pair {
                first: *first,
                second: *second,
            },
            Expecting::Cart(items) => ExpectingView::Cart(texts(items@)),
        }
    }
}

/// The step that reads `key` at `node` and expects `what`.
pub open spec fn final_reading(node: Seq<char>, key: Seq<char>, quorum: u8, what: ExpectingView) -> StepView {
    match what {
        ExpectingView::Pair { first, second } => reading(
            node,
            key,
            quorum,
            Some(seq![SourceView::PutAt(first), SourceView::PutAt(second)]),
        ),
        ExpectingView::Cart(items) => reading_cart(node, key, quorum, items),
    }
}

/// The script followed by one read of `key` at each of the nodes.
pub open spec fn with_reads(
    script: Seq<StepView>,
    nodes: Seq<Seq<char>>,
    key: Seq<char>,
    quorum: u8,
    what: ExpectingView,
) -> Seq<StepView>
    decreases nodes.len(),
{
    if nodes.len() == 0 {
        script
    } else {
        with_reads(script, nodes.drop_last(), key, quorum, what).push(
            final_reading(nodes.last(), key, quorum, what),
        )
    }
}

/// The script followed, for each of the nodes, by cutting it off the network and
/// reading `key` at it from itself alone.
pub open spec fn with_isolated_reads(
    script: Seq<StepView>,
    nodes: Seq<Seq<char>>,
    key: Seq<char>,
    what: ExpectingView,
) -> Seq<StepView>
    decreases nodes.len(),
{
    if nodes.len() == 0 {
        script
    } else {
        with_isolated_reads(script, nodes.drop_last(), key, what).push(
            doing(ControlView::Disconnect { node: nodes.last() }),
        ).push(final_reading(nodes.last(), key, 1, what))
    }
}

fn final_read(node: &String, key: &String, quorum: u8, what: &Expecting) -> (s: Step)
    ensures
        s@ == final_reading(node@, key@, quorum, what@),
{
    match what {
        Expecting::Pair { first, second } => read_step(
            node,
            key,
            quorum,
            Some(two(put_at(*first), put_at(*second))),
        ),
        Expecting::Cart(items) => read_cart(node, key, quorum, items),
    }
}

/// Adds one read of `key` at each of the nodes.
pub fn add_reads(script: &mut Vec<Step>, nodes: &Vec<String>, key: &String, quorum: u8, what: &Expecting)
    ensures
        step_views(final(script)@) == with_reads(
            step_views(old(script)@),
            texts(nodes@),
            key@,
            quorum,
            what@,
        ),
{
    let ghost start = step_views(script@);
    let ghost all = texts(nodes@);
    let mut i: usize = 0;
    assert(all.take(0) == Seq::<Seq<char>>::empty());
    while i < nodes.len()
        invariant
            i <= nodes.len(),
            all == texts(nodes@),
            step_views(script@) == with_reads(start, all.take(i as int), key@, quorum, what@),
        decreases nodes.len() - i,
    {
        proof {
            assert(all.take(i + 1).drop_last() == all.take(i as int));
            assert(all.take(i + 1).last() == nodes[i as int]@);
        }
        append_step(script, final_read(&nodes[i], key, quorum, what));
        i += 1;
    }
    assert(all.take(nodes.len() as int) == all);
}

/// Adds, for each of the nodes, a step that cuts it off and a read of `key` at it.
pub fn add_isolated_reads(script: &mut Vec<Step>, nodes: &Vec<String>, key: &String, what: &Expecting)
    ensures
        step_views(final(script)@) == with_isolated_reads(
            step_views(old(script)@),
            texts(nodes@),
            key@,
            what@,
        ),
{
    let ghost start = step_views(script@);
    let ghost all = texts(nodes@);
    let mut i: usize = 0;
    assert(all.take(0) == Seq::<Seq<char>>::empty());
    while i < nodes.len()
        invariant
            i <= nodes.len(),
            all == texts(nodes@),
            step_views(script@) == with_isolated_reads(start, all.take(i as int), key@, what@),
        decreases nodes.len() - i,
    {
        proof {
            assert(all.take(i + 1).drop_last() == all.take(i as int));
            assert(all.take(i + 1).last() == nodes[i as int]@);
        }
        append_step(script, disconnect(&nodes[i]));
        append_step(script, final_read(&nodes[i], key, 1, what));
        i += 1;
    }
    assert(all.take(nodes.len() as int) == all);
}

/// The first five steps of the first cart scenario: two clients add to a cart in
/// turn, each building on its own last write.
pub open spec fn shopping_cart_1_writes(p: Placement) -> Seq<StepView> {
    let key = p.key@;
    let first = p.others[0]@;
    let second = p.others[1]@;
    seq![
        writing(first, key, SourceView::Fixed("milk"@), None, 2, After::Single),
        writing(second, key, SourceView::Fixed("eggs"@), None, 2, After::Single),
        writing(first, key, SourceView::CartOf { step: 0, item: "flour"@ }, Some(0), 2, After::Single),
        writing(second, key, SourceView::CartOf { step: 1, item: "ham"@ }, Some(1), 2, After::Single),
        writing(first, key, SourceView::CartOf { step: 2, item: "bacon"@ }, Some(2), 2, After::Single),
    ]
}

/// The first cart scenario: after the writes, every node outside the replicas
/// must see one cart with all five items.
pub open spec fn shopping_cart_1_script(p: Placement) -> Seq<StepView> {
    with_reads(
        shopping_cart_1_writes(p),
        texts(p.others@),
        p.key@,
        2,
        ExpectingView::Cart(seq!["milk"@, "eggs"@, "flour"@, "ham"@, "bacon"@]),
    )
}

fn cart_item(step: usize, item: &str) -> (s: Source)
    ensures
        s@ == (SourceView::CartOf { step, item: item@ }),
{
    Source::CartOf { step, item: text_of(item) }
}

fn appended(step: usize, suffix: &str) -> (s: Source)
    ensures
        s@ == (SourceView::Appended { step, suffix: suffix@ }),
{
    Source::Appended { step, suffix: text_of(suffix) }
}

fn items4(a: &str, b: &str, c: &str, d: &str) -> (list: Vec<String>)
    ensures
        texts(list@) == seq![a@, b@, c@, d@],
{
    let mut list: Vec<String> = Vec::new();
    list.push(text_of(a));
    list.push(text_of(b));
    list.push(text_of(c));
    list.push(text_of(d));
    assert(texts(list@) == seq![a@, b@, c@, d@]);
    list
}

/// The script of the first cart scenario.
pub fn shopping_cart_1(p: &Placement) -> (script: Vec<Step>)
    requires
        roomy(*p, 2),
    ensures
        step_views(script@) == shopping_cart_1_script(*p),
{
    let key = &p.key;
    let first = &p.others[0];
    let second = &p.others[1];
    let mut script: Vec<Step> = Vec::new();
    append_step(&mut script, write_step(first, key, fixed("milk"), None, 2, After::Single));
    append_step(&mut script, write_step(second, key, fixed("eggs"), None, 2, After::Single));
    append_step(&mut script, write_step(first, key, cart_item(0, "flour"), Some(0), 2, After::Single));
    append_step(&mut script, write_step(second, key, cart_item(1, "ham"), Some(1), 2, After::Single));
    append_step(&mut script, write_step(first, key, cart_item(2, "bacon"), Some(2), 2, After::Single));
    assert(step_views(script@) == shopping_cart_1_writes(*p));
    let mut items = items4("milk", "eggs", "flour", "ham");
    let ghost before = texts(items@);
    items.push(text_of("bacon"));
    assert(texts(items@) == before.push("bacon"@));
    assert(texts(items@) == seq!["milk"@, "eggs"@, "flour"@, "ham"@, "bacon"@]);
    add_reads(&mut script, &p.others, key, 2, &Expecting::Cart(items));
    script
}

/// The steps of a cart scenario across a partition, up to the healing of the
/// network. A cart `start` is written to all replicas. On one side a client
/// writes `grown` on top of it and another adds eggs to what it reads; on the
/// other side a client replaces the cart by `other`. Each side checks what it
/// wrote by a read.
pub open spec fn split_cart_steps(p: Placement, start: Seq<char>, grown: Seq<char>, other: Seq<char>) -> Seq<
    StepView,
> {
    let key = p.key@;
    seq![
        writing(p.others[0]@, key, SourceView::Fixed(start), None, 3, After::Nothing),
        split(p),
        writing(p.others[0]@, key, SourceView::Fixed(grown), Some(0), 2, After::Nothing),
        reading(p.others[1]@, key, 2, Some(seq![SourceView::Fixed(grown)])),
        writing(
            p.others[1]@,
            key,
            SourceView::CartOf { step: 3, item: "eggs"@ },
            Some(3),
            2,
            After::Nothing,
        ),
        reading(p.others[0]@, key, 2, Some(seq![SourceView::PutAt(4)])),
        reading(p.others[2]@, key, 2, Some(seq![SourceView::Fixed(start)])),
        writing(p.others[2]@, key, SourceView::Fixed(other), Some(6), 2, After::Nothing),
        reading(p.replicas[1]@, key, 2, Some(seq![SourceView::Fixed(other)])),
        doing(ControlView::ResetNetwork),
        doing(ControlView::Steps { count: 100 }),
    ]
}

/// A cart scenario across a partition: after the network healed, every node
/// outside the replicas, and then every replica on its own, must hold one cart
/// with the expected items.
pub open spec fn split_cart_script(
    p: Placement,
    start: Seq<char>,
    grown: Seq<char>,
    other: Seq<char>,
    expected: Seq<Seq<char>>,
) -> Seq<StepView> {
    with_isolated_reads(
        with_reads(
            split_cart_steps(p, start, grown, other),
            texts(p.others@),
            p.key@,
            2,
            ExpectingView::Cart(expected),
        ),
        texts(p.replicas@),
        p.key@,
        ExpectingView::Cart(expected),
    )
}

/// The script of a cart scenario across a partition.
pub fn split_cart(p: &Placement, start: &str, grown: &str, other: &str, expected: Vec<String>) -> (script:
    Vec<Step>)
    requires
        roomy(*p, 3),
    ensures
        step_views(script@) == split_cart_script(*p, start@, grown@, other@, texts(expected@)),
{
    let key = &p.key;
    let mut script: Vec<Step> = Vec::new();
    append_step(&mut script, write_step(&p.others[0], key, fixed(start), None, 3, After::Nothing));
    append_step(&mut script, split_step(p));
    append_step(&mut script, write_step(&p.others[0], key, fixed(grown), Some(0), 2, After::Nothing));
    append_step(&mut script, read_step(&p.others[1], key, 2, Some(one(fixed(grown)))));
    append_step(
        &mut script,
        write_step(&p.others[1], key, cart_item(3, "eggs"), Some(3), 2, After::Nothing),
    );
    append_step(&mut script, read_step(&p.others[0], key, 2, Some(one(put_at(4)))));
    append_step(&mut script, read_step(&p.others[2], key, 2, Some(one(fixed(start)))));
    append_step(&mut script, write_step(&p.others[2], key, fixed(other), Some(6), 2, After::Nothing));
    append_step(&mut script, read_step(&p.replicas[1], key, 2, Some(one(fixed(other)))));
    append_step(&mut script, heal());
    append_step(&mut script, steps(100));
    assert(step_views(script@) == split_cart_steps(*p, start@, grown@, other@));
    let what = Expecting::Cart(expected);
    add_reads(&mut script, &p.others, key, 2, &what);
    add_isolated_reads(&mut script, &p.replicas, key, &what);
    script
}

/// The second cart scenario: both sides add to the cart, one of them after
/// emptying it. A cart keeps what was ever added: all six items are expected.
pub open spec fn shopping_cart_2_script(p: Placement) -> Seq<StepView> {
    split_cart_script(
        p,
        "beer,snacks"@,
        "beer,snacks,milk"@,
        "cheese,wine"@,
        seq!["cheese"@, "wine"@, "milk"@, "eggs"@, "beer"@, "snacks"@],
    )
}

/// The script of the second cart scenario.
pub fn shopping_cart_2(p: &Placement) -> (script: Vec<Step>)
    requires
        roomy(*p, 3),
    ensures
        step_views(script@) == shopping_cart_2_script(*p),
{
    let mut items = items4("cheese", "wine", "milk", "eggs");
    let ghost four = texts(items@);
    items.push(text_of("beer"));
    items.push(text_of("snacks"));
    assert(texts(items@) == four.push("beer"@).push("snacks"@));
    assert(texts(items@) == seq!["cheese"@, "wine"@, "milk"@, "eggs"@, "beer"@, "snacks"@]);
    split_cart(p, "beer,snacks", "beer,snacks,milk", "cheese,wine", items)
}

/// The first scenario of a cart with removal: the same steps as the second cart
/// scenario, but what one side removed stays removed.
pub open spec fn shopping_xcart_1_script(p: Placement) -> Seq<StepView> {
    split_cart_script(
        p,
        "beer,snacks"@,
        "beer,snacks,milk"@,
        "cheese,wine"@,
        seq!["cheese"@, "wine"@, "milk"@, "eggs"@],
    )
}

/// The script of the first scenario of a cart with removal.
pub fn shopping_xcart_1(p: &Placement) -> (script: Vec<Step>)
    requires
        roomy(*p, 3),
    ensures
        step_views(script@) == shopping_xcart_1_script(*p),
{
    split_cart(
        p,
        "beer,snacks",
        "beer,snacks,milk",
        "cheese,wine",
        items4("cheese", "wine", "milk", "eggs"),
    )
}

/// The steps of the second scenario of a cart with removal, up to the healing
/// of the network: one side removes the lemonade and adds milk and eggs; the
/// other removes snacks and beer, adds cheese and wine, and then adds the snacks
/// back.
pub open spec fn shopping_xcart_2_steps(p: Placement) -> Seq<StepView> {
    let key = p.key@;
    seq![
        writing(
            p.others[0]@,
            key,
            SourceView::Fixed("lemonade,snacks,beer"@),
            None,
            3,
            After::Nothing,
        ),
        split(p),
        writing(
            p.others[0]@,
            key,
            SourceView::Fixed("snacks,beer,milk"@),
            Some(0),
            2,
            After::Nothing,
        ),
        reading(p.others[1]@, key, 2, Some(seq![SourceView::Fixed("snacks,beer,milk"@)])),
        writing(
            p.others[1]@,
            key,
            SourceView::CartOf { step: 3, item: "eggs"@ },
            Some(3),
            2,
            After::Nothing,
        ),
        reading(p.others[0]@, key, 2, Some(seq![SourceView::PutAt(4)])),
        reading(p.others[2]@, key, 2, Some(seq![SourceView::Fixed("lemonade,snacks,beer"@)])),
        writing(
            p.others[2]@,
            key,
            SourceView::Fixed("lemonade,cheese,wine"@),
            Some(6),
            2,
            After::Nothing,
        ),
        writing(
            p.others[2]@,
            key,
            SourceView::Fixed("lemonade,cheese,wine,snacks"@),
            Some(7),
            2,
            After::Nothing,
        ),
        reading(p.replicas[1]@, key, 2, Some(seq![SourceView::Fixed("lemonade,cheese,wine,snacks"@)])),
        doing(ControlView::ResetNetwork),
        doing(ControlView::Steps { count: 100 }),
    ]
}

/// The second scenario of a cart with removal: the lemonade that one side
/// removed is gone, the snacks that the other side added back are there.
pub open spec fn shopping_xcart_2_script(p: Placement) -> Seq<StepView> {
    let expected = ExpectingView::Cart(seq!["milk"@, "eggs"@, "wine"@, "snacks"@, "cheese"@]);
    with_isolated_reads(
        with_reads(shopping_xcart_2_steps(p), texts(p.others@), p.key@, 2, expected),
        texts(p.replicas@),
        p.key@,
        expected,
    )
}

/// The script of the second scenario of a cart with removal.
#[verifier::rlimit(60)]
pub fn shopping_xcart_2(p: &Placement) -> (script: Vec<Step>)
    requires
        roomy(*p, 3),
    ensures
        step_views(script@) == shopping_xcart_2_script(*p),
{
    let key = &p.key;
    let mut script: Vec<Step> = Vec::new();
    append_step(
        &mut script,
        write_step(&p.others[0], key, fixed("lemonade,snacks,beer"), None, 3, After::Nothing),
    );
    append_step(&mut script, split_step(p));
    append_step(
        &mut script,
        write_step(&p.others[0], key, fixed("snacks,beer,milk"), Some(0), 2, After::Nothing),
    );
    append_step(&mut script, read_step(&p.others[1], key, 2, Some(one(fixed("snacks,beer,milk")))));
    append_step(
        &mut script,
        write_step(&p.others[1], key, cart_item(3, "eggs"), Some(3), 2, After::Nothing),
    );
    append_step(&mut script, read_step(&p.others[0], key, 2, Some(one(put_at(4)))));
    append_step(
        &mut script,
        read_step(&p.others[2], key, 2, Some(one(fixed("lemonade,snacks,beer")))),
    );
    append_step(
        &mut script,
        write_step(&p.others[2], key, fixed("lemonade,cheese,wine"), Some(6), 2, After::Nothing),
    );
    append_step(
        &mut script,
        write_step(
            &p.others[2],
            key,
            fixed("lemonade,cheese,wine,snacks"),
            Some(7),
            2,
            After::Nothing,
        ),
    );
    append_step(
        &mut script,
        read_step(&p.replicas[1], key, 2, Some(one(fixed("lemonade,cheese,wine,snacks")))),
    );
    append_step(&mut script, heal());
    append_step(&mut script, steps(100));
    assert(step_views(script@) == shopping_xcart_2_steps(*p));
    let mut items = items4("milk", "eggs", "wine", "snacks");
    let ghost four = texts(items@);
    items.push(text_of("cheese"));
    assert(texts(items@) == four.push("cheese"@));
    assert(texts(items@) == seq!["milk"@, "eggs"@, "wine"@, "snacks"@, "cheese"@]);
    let what = Expecting::Cart(items);
    add_reads(&mut script, &p.others, key, 2, &what);
    add_isolated_reads(&mut script, &p.replicas, key, &what);
    script
}

/// The steps of the scenario of clients on both sides of a partition, up to the
/// healing of the network: each side reads the value, writes it with a mark of
/// its own added, and checks that by a read; one side does so twice.
pub open spec fn partitioned_clients_steps(p: Placement, writer: Seq<char>, value: Seq<char>) -> Seq<
    StepView,
> {
    let key = p.key@;
    seq![
        writing(writer, key, SourceView::Fixed(value), None, 3, After::Nothing),
        split(p),
        reading(p.others[0]@, key, 2, Some(seq![SourceView::Fixed(value)])),
        writing(
            p.others[0]@,
            key,
            SourceView::Appended { step: 2, suffix: "-1"@ },
            Some(2),
            2,
            After::Nothing,
        ),
        reading(p.others[1]@, key, 2, Some(seq![SourceView::PutAt(3)])),
        writing(
            p.others[1]@,
            key,
            SourceView::Appended { step: 4, suffix: "-2"@ },
            Some(4),
            2,
            After::Nothing,
        ),
        reading(p.others[1]@, key, 2, Some(seq![SourceView::PutAt(5)])),
        reading(p.others[2]@, key, 2, Some(seq![SourceView::Fixed(value)])),
        writing(
            p.others[2]@,
            key,
            SourceView::Appended { step: 7, suffix: "-3"@ },
            Some(7),
            2,
            After::Nothing,
        ),
        reading(p.others[2]@, key, 2, Some(seq![SourceView::PutAt(8)])),
        doing(ControlView::ResetNetwork),
        doing(ControlView::Steps { count: 100 }),
    ]
}

/// The scenario of clients on both sides of a partition: after the network
/// healed, the first three nodes outside the replicas, and then every replica on
/// its own, must hold the last value of each side as siblings.
pub open spec fn partitioned_clients_script(p: Placement, writer: Seq<char>, value: Seq<char>) -> Seq<
    StepView,
> {
    let both = ExpectingView::Pair { first: 5, second: 8 };
    with_isolated_reads(
        with_reads(
            partitioned_clients_steps(p, writer, value),
            texts(p.others@).take(3),
            p.key@,
            2,
            both,
        ),
        texts(p.replicas@),
        p.key@,
        both,
    )
}

/// The script of the scenario of clients on both sides of a partition.
#[verifier::rlimit(60)]
pub fn partitioned_clients(p: &Placement, writer: &String, value: &str) -> (script: Vec<Step>)
    requires
        roomy(*p, 3),
    ensures
        step_views(script@) == partitioned_clients_script(*p, writer@, value@),
{
    let key = &p.key;
    let mut script: Vec<Step> = Vec::new();
    append_step(&mut script, write_step(writer, key, fixed(value), None, 3, After::Nothing));
    append_step(&mut script, split_step(p));
    append_step(&mut script, read_step(&p.others[0], key, 2, Some(one(fixed(value)))));
    append_step(
        &mut script,
        write_step(&p.others[0], key, appended(2, "-1"), Some(2), 2, After::Nothing),
    );
    append_step(&mut script, read_step(&p.others[1], key, 2, Some(one(put_at(3)))));
    append_step(
        &mut script,
        write_step(&p.others[1], key, appended(4, "-2"), Some(4), 2, After::Nothing),
    );
    append_step(&mut script, read_step(&p.others[1], key, 2, Some(one(put_at(5)))));
    append_step(&mut script, read_step(&p.others[2], key, 2, Some(one(fixed(value)))));
    append_step(
        &mut script,
        write_step(&p.others[2], key, appended(7, "-3"), Some(7), 2, After::Nothing),
    );
    append_step(&mut script, read_step(&p.others[2], key, 2, Some(one(put_at(8)))));
    append_step(&mut script, heal());
    append_step(&mut script, steps(100));
    assert(step_views(script@) == partitioned_clients_steps(*p, writer@, value@));
    let both = Expecting::Pair { first: 5, second: 8 };
    let clients = three(&p.others[0], &p.others[1], &p.others[2]);
    assert(texts(clients@) == texts(p.others@).take(3));
    add_reads(&mut script, &clients, key, 2, &both);
    add_isolated_reads(&mut script, &p.replicas, key, &both);
    script
}

/// The basic scenario: an empty read, a write without context, reads of the
/// value at a replica and at another node, a write on top of what was read, and
/// a read of the new value. Each write must return its value alone.
pub open spec fn basic_script(p: Placement, anyone: Seq<char>, value: Seq<char>, newer: Seq<char>) -> Seq<
    StepView,
> {
    let key = p.key@;
    seq![
        reading(anyone, key, 2, Some(Seq::empty())),
        writing(p.replicas[0]@, key, SourceView::Fixed(value), None, 2, After::SingleSame),
        reading(p.replicas[2]@, key, 2, Some(seq![SourceView::Fixed(value)])),
        reading(p.others[0]@, key, 2, Some(seq![SourceView::Fixed(value)])),
        reading(p.others[0]@, key, 2, Some(seq![SourceView::Fixed(value)])),
        writing(p.others[2]@, key, SourceView::Fixed(newer), Some(4), 2, After::SingleSame),
        reading(anyone, key, 2, Some(seq![SourceView::Fixed(newer)])),
    ]
}

fn nothing_stored() -> (list: Vec<Source>)
    ensures
        source_views(list@) == Seq::<SourceView>::empty(),
{
    let list: Vec<Source> = Vec::new();
    assert(source_views(list@) == Seq::<SourceView>::empty());
    list
}

/// The script of the basic scenario.
pub fn basic(p: &Placement, anyone: &String, value: &str, newer: &str) -> (script: Vec<Step>)
    requires
        roomy(*p, 3),
    ensures
        step_views(script@) == basic_script(*p, anyone@, value@, newer@),
{
    let key = &p.key;
    let mut script: Vec<Step> = Vec::new();
    append_step(&mut script, read_step(anyone, key, 2, Some(nothing_stored())));
    append_step(
        &mut script,
        write_step(&p.replicas[0], key, fixed(value), None, 2, After::SingleSame),
    );
    append_step(&mut script, read_step(&p.replicas[2], key, 2, Some(one(fixed(value)))));
    append_step(&mut script, read_step(&p.others[0], key, 2, Some(one(fixed(value)))));
    append_step(&mut script, read_step(&p.others[0], key, 2, Some(one(fixed(value)))));
    append_step(
        &mut script,
        write_step(&p.others[2], key, fixed(newer), Some(4), 2, After::SingleSame),
    );
    append_step(&mut script, read_step(anyone, key, 2, Some(one(fixed(newer)))));
    script
}

/// The scenario of a stale replica: a replica misses a write while it is cut
/// off, and must have caught up some time after it is connected again.
pub open spec fn stale_replica_script(p: Placement, value: Seq<char>, newer: Seq<char>) -> Seq<
    StepView,
> {
    let key = p.key@;
    seq![
        writing(p.others[0]@, key, SourceView::Fixed(value), None, 3, After::Nothing),
        doing(ControlView::Disconnect { node: p.replicas[0]@ }),
        reading(p.replicas[2]@, key, 2, Some(seq![SourceView::Fixed(value)])),
        writing(p.replicas[2]@, key, SourceView::Fixed(newer), Some(2), 2, After::Nothing),
        doing(ControlView::Disconnect { node: p.replicas[2]@ }),
        doing(ControlView::Connect { node: p.replicas[0]@ }),
        reading(p.replicas[1]@, key, 2, Some(seq![SourceView::Fixed(newer)])),
        doing(ControlView::Steps { count: 100 }),
        doing(ControlView::Disconnect { node: p.replicas[0]@ }),
        reading(p.replicas[0]@, key, 1, Some(seq![SourceView::Fixed(newer)])),
    ]
}

/// The script of the scenario of a stale replica.
#[verifier::rlimit(40)]
pub fn stale_replica(p: &Placement, value: &str, newer: &str) -> (script: Vec<Step>)
    requires
        roomy(*p, 1),
    ensures
        step_views(script@) == stale_replica_script(*p, value@, newer@),
{
    let key = &p.key;
    let mut script: Vec<Step> = Vec::new();
    append_step(&mut script, write_step(&p.others[0], key, fixed(value), None, 3, After::Nothing));
    append_step(&mut script, disconnect(&p.replicas[0]));
    append_step(&mut script, read_step(&p.replicas[2], key, 2, Some(one(fixed(value)))));
    append_step(
        &mut script,
        write_step(&p.replicas[2], key, fixed(newer), Some(2), 2, After::Nothing),
    );
    append_step(&mut script, disconnect(&p.replicas[2]));
    append_step(&mut script, connect(&p.replicas[0]));
    append_step(&mut script, read_step(&p.replicas[1], key, 2, Some(one(fixed(newer)))));
    append_step(&mut script, steps(100));
    append_step(&mut script, disconnect(&p.replicas[0]));
    append_step(&mut script, read_step(&p.replicas[0], key, 1, Some(one(fixed(newer)))));
    script
}

/// The scenario of sloppy quorum: with one replica cut off, a write and a read
/// with quorum three must still succeed, and the replica must hold the value
/// some time after it is connected again.
pub open spec fn sloppy_quorum_script(p: Placement, value: Seq<char>, newer: Seq<char>) -> Seq<
    StepView,
> {
    let key = p.key@;
    seq![
        writing(p.others[0]@, key, SourceView::Fixed(value), None, 3, After::Nothing),
        doing(ControlView::Disconnect { node: p.replicas[0]@ }),
        reading(p.others[1]@, key, 1, Some(seq![SourceView::Fixed(value)])),
        writing(p.others[1]@, key, SourceView::Fixed(newer), Some(2), 3, After::Nothing),
        reading(p.others[2]@, key, 3, Some(seq![SourceView::Fixed(newer)])),
        doing(ControlView::Connect { node: p.replicas[0]@ }),
        doing(ControlView::Steps { count: 100 }),
        doing(ControlView::Disconnect { node: p.replicas[0]@ }),
        reading(p.replicas[0]@, key, 1, Some(seq![SourceView::Fixed(newer)])),
    ]
}

/// The script of the scenario of sloppy quorum.
#[verifier::rlimit(40)]
pub fn sloppy_quorum(p: &Placement, value: &str, newer: &str) -> (script: Vec<Step>)
    requires
        roomy(*p, 3),
    ensures
        step_views(script@) == sloppy_quorum_script(*p, value@, newer@),
{
    let key = &p.key;
    let mut script: Vec<Step> = Vec::new();
    append_step(&mut script, write_step(&p.others[0], key, fixed(value), None, 3, After::Nothing));
    append_step(&mut script, disconnect(&p.replicas[0]));
    append_step(&mut script, read_step(&p.others[1], key, 1, Some(one(fixed(value)))));
    append_step(&mut script, write_step(&p.others[1], key, fixed(newer), Some(2), 3, After::Nothing));
    append_step(&mut script, read_step(&p.others[2], key, 3, Some(one(fixed(newer)))));
    append_step(&mut script, connect(&p.replicas[0]));
    append_step(&mut script, steps(100));
    append_step(&mut script, disconnect(&p.replicas[0]));
    append_step(&mut script, read_step(&p.replicas[0], key, 1, Some(one(fixed(newer)))));
    script
}

/// The first scenario of concurrent writes: two writes without context, one
/// after the other's answer. The second must return both values, and a read at a
/// third node must return both.
pub open spec fn concurrent_writes_1_script(p: Placement, a: Seq<char>, b: Seq<char>) -> Seq<
    StepView,
> {
    let key = p.key@;
    seq![
        writing(p.others[0]@, key, SourceView::Fixed(a), None, 2, After::SingleSame),
        writing(p.others[1]@, key, SourceView::Fixed(b), None, 2, After::Count { count: 2 }),
        reading(p.others[2]@, key, 2, Some(seq![SourceView::Fixed(a), SourceView::Fixed(b)])),
    ]
}

/// The script of the first scenario of concurrent writes.
pub fn concurrent_writes_1(p: &Placement, a: &str, b: &str) -> (script: Vec<Step>)
    requires
        roomy(*p, 3),
    ensures
        step_views(script@) == concurrent_writes_1_script(*p, a@, b@),
{
    let key = &p.key;
    let mut script: Vec<Step> = Vec::new();
    append_step(&mut script, write_step(&p.others[0], key, fixed(a), None, 2, After::SingleSame));
    append_step(
        &mut script,
        write_step(&p.others[1], key, fixed(b), None, 2, After::Count { count: 2 }),
    );
    append_step(&mut script, read_step(&p.others[2], key, 2, Some(two(fixed(a), fixed(b)))));
    script
}

/// The command that writes `value` under `key` without context, with quorum two.
pub open spec fn blind_put(key: Seq<char>, value: Seq<char>) -> CommandView {
    CommandView::Put { key, value, context: None, quorum: 2 }
}

/// The second scenario of concurrent writes: both writes are handed to their
/// nodes before either is answered. A read at a third node must return both
/// values.
pub open spec fn concurrent_writes_2_script(p: Placement, a: Seq<char>, b: Seq<char>) -> Seq<
    StepView,
> {
    let key = p.key@;
    seq![
        doing(ControlView::Send { node: p.others[0]@, command: blind_put(key, a) }),
        doing(ControlView::Send { node: p.others[1]@, command: blind_put(key, b) }),
        StepView::AwaitWrite { node: p.others[0]@, key, max_steps: patience() },
        StepView::AwaitWrite { node: p.others[1]@, key, max_steps: patience() },
        reading(p.others[2]@, key, 2, Some(seq![SourceView::Fixed(a), SourceView::Fixed(b)])),
    ]
}

fn send_blind_put(node: &String, key: &String, value: &str) -> (s: Step)
    ensures
        s@ == doing(ControlView::Send { node: node@, command: blind_put(key@, value@) }),
{
    Step::Do(
        Control::Send {
            node: node.clone(),
            command: Command::Put {
                key: key.clone(),
                value: text_of(value),
                context: None,
                quorum: 2,
            },
        },
    )
}

fn await_write(node: &String, key: &String) -> (s: Step)
    ensures
        s@ == (StepView::AwaitWrite { node: node@, key: key@, max_steps: patience() }),
{
    Step::AwaitWrite { node: node.clone(), key: key.clone(), max_steps: 100 }
}

/// The script of the second scenario of concurrent writes.
pub fn concurrent_writes_2(p: &Placement, a: &str, b: &str) -> (script: Vec<Step>)
    requires
        roomy(*p, 3),
    ensures
        step_views(script@) == concurrent_writes_2_script(*p, a@, b@),
{
    let key = &p.key;
    let mut script: Vec<Step> = Vec::new();
    append_step(&mut script, send_blind_put(&p.others[0], key, a));
    append_step(&mut script, send_blind_put(&p.others[1], key, b));
    append_step(&mut script, await_write(&p.others[0], key));
    append_step(&mut script, await_write(&p.others[1], key));
    append_step(&mut script, read_step(&p.others[2], key, 2, Some(two(fixed(a), fixed(b)))));
    script
}

/// The third scenario of concurrent writes: two replicas each take a write with
/// quorum one. A read with quorum three must return both values.
pub open spec fn concurrent_writes_3_script(p: Placement, a: Seq<char>, b: Seq<char>) -> Seq<
    StepView,
> {
    let key = p.key@;
    seq![
        writing(p.replicas[0]@, key, SourceView::Fixed(a), None, 1, After::Nothing),
        writing(p.replicas[1]@, key, SourceView::Fixed(b), None, 1, After::Nothing),
        reading(p.others[0]@, key, 3, Some(seq![SourceView::Fixed(a), SourceView::Fixed(b)])),
    ]
}

/// The script of the third scenario of concurrent writes.
pub fn concurrent_writes_3(p: &Placement, a: &str, b: &str) -> (script: Vec<Step>)
    requires
        roomy(*p, 1),
    ensures
        step_views(script@) == concurrent_writes_3_script(*p, a@, b@),
{
    let key = &p.key;
    let mut script: Vec<Step> = Vec::new();
    append_step(&mut script, write_step(&p.replicas[0], key, fixed(a), None, 1, After::Nothing));
    append_step(&mut script, write_step(&p.replicas[1], key, fixed(b), None, 1, After::Nothing));
    append_step(&mut script, read_step(&p.others[0], key, 3, Some(two(fixed(a), fixed(b)))));
    script
}

/// The steps in which replica `i` diverges: cut off, it reads the value and
/// writes `newer` on top of it alone. A read of another key at a node outside
/// the replicas lets time pass before the replica is connected again. The reads
/// and the write refer to each other by position: `at` is the position of the
/// first of these steps in the script.
pub open spec fn divergence(
    p: Placement,
    i: int,
    at: usize,
    value: Seq<char>,
    newer: Seq<char>,
    idle_key: Seq<char>,
) -> Seq<StepView> {
    let key = p.key@;
    seq![
        doing(ControlView::Disconnect { node: p.replicas[i]@ }),
        reading(p.replicas[i]@, key, 1, Some(seq![SourceView::Fixed(value)])),
        writing(
            p.replicas[i]@,
            key,
            SourceView::Fixed(newer),
            Some((at + 1) as usize),
            1,
            After::Nothing,
        ),
        reading(p.others[0]@, idle_key, 3, Some(Seq::empty())),
        doing(ControlView::Connect { node: p.replicas[i]@ }),
    ]
}

/// The scenario of diverged replicas: each replica in turn takes a write of its
/// own while cut off. A read with quorum three must then return all three
/// values.
pub open spec fn diverged_replicas_script(
    p: Placement,
    value: Seq<char>,
    newer: Seq<Seq<char>>,
    idle_keys: Seq<Seq<char>>,
) -> Seq<StepView> {
    let key = p.key@;
    seq![writing(p.replicas[0]@, key, SourceView::Fixed(value), None, 3, After::Nothing)]
        + divergence(p, 0, 1, value, newer[0], idle_keys[0]) + divergence(
        p,
        1,
        6,
        value,
        newer[1],
        idle_keys[1],
    ) + divergence(p, 2, 11, value, newer[2], idle_keys[2]) + seq![
        reading(
            p.replicas[0]@,
            key,
            3,
            Some(
                seq![
                    SourceView::Fixed(newer[0]),
                    SourceView::Fixed(newer[1]),
                    SourceView::Fixed(newer[2]),
                ],
            ),
        ),
    ]
}

fn diverge(p: &Placement, i: usize, at: usize, value: &str, newer: &String, idle_key: &String) -> (part:
    Vec<Step>)
    requires
        roomy(*p, 1),
        i < 3,
        at < 100,
    ensures
        step_views(part@) == divergence(*p, i as int, at, value@, newer@, idle_key@),
{
    let key = &p.key;
    let mut part: Vec<Step> = Vec::new();
    append_step(&mut part, disconnect(&p.replicas[i]));
    append_step(&mut part, read_step(&p.replicas[i], key, 1, Some(one(fixed(value)))));
    append_step(
        &mut part,
        write_step(&p.replicas[i], key, fixed(newer.as_str()), Some(at + 1), 1, After::Nothing),
    );
    append_step(&mut part, read_step(&p.others[0], idle_key, 3, Some(nothing_stored())));
    append_step(&mut part, connect(&p.replicas[i]));
    part
}

/// The script of the scenario of diverged replicas.
pub fn diverged_replicas(p: &Placement, value: &str, newer: &Vec<String>, idle_keys: &Vec<String>) -> (script:
    Vec<Step>)
    requires
        roomy(*p, 1),
        newer.len() == 3,
        idle_keys.len() == 3,
    ensures
        step_views(script@) == diverged_replicas_script(
            *p,
            value@,
            texts(newer@),
            texts(idle_keys@),
        ),
{
    let key = &p.key;
    let mut script: Vec<Step> = Vec::new();
    append_step(&mut script, write_step(&p.replicas[0], key, fixed(value), None, 3, After::Nothing));
    assert(step_views(script@) == seq![
        writing(p.replicas[0]@, key@, SourceView::Fixed(value@), None, 3, After::Nothing),
    ]);
    extend(&mut script, diverge(p, 0, 1, value, &newer[0], &idle_keys[0]));
    extend(&mut script, diverge(p, 1, 6, value, &newer[1], &idle_keys[1]));
    extend(&mut script, diverge(p, 2, 11, value, &newer[2], &idle_keys[2]));
    let mut all: Vec<Source> = Vec::new();
    all.push(fixed(newer[0].as_str()));
    all.push(fixed(newer[1].as_str()));
    all.push(fixed(newer[2].as_str()));
    assert(source_views(all@) == seq![
        SourceView::Fixed(newer[0]@),
        SourceView::Fixed(newer[1]@),
        SourceView::Fixed(newer[2]@),
    ]);
    let last = read_step(&p.replicas[0], key, 3, Some(all));
    let ghost before = step_views(script@);
    append_step(&mut script, last);
    assert(before.push(last@) == before + seq![last@]);
    script
}

/// The scenarios of the multi-value store.
#[derive(Clone, Copy, Debug, PartialEq, Eq, Structural)]
pub enum Kind {
    Basic,
    StaleReplica,
    ConcurrentWrites1,
    ConcurrentWrites2,
    ConcurrentWrites3,
    DivergedReplicas,
    SloppyQuorum,
    PartitionedClients,
    ShoppingCart1,
    ShoppingCart2,
    ShoppingXcart1,
    ShoppingXcart2,
}

/// How many nodes outside the replicas a scenario needs.
pub open spec fn room_needed(kind: Kind) -> nat {
    match kind {
        Kind::StaleReplica | Kind::ConcurrentWrites3 | Kind::DivergedReplicas => 1,
        Kind::ShoppingCart1 => 2,
        _ => 3,
    }
}

/// How many random values a scenario writes.
pub open spec fn values_drawn(kind: Kind) -> nat {
    match kind {
        Kind::PartitionedClients => 1,
        Kind::DivergedReplicas => 4,
        Kind::ShoppingCart1 | Kind::ShoppingCart2 | Kind::ShoppingXcart1 | Kind::ShoppingXcart2 => 0,
        _ => 2,
    }
}

/// What the keys of a scenario begin with, before they are put in upper case.
pub open spec fn key_prefix(kind: Kind) -> Seq<char> {
    match kind {
        Kind::ShoppingCart1 | Kind::ShoppingCart2 => "cart-"@,
        Kind::ShoppingXcart1 | Kind::ShoppingXcart2 => "xcart-"@,
        _ => ""@,
    }
}

/// The script of a scenario for a cast.
pub open spec fn script_for(
    kind: Kind,
    p: Placement,
    nodes: Seq<Seq<char>>,
    values: Seq<Seq<char>>,
    idle_keys: Seq<Seq<char>>,
) -> Seq<StepView> {
    match kind {
        Kind::Basic => basic_script(p, nodes[0], values[0], values[1]),
        Kind::StaleReplica => stale_replica_script(p, values[0], values[1]),
        Kind::ConcurrentWrites1 => concurrent_writes_1_script(p, values[0], values[1]),
        Kind::ConcurrentWrites2 => concurrent_writes_2_script(p, values[0], values[1]),
        Kind::ConcurrentWrites3 => concurrent_writes_3_script(p, values[0], values[1]),
        Kind::DivergedReplicas => diverged_replicas_script(p, values[0], values.skip(1), idle_keys),
        Kind::SloppyQuorum => sloppy_quorum_script(p, values[0], values[1]),
        Kind::PartitionedClients => partitioned_clients_script(p, nodes[0], values[0]),
        Kind::ShoppingCart1 => shopping_cart_1_script(p),
        Kind::ShoppingCart2 => shopping_cart_2_script(p),
        Kind::ShoppingXcart1 => shopping_xcart_1_script(p),
        Kind::ShoppingXcart2 => shopping_xcart_2_script(p),
    }
}

/// What holds of a staged scenario: the key is a random key that is placed among
/// the nodes with room enough, the values are random, every idle key avoids the
/// replica that is cut off while it is read, and the script is that of the
/// scenario for this cast.
pub open spec fn staged(kind: Kind, nodes: Seq<Seq<char>>, s: Staged) -> bool {
    let p = s.cast.placement;
    &&& is_random_key(p.key@, key_prefix(kind))
    &&& placed(p, p.key@, nodes)
    &&& roomy(p, room_needed(kind))
    &&& s.cast.values.len() == values_drawn(kind)
    &&& random_values(texts(s.cast.values@))
    &&& forall|i: int|
        0 <= i < s.idle_keys.len() ==> i < 3 && avoids(
            #[trigger] texts(s.idle_keys@)[i],
            p.replicas[i]@,
            nodes.len(),
        )
    &&& step_views(s.script@) == script_for(
        kind,
        p,
        nodes,
        texts(s.cast.values@),
        texts(s.idle_keys@),
    )
}

fn prefix_of(kind: Kind) -> (prefix: &'static str)
    ensures
        prefix@ == key_prefix(kind),
        is_ascii_text(prefix@),
{
    proof {
        reveal_strlit("cart-");
        reveal_strlit("xcart-");
        reveal_strlit("");
    }
    match kind {
        Kind::ShoppingCart1 | Kind::ShoppingCart2 => "cart-",
        Kind::ShoppingXcart1 | Kind::ShoppingXcart2 => "xcart-",
        _ => "",
    }
}

fn first_values(kind: Kind) -> (count: usize)
    ensures
        count == if kind is DivergedReplicas {
            1
        } else {
            values_drawn(kind)
        },
{
    match kind {
        Kind::PartitionedClients | Kind::DivergedReplicas => 1,
        Kind::ShoppingCart1 | Kind::ShoppingCart2 | Kind::ShoppingXcart1 | Kind::ShoppingXcart2 => 0,
        _ => 2,
    }
}

fn room_of(kind: Kind) -> (room: usize)
    ensures
        room == room_needed(kind),
{
    match kind {
        Kind::StaleReplica | Kind::ConcurrentWrites3 | Kind::DivergedReplicas => 1,
        Kind::ShoppingCart1 => 2,
        _ => 3,
    }
}

/// Stages a scenario: draws its key and values in the order in which the
/// scenario uses them, places the key, and writes the script. There is no result
/// where the cluster has no nodes or too few outside the replicas of the key
/// drawn, or where no idle key was drawn within `max_draws` draws, as is the case
/// where no draw is allowed. A cluster of
/// nodes that are all different has room for a scenario where it has three nodes
/// more than the scenario needs outside the replicas.
pub fn stage(kind: Kind, nodes: &Vec<String>, rng: &mut rand_pcg::Pcg64, max_draws: u32) -> (r:
    Option<Staged>)
    ensures
        r matches Some(s) ==> staged(kind, texts(nodes@), s),
        r is None ==> {
            ||| nodes.len() == 0
            ||| nodes.len() > u32::MAX
            ||| nodes.len() < room_needed(kind) + 3
            ||| !texts(nodes@).no_duplicates()
            ||| kind is DivergedReplicas
        },
        nodes.len() == 0 ==> r is None,
        kind is DivergedReplicas && max_draws == 0 ==> r is None,
{
    let cast = match draw_cast(prefix_of(kind), nodes, first_values(kind), rng) {
        Some(cast) => cast,
        None => {
            return None;
        },
    };
    if !is_roomy(&cast.placement, room_of(kind)) {
        proof {
            if texts(nodes@).no_duplicates() {
                lemma_room(cast.placement, cast.placement.key@, texts(nodes@));
            }
        }
        return None;
    }
    let mut cast = cast;
    let mut idle_keys: Vec<String> = Vec::new();
    let p = &cast.placement;
    assert(texts(nodes@)[0] == nodes[0]@);
    let script = match kind {
        Kind::Basic => {
            assert(texts(cast.values@)[0] == cast.values[0]@);
            assert(texts(cast.values@)[1] == cast.values[1]@);
            basic(p, &nodes[0], cast.values[0].as_str(), cast.values[1].as_str())
        },
        Kind::StaleReplica => {
            assert(texts(cast.values@)[0] == cast.values[0]@);
            assert(texts(cast.values@)[1] == cast.values[1]@);
            stale_replica(p, cast.values[0].as_str(), cast.values[1].as_str())
        },
        Kind::ConcurrentWrites1 => {
            assert(texts(cast.values@)[0] == cast.values[0]@);
            assert(texts(cast.values@)[1] == cast.values[1]@);
            concurrent_writes_1(p, cast.values[0].as_str(), cast.values[1].as_str())
        },
        Kind::ConcurrentWrites2 => {
            assert(texts(cast.values@)[0] == cast.values[0]@);
            assert(texts(cast.values@)[1] == cast.values[1]@);
            concurrent_writes_2(p, cast.values[0].as_str(), cast.values[1].as_str())
        },
        Kind::ConcurrentWrites3 => {
            assert(texts(cast.values@)[0] == cast.values[0]@);
            assert(texts(cast.values@)[1] == cast.values[1]@);
            concurrent_writes_3(p, cast.values[0].as_str(), cast.values[1].as_str())
        },
        Kind::SloppyQuorum => {
            assert(texts(cast.values@)[0] == cast.values[0]@);
            assert(texts(cast.values@)[1] == cast.values[1]@);
            sloppy_quorum(p, cast.values[0].as_str(), cast.values[1].as_str())
        },
        Kind::PartitionedClients => {
            assert(texts(cast.values@)[0] == cast.values[0]@);
            partitioned_clients(p, &nodes[0], cast.values[0].as_str())
        },
        Kind::ShoppingCart1 => shopping_cart_1(p),
        Kind::ShoppingCart2 => shopping_cart_2(p),
        Kind::ShoppingXcart1 => shopping_xcart_1(p),
        Kind::ShoppingXcart2 => shopping_xcart_2(p),
        Kind::DivergedReplicas => {
            let value = cast.values[0].clone();
            assert(texts(cast.values@)[0] == value@);
            let mut newer: Vec<String> = Vec::new();
            let mut i: usize = 0;
            while i < 3
                invariant
                    kind is DivergedReplicas,
                    i <= 3,
                    max_draws == 0 ==> i == 0,
                    0 < nodes.len() <= u32::MAX,
                    cast.placement.replicas.len() == 3,
                    newer.len() == i,
                    idle_keys.len() == i,
                    random_values(texts(newer@)),
                    forall|k: int|
                        0 <= k < i ==> avoids(
                            #[trigger] texts(idle_keys@)[k],
                            cast.placement.replicas[k]@,
                            nodes.len() as nat,
                        ),
                decreases 3 - i,
            {
                let ghost newer_before = texts(newer@);
                let ghost idle_before = texts(idle_keys@);
                let next = random_string(8, rng);
                let idle = match idle_key(
                    &cast.placement.replicas[i],
                    nodes.len() as u32,
                    rng,
                    max_draws,
                ) {
                    Some(key) => key,
                    None => {
                        return None;
                    },
                };
                newer.push(next);
                idle_keys.push(idle);
                proof {
                    assert forall|k: int| 0 <= k < newer.len() implies (#[trigger] texts(
                        newer@,
                    )[k]).len() == 8 && made_of_symbols(texts(newer@)[k]) by {
                        if k < i {
                            assert(texts(newer@)[k] == newer_before[k]);
                        }
                    }
                    assert forall|k: int| 0 <= k < i + 1 implies avoids(
                        #[trigger] texts(idle_keys@)[k],
                        cast.placement.replicas[k]@,
                        nodes.len() as nat,
                    ) by {
                        if k < i {
                            assert(texts(idle_keys@)[k] == idle_before[k]);
                        }
                    }
                }
                i += 1;
            }
            let script = diverged_replicas(&cast.placement, value.as_str(), &newer, &idle_keys);
            let ghost first = texts(cast.values@);
            let ghost later = texts(newer@);
            let mut values: Vec<String> = Vec::new();
            values.push(value);
            let mut newer = newer;
            values.append(&mut newer);
            proof {
                assert(texts(values@) == seq![first[0]] + later);
                assert(texts(values@).skip(1) == later);
                assert(texts(values@)[0] == first[0]);
                assert forall|k: int| 0 <= k < values.len() implies (#[trigger] texts(
                    values@,
                )[k]).len() == 8 && made_of_symbols(texts(values@)[k]) by {
                    if k == 0 {
                        assert(texts(values@)[0] == first[0]);
                    } else {
                        assert(texts(values@)[k] == later[k - 1]);
                    }
                }
            }
            cast.values = values;
            script
        },
    };
    Some(Staged { cast, idle_keys, script })
}

} // verus!
