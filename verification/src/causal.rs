//! The quorum store oracle, multi-value variant.
//!
//! A read answers with all values that no write has superseded, the siblings, and
//! with a context that stands for what the reader has seen. A write that hands a
//! context back supersedes the values under it. The oracle compares sibling sets
//! without regard to order and treats contexts as opaque texts that are only
//! passed on.
//!
//! A cart is a value that lists items, separated by commas. Carts are compared as
//! sets of items.

use crate::store::{optional_text, StoreError};
use crate::text::{
    join_texts, joined, lemma_join_push, lemma_split_join, lemma_split_nonempty, same_members,
    split_parts, split_text, text_of, texts,
};
use vstd::prelude::*;

verus! {

/// The payload of an answer of the multi-value store.
#[derive(Debug)]
pub struct ValuesBody {
    pub key: String,
    /// The sibling values stored under the key.
    pub values: Vec<String>,
    /// The context to hand back with a later write, if the answer carried one.
    pub context: Option<String>,
}

/// An answer of the multi-value store.
#[derive(Debug)]
pub struct ValuesReply {
    pub tag: String,
    /// The payload, where it could be read.
    pub body: Option<ValuesBody>,
}

/// What a [`ValuesBody`] holds.
pub struct ValuesBodyView {
    pub key: Seq<char>,
    pub values: Seq<Seq<char>>,
    pub context: Option<Seq<char>>,
}

/// What a [`ValuesReply`] holds.
pub struct ValuesReplyView {
    pub tag: Seq<char>,
    pub body: Option<ValuesBodyView>,
}

impl View for ValuesBody {
    type V = ValuesBodyView;

    open spec fn view(&self) -> ValuesBodyView {
        ValuesBodyView {
            key: self.key@,
            values: texts(self.values@),
            context: optional_text(self.context),
        }
    }
}

impl View for ValuesReply {
    type V = ValuesReplyView;

    open spec fn view(&self) -> ValuesReplyView {
        ValuesReplyView {
            tag: self.tag@,
            body: match self.body {
                Some(b) => Some(b@),
                None => None,
            },
        }
    }
}

/// The view of an optional answer.
pub open spec fn optional_values_reply(o: Option<ValuesReply>) -> Option<ValuesReplyView> {
    match o {
        Some(r) => Some(r@),
        None => None,
    }
}

/// The view of an optional list of texts.
pub open spec fn optional_texts(o: Option<Vec<String>>) -> Option<Seq<Seq<char>>> {
    match o {
        Some(list) => Some(texts(list@)),
        None => None,
    }
}

/// The verdict on the answer to a read: the first of no answer, wrong tag,
/// unreadable payload, wrong key and wrong sibling set that applies; else the
/// payload. Where nothing is expected, any sibling set passes.
pub open spec fn get_verdict(
    reply: Option<ValuesReplyView>,
    key: Seq<char>,
    expected: Option<Seq<Seq<char>>>,
) -> Result<ValuesBodyView, StoreError> {
    match reply {
        None => Err(StoreError::NoResponse),
        Some(r) => if r.tag != "GET_RESP"@ {
            Err(StoreError::WrongType)
        } else {
            match r.body {
                None => Err(StoreError::Malformed),
                Some(b) => if b.key != key {
                    Err(StoreError::WrongKey)
                } else if expected is Some && b.values.to_set() != expected->0.to_set() {
                    Err(StoreError::WrongValue)
                } else {
                    Ok(b)
                },
            }
        },
    }
}

/// The verdict on the answer to a write: the first of no answer, wrong tag,
/// unreadable payload or missing context, and wrong key that applies; else the
/// payload.
pub open spec fn put_verdict(reply: Option<ValuesReplyView>, key: Seq<char>) -> Result<
    ValuesBodyView,
    StoreError,
> {
    match reply {
        None => Err(StoreError::NoResponse),
        Some(r) => if r.tag != "PUT_RESP"@ {
            Err(StoreError::WrongType)
        } else {
            match r.body {
                None => Err(StoreError::Malformed),
                Some(b) => if b.context is None {
                    Err(StoreError::Malformed)
                } else if b.key != key {
                    Err(StoreError::WrongKey)
                } else {
                    Ok(b)
                },
            }
        },
    }
}

/// Holds the answer to a read against the key and, where one is expected, the
/// sibling set. Hands out the values and the context of an accepted answer.
pub fn check_get(reply: Option<ValuesReply>, key: &str, expected: &Option<Vec<String>>) -> (r:
    Result<(Vec<String>, Option<String>), StoreError>)
    ensures
        match get_verdict(optional_values_reply(reply), key@, optional_texts(*expected)) {
            Ok(body) => r matches Ok((values, context)) && texts(values@) == body.values
                && optional_text(context) == body.context,
            Err(e) => r == Err::<(Vec<String>, Option<String>), StoreError>(e),
        },
{
    match reply {
        None => Err(StoreError::NoResponse),
        Some(answer) => {
            let wanted_tag = text_of("GET_RESP");
            if !(answer.tag == wanted_tag) {
                return Err(StoreError::WrongType);
            }
            match answer.body {
                None => Err(StoreError::Malformed),
                Some(body) => {
                    let wanted_key = text_of(key);
                    if !(body.key == wanted_key) {
                        return Err(StoreError::WrongKey);
                    }
                    match expected {
                        Some(list) => {
                            if !same_members(&body.values, list) {
                                return Err(StoreError::WrongValue);
                            }
                        },
                        None => {},
                    }
                    Ok((body.values, body.context))
                },
            }
        },
    }
}

/// Holds the answer to a write against the key. Hands out the values and the
/// context of an accepted answer.
pub fn check_put(reply: Option<ValuesReply>, key: &str) -> (r: Result<
    (Vec<String>, String),
    StoreError,
>)
    ensures
        match put_verdict(optional_values_reply(reply), key@) {
            Ok(body) => r matches Ok((values, context)) && texts(values@) == body.values && Some(
                context@,
            ) == body.context,
            Err(e) => r == Err::<(Vec<String>, String), StoreError>(e),
        },
{
    match reply {
        None => Err(StoreError::NoResponse),
        Some(answer) => {
            let wanted_tag = text_of("PUT_RESP");
            if !(answer.tag == wanted_tag) {
                return Err(StoreError::WrongType);
            }
            match answer.body {
                None => Err(StoreError::Malformed),
                Some(body) => {
                    match body.context {
                        None => Err(StoreError::Malformed),
                        Some(context) => {
                            let wanted_key = text_of(key);
                            if !(body.key == wanted_key) {
                                return Err(StoreError::WrongKey);
                            }
                            Ok((body.values, context))
                        },
                    }
                },
            }
        },
    }
}

/// The verdict on a list of values that should hold exactly `count` of them.
pub open spec fn count_verdict(values: Seq<Seq<char>>, count: usize) -> Result<bool, StoreError> {
    if values.len() == count {
        Ok(true)
    } else {
        Err(StoreError::NotSingle)
    }
}

/// The verdict on a list of values that should hold `expected` and nothing else.
pub open spec fn single_verdict(values: Seq<Seq<char>>, expected: Seq<char>) -> Result<
    bool,
    StoreError,
> {
    if values.len() != 1 {
        Err(StoreError::NotSingle)
    } else if values[0] != expected {
        Err(StoreError::WrongValue)
    } else {
        Ok(true)
    }
}

/// The verdict on a list of values that should hold one cart, which lists
/// exactly the expected items in any order.
pub open spec fn cart_verdict(values: Seq<Seq<char>>, expected: Seq<Seq<char>>) -> Result<
    bool,
    StoreError,
> {
    if values.len() != 1 {
        Err(StoreError::NotSingle)
    } else if cart_of(values[0]).to_set() != expected.to_set() {
        Err(StoreError::WrongValue)
    } else {
        Ok(true)
    }
}

/// Accepts a list of exactly `count` values.
pub fn check_count(values: &Vec<String>, count: usize) -> (r: Result<bool, StoreError>)
    ensures
        r == count_verdict(texts(values@), count),
{
    if values.len() == count {
        Ok(true)
    } else {
        Err(StoreError::NotSingle)
    }
}

/// Accepts a single value equal to `expected`.
pub fn check_single(values: &Vec<String>, expected: &str) -> (r: Result<bool, StoreError>)
    ensures
        r == single_verdict(texts(values@), expected@),
{
    if values.len() != 1 {
        return Err(StoreError::NotSingle);
    }
    let wanted = text_of(expected);
    if !(values[0] == wanted) {
        assert(texts(values@)[0] == values[0]@);
        return Err(StoreError::WrongValue);
    }
    assert(texts(values@)[0] == values[0]@);
    Ok(true)
}

/// The items that a cart value lists.
pub open spec fn cart_of(value: Seq<char>) -> Seq<Seq<char>> {
    split_parts(value, ',')
}

/// The value that lists the items.
pub open spec fn cart_value(items: Seq<Seq<char>>) -> Seq<char> {
    joined(items, ',')
}

/// The items that a cart value lists, in order.
pub fn cart_items(value: &str) -> (items: Vec<String>)
    ensures
        texts(items@) == cart_of(value@),
        items.len() >= 1,
{
    split_text(value, ',')
}

/// The cart value that lists the items.
pub fn cart_text(items: &Vec<String>) -> (value: String)
    ensures
        value@ == cart_value(texts(items@)),
{
    join_texts(items, ',')
}

/// The cart value after `item` was added to the cart that `value` lists.
pub fn cart_with(value: &str, item: &str) -> (grown: String)
    ensures
        grown@ == cart_value(cart_of(value@).push(item@)),
{
    let mut items = cart_items(value);
    let ghost before = texts(items@);
    items.push(text_of(item));
    assert(texts(items@) == before.push(item@));
    cart_text(&items)
}

/// Accepts a single value whose items are exactly the expected ones, in any order.
pub fn check_cart(values: &Vec<String>, expected: &Vec<String>) -> (r: Result<bool, StoreError>)
    ensures
        r == cart_verdict(texts(values@), texts(expected@)),
{
    if values.len() != 1 {
        return Err(StoreError::NotSingle);
    }
    assert(texts(values@)[0] == values[0]@);
    let items = cart_items(values[0].as_str());
    if same_members(&items, expected) {
        Ok(true)
    } else {
        Err(StoreError::WrongValue)
    }
}

/// A cart value lists, in order, the items it was made of, where it was made of
/// at least one item and no item holds a comma.
pub proof fn lemma_cart_roundtrip(items: Seq<Seq<char>>)
    requires
        items.len() >= 1,
        forall|i: int| 0 <= i < items.len() ==> !(#[trigger] items[i]).contains(','),
    ensures
        cart_of(cart_value(items)) == items,
{
    lemma_split_join(items, ',');
}

/// Adding an item to a cart appends a comma and the item to its value, and the
/// cart then lists what it listed before and the item: nothing is lost.
pub proof fn lemma_cart_grows(value: Seq<char>, item: Seq<char>)
    requires
        !item.contains(','),
    ensures
        cart_value(cart_of(value).push(item)) == value.push(',') + item,
        cart_of(cart_value(cart_of(value).push(item))) == cart_of(value).push(item),
        cart_of(cart_value(cart_of(value).push(item))).to_set() == cart_of(value).to_set().insert(
            item,
        ),
{
    let parts = cart_of(value);
    lemma_split_nonempty(value, ',');
    lemma_join_push(parts, item, ',');
    crate::text::lemma_join_split(value, ',');
    crate::text::lemma_split_parts_clean(value, ',');
    let grown = parts.push(item);
    assert forall|i: int| 0 <= i < grown.len() implies !(#[trigger] grown[i]).contains(',') by {
        if i < parts.len() {
            assert(grown[i] == parts[i]);
        }
    }
    lemma_split_join(grown, ',');
    assert(grown.to_set() =~= parts.to_set().insert(item)) by {
        assert forall|x: Seq<char>| grown.to_set().contains(x) == parts.to_set().insert(
            item,
        ).contains(x) by {
            if grown.contains(x) {
                let k = choose|k: int| 0 <= k < grown.len() && grown[k] == x;
                if k < parts.len() {
                    assert(parts[k] == x);
                }
            }
            if parts.contains(x) {
                let k = choose|k: int| 0 <= k < parts.len() && parts[k] == x;
                assert(grown[k] == x);
            }
            if x == item {
                assert(grown[parts.len() as int] == x);
            }
        }
    }
}

/// A single cart value is accepted whatever the order in which it lists the
/// expected items, and however often it lists each.
pub proof fn lemma_cart_any_order(items: Seq<Seq<char>>, expected: Seq<Seq<char>>)
    requires
        items.len() >= 1,
        forall|i: int| 0 <= i < items.len() ==> !(#[trigger] items[i]).contains(','),
        items.to_set() == expected.to_set(),
    ensures
        cart_of(cart_value(items)).to_set() == expected.to_set(),
{
    lemma_split_join(items, ',');
}

} // verus!
