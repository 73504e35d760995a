//! The quorum store oracle, single-value variant.
//!
//! A node answers `GET`, `PUT` and `DELETE` with the key and the value it settled
//! on. The oracle holds each answer against the key that was asked for and the
//! value that the scenario expects at that point.

use crate::text::text_of;
use vstd::prelude::*;

verus! {

/// Why an answer of the store was rejected.
#[derive(Clone, Copy, Debug, PartialEq, Eq, Structural)]
pub enum StoreError {
    /// The node did not answer within the step budget.
    NoResponse,
    /// The answer carried another tag than the operation calls for.
    WrongType,
    /// The answer carried the right tag and a payload that could not be read.
    Malformed,
    /// The answer was about another key.
    WrongKey,
    /// The answer carried other values than expected.
    WrongValue,
    /// The answer carried several values, or none, where one was expected.
    NotSingle,
}

/// The payload of an answer of the single-value store.
#[derive(Debug)]
pub struct ValueBody {
    pub key: String,
    /// The value stored under the key, if there is one.
    pub value: Option<String>,
}

/// An answer of the single-value store.
#[derive(Debug)]
pub struct ValueReply {
    pub tag: String,
    /// The payload, where it could be read.
    pub body: Option<ValueBody>,
}

/// What a [`ValueBody`] holds.
pub struct ValueBodyView {
    pub key: Seq<char>,
    pub value: Option<Seq<char>>,
}

/// What a [`ValueReply`] holds.
pub struct ValueReplyView {
    pub tag: Seq<char>,
    pub body: Option<ValueBodyView>,
}

/// The view of an optional text.
pub open spec fn optional_text(o: Option<String>) -> Option<Seq<char>> {
    match o {
        Some(t) => Some(t@),
        None => None,
    }
}

impl View for ValueBody {
    type V = ValueBodyView;

    open spec fn view(&self) -> ValueBodyView {
        ValueBodyView { key: self.key@, value: optional_text(self.value) }
    }
}

impl View for ValueReply {
    type V = ValueReplyView;

    open spec fn view(&self) -> ValueReplyView {
        ValueReplyView {
            tag: self.tag@,
            body: match self.body {
                Some(b) => Some(b@),
                None => None,
            },
        }
    }
}

/// The view of an optional answer.
pub open spec fn optional_reply(o: Option<ValueReply>) -> Option<ValueReplyView> {
    match o {
        Some(r) => Some(r@),
        None => None,
    }
}

/// The verdict on an answer: the first of no answer, wrong tag, unreadable
/// payload, wrong key and wrong value that applies; success where none does.
pub open spec fn value_verdict(
    reply: Option<ValueReplyView>,
    tag: Seq<char>,
    key: Seq<char>,
    expected: Option<Seq<char>>,
) -> Result<bool, StoreError> {
    match reply {
        None => Err(StoreError::NoResponse),
        Some(r) => if r.tag != tag {
            Err(StoreError::WrongType)
        } else {
            match r.body {
                None => Err(StoreError::Malformed),
                Some(b) => if b.key != key {
                    Err(StoreError::WrongKey)
                } else if b.value != expected {
                    Err(StoreError::WrongValue)
                } else {
                    Ok(true)
                },
            }
        },
    }
}

/// Whether two optional texts are both absent or both present and equal.
pub fn same_optional_text(a: &Option<String>, b: &Option<String>) -> (r: bool)
    ensures
        r == (optional_text(*a) == optional_text(*b)),
{
    match (a, b) {
        (None, None) => true,
        (Some(x), Some(y)) => *x == *y,
        _ => false,
    }
}

/// Holds an answer against the tag, key and value that are expected of it.
pub fn check_reply(reply: &Option<ValueReply>, tag: &str, key: &str, expected: &Option<String>) -> (r:
    Result<bool, StoreError>)
    ensures
        r == value_verdict(optional_reply(*reply), tag@, key@, optional_text(*expected)),
{
    match reply {
        None => Err(StoreError::NoResponse),
        Some(answer) => {
            let wanted_tag = text_of(tag);
            if !(answer.tag == wanted_tag) {
                return Err(StoreError::WrongType);
            }
            match &answer.body {
                None => Err(StoreError::Malformed),
                Some(body) => {
                    let wanted_key = text_of(key);
                    if !(body.key == wanted_key) {
                        Err(StoreError::WrongKey)
                    } else if !same_optional_text(&body.value, expected) {
                        Err(StoreError::WrongValue)
                    } else {
                        Ok(true)
                    }
                },
            }
        },
    }
}

/// Holds the answer to a `GET` against the key and the expected value, which is
/// absent where the key is expected to hold nothing.
pub fn check_get(reply: &Option<ValueReply>, key: &str, expected: &Option<String>) -> (r: Result<
    bool,
    StoreError,
>)
    ensures
        r == value_verdict(optional_reply(*reply), "GET_RESP"@, key@, optional_text(*expected)),
{
    check_reply(reply, "GET_RESP", key, expected)
}

/// Holds the answer to a `PUT` against the key and the value that was put.
pub fn check_put(reply: &Option<ValueReply>, key: &str, value: &str) -> (r: Result<bool, StoreError>)
    ensures
        r == value_verdict(optional_reply(*reply), "PUT_RESP"@, key@, Some(value@)),
{
    let expected = Some(text_of(value));
    check_reply(reply, "PUT_RESP", key, &expected)
}

/// Holds the answer to a `DELETE` against the key and the value that is expected
/// to have been stored.
pub fn check_delete(reply: &Option<ValueReply>, key: &str, expected: &Option<String>) -> (r:
    Result<bool, StoreError>)
    ensures
        r == value_verdict(optional_reply(*reply), "DELETE_RESP"@, key@, optional_text(*expected)),
{
    check_reply(reply, "DELETE_RESP", key, expected)
}

} // verus!
