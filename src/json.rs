//! A JSON document as plain values.
use vstd::prelude::*;

verus! {

/// A JSON value. An object keeps its members in document order.
#[derive(Debug)]
pub enum JsonValue {
    Null,
    Bool(bool),
    /// A number, as its text.
    Number(String),
    Str(String),
    Array(Vec<JsonValue>),
    Object(Vec<(String, JsonValue)>),
}

/// The member `key` of an object; of several, the last one.
pub open spec fn member(e: Seq<(String, JsonValue)>, key: Seq<char>) -> Option<JsonValue>
    decreases e.len(),
{
    if e.len() == 0 {
        None
    } else if e.last().0@ == key {
        Some(e.last().1)
    } else {
        member(e.drop_last(), key)
    }
}

/// The text of the member `key`, where it is a string.
pub open spec fn str_member(e: Seq<(String, JsonValue)>, key: Seq<char>) -> Option<Seq<char>> {
    match member(e, key) {
        Some(JsonValue::Str(s)) => Some(s@),
        _ => None,
    }
}

/// Looks up the member `key` of an object; of several, the last one.
pub fn get_member<'a>(e: &'a Vec<(String, JsonValue)>, key: &String) -> (r: Option<&'a JsonValue>)
    ensures
        match r {
            Some(v) => member(e@, key@) == Some(*v),
            None => member(e@, key@) == None::<JsonValue>,
        },
{
    let mut i: usize = e.len();
    assert(e@.subrange(0, i as int) =~= e@);
    while i > 0
        invariant
            i <= e@.len(),
            member(e@, key@) == member(e@.subrange(0, i as int), key@),
        decreases i,
    {
        let ghost pre = e@.subrange(0, i as int);
        if e[i - 1].0 == *key {
            return Some(&e[i - 1].1);
        }
        assert(pre.drop_last() =~= e@.subrange(0, i - 1));
        i = i - 1;
    }
    None
}

/// Looks up the text of the member `key`, where it is a string.
pub fn get_str_member<'a>(e: &'a Vec<(String, JsonValue)>, key: &String) -> (r: Option<&'a String>)
    ensures
        match r {
            Some(s) => str_member(e@, key@) == Some(s@),
            None => str_member(e@, key@) == None::<Seq<char>>,
        },
{
    match get_member(e, key) {
        Some(JsonValue::Str(s)) => Some(s),
        _ => None,
    }
}

} // verus!
