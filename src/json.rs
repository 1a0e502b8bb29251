//! A decoded feed message, held as plain values.
use crate::decimal::{parse_decimal, parse_decimal_text, parse_unsigned, parse_unsigned_text, Decimal};
use vstd::prelude::*;

verus! {

/// One decoded JSON value. A number keeps the decimal text that the decoder
/// printed for it, so that no binary rounding enters the quantisation.
pub enum Json {
    Null,
    Bool(bool),
    Number(String),
    Text(String),
    Array(Vec<Json>),
    Object(Vec<(String, Json)>),
}

/// The value as an unsigned integer, where it is a number written as one.
pub open spec fn unsigned_value(v: Json) -> Option<u64> {
    match v {
        Json::Number(t) => parse_unsigned(t@),
        _ => None,
    }
}

/// The value as an exact decimal; zero where it is no number.
pub open spec fn decimal_value(v: Json) -> (bool, int, int) {
    match v {
        Json::Number(t) => match parse_decimal(t@) {
            Some(x) => x,
            None => (false, 0int, 0int),
        },
        _ => (false, 0int, 0int),
    }
}

/// The value under the first field named `key`.
pub open spec fn lookup(fields: Seq<(String, Json)>, key: Seq<char>) -> Option<Json>
    decreases fields.len(),
{
    if fields.len() == 0 {
        None
    } else if fields[0].0@ == key {
        Some(fields[0].1)
    } else {
        lookup(fields.drop_first(), key)
    }
}

/// Whether `v` is a text equal to `lit`.
pub open spec fn is_text(v: Json, lit: Seq<char>) -> bool {
    match v {
        Json::Text(t) => t@ == lit,
        _ => false,
    }
}

/// Whether a string equals a literal.
pub fn text_equals(t: &String, lit: &str) -> (r: bool)
    ensures
        r == (t@ == lit@),
{
    let owned = lit.to_owned();
    *t == owned
}

impl Json {
    /// The value as an unsigned integer, where it is a number written as one.
    pub fn as_unsigned(&self) -> (r: Option<u64>)
        ensures
            r == unsigned_value(*self),
    {
        match self {
            Json::Number(t) => parse_unsigned_text(t.as_str()),
            _ => None,
        }
    }

    /// The value as an exact decimal; zero where it is no number.
    pub fn as_decimal(&self) -> (r: Decimal)
        ensures
            r.view() == decimal_value(*self),
    {
        match self {
            Json::Number(t) => match parse_decimal_text(t.as_str()) {
                Some(x) => x,
                None => Decimal::zero(),
            },
            _ => Decimal::zero(),
        }
    }

    /// Whether the value is a text equal to `lit`.
    pub fn is_text(&self, lit: &str) -> (r: bool)
        ensures
            r == is_text(*self, lit@),
    {
        match self {
            Json::Text(t) => text_equals(t, lit),
            _ => false,
        }
    }
}

/// The value under the first field named `key`.
pub fn get_field<'a>(fields: &'a Vec<(String, Json)>, key: &str) -> (r: Option<&'a Json>)
    ensures
        match r {
            Some(v) => lookup(fields@, key@) == Some(*v),
            None => lookup(fields@, key@) is None,
        },
{
    let mut i: usize = 0;
    proof {
        assert(fields@.subrange(0, fields@.len() as int) =~= fields@);
    }
    while i < fields.len()
        invariant
            i <= fields@.len(),
            lookup(fields@, key@) == lookup(fields@.subrange(i as int, fields@.len() as int), key@),
        decreases fields@.len() - i,
    {
        let ghost rest = fields@.subrange(i as int, fields@.len() as int);
        proof {
            assert(rest.drop_first() =~= fields@.subrange(i + 1, fields@.len() as int));
        }
        if text_equals(&fields[i].0, key) {
            return Some(&fields[i].1);
        }
        i = i + 1;
    }
    None
}

} // verus!
