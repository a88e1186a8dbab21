//! Encoding structured call arguments into the flat field-element stream
//! that a callee consumes.
use crate::felt::{field_modulus, FieldElement};
use vstd::prelude::*;
use vstd::string::*;

verus! {

broadcast use {
    vstd::std_specs::vec::axiom_vec_index_decreases,
    vstd::std_specs::vec::axiom_vec_decreases_to_view,
    vstd::seq::axiom_seq_index_decreases,
    vstd::seq::axiom_seq_subrange_decreases,
};

/// A structured argument: a number, an integer written in decimal (for
/// values too large for a number), an array or a tuple of arguments, or a
/// shape that has no encoding.
#[derive(Debug)]
pub enum JsonValue {
    Number(u64),
    BigInt(String),
    Array(Vec<JsonValue>),
    Tuple(Vec<JsonValue>),
    Unsupported,
}

/// Why an argument could not be encoded.
#[derive(Clone, Copy, Debug, PartialEq, Eq, Structural)]
pub enum ArgError {
    /// A decimal integer is not below the field's modulus.
    FieldElementOutOfRange,
    /// A decimal integer is empty or holds a character that is not a digit.
    InvalidNumber,
    /// A value has a shape that has no encoding.
    UnsupportedValue,
}

/// A decimal digit.
pub open spec fn is_digit(c: char) -> bool {
    '0' <= c && c <= '9'
}

/// A non-empty run of decimal digits.
pub open spec fn is_decimal(s: Seq<char>) -> bool {
    s.len() > 0 && forall|i: int| 0 <= i < s.len() ==> is_digit(#[trigger] s[i])
}

/// The number a run of decimal digits stands for.
pub open spec fn decimal_value(s: Seq<char>) -> nat
    decreases s.len(),
{
    if s.len() == 0 {
        0
    } else {
        decimal_value(s.drop_last()) * 10 + (s.last() as nat - '0' as nat) as nat
    }
}

/// The result of reading a decimal integer as a field element's value.
pub open spec fn decimal_decode(s: Seq<char>) -> Result<nat, ArgError> {
    if !is_decimal(s) {
        Err(ArgError::InvalidNumber)
    } else if decimal_value(s) >= field_modulus() {
        Err(ArgError::FieldElementOutOfRange)
    } else {
        Ok(decimal_value(s))
    }
}

/// The values of a stream of elements.
pub open spec fn felt_values(s: Seq<FieldElement>) -> Seq<nat> {
    s.map_values(|f: FieldElement| f.value())
}

/// The flat encoding of an argument, as element values: a number or a
/// decimal integer is one element; an array or a tuple is the encodings of
/// its items, concatenated in order.
pub open spec fn encode_value(v: JsonValue) -> Result<Seq<nat>, ArgError>
    decreases v,
{
    match v {
        JsonValue::Number(n) => Ok(seq![n as nat]),
        JsonValue::BigInt(s) => match decimal_decode(s@) {
            Ok(n) => Ok(seq![n]),
            Err(e) => Err(e),
        },
        JsonValue::Array(items) => encode_items(items@),
        JsonValue::Tuple(items) => encode_items(items@),
        JsonValue::Unsupported => Err(ArgError::UnsupportedValue),
    }
}

/// The encodings of `items`, concatenated in order; the first failure, if
/// any.
pub open spec fn encode_items(items: Seq<JsonValue>) -> Result<Seq<nat>, ArgError>
    decreases items,
{
    if items.len() == 0 {
        Ok(seq![])
    } else {
        match encode_items(items.subrange(0, items.len() - 1)) {
            Err(e) => Err(e),
            Ok(a) => match encode_value(items[items.len() - 1]) {
                Ok(b) => Ok(a + b),
                Err(e) => Err(e),
            },
        }
    }
}

pub(crate) proof fn lemma_decimal_grows(s: Seq<char>, k: int)
    requires
        0 <= k <= s.len(),
    ensures
        decimal_value(s.take(k)) <= decimal_value(s),
    decreases s.len() - k,
{
    if k < s.len() {
        lemma_decimal_grows(s, k + 1);
        assert(s.take(k + 1).drop_last() =~= s.take(k));
    } else {
        assert(s.take(k) =~= s);
    }
}

/// Reads a decimal integer as a field element.
pub fn parse_decimal(s: &str) -> (r: Result<FieldElement, ArgError>)
    ensures
        match r {
            Ok(f) => decimal_decode(s@) == Ok::<nat, ArgError>(f.value()),
            Err(e) => decimal_decode(s@) == Err::<nat, ArgError>(e),
        },
{
    let n = s.unicode_len();
    if n == 0 {
        return Err(ArgError::InvalidNumber);
    }
    let mut i: usize = 0;
    while i < n
        invariant
            n == s@.len(),
            i <= n,
            forall|j: int| 0 <= j < i ==> is_digit(#[trigger] s@[j]),
        decreases n - i,
    {
        let c = s.get_char(i);
        if !('0' <= c && c <= '9') {
            return Err(ArgError::InvalidNumber);
        }
        i = i + 1;
    }
    let mut acc = FieldElement::from_u128(0);
    let mut k: usize = 0;
    assert(s@.take(0) =~= seq![]);
    while k < n
        invariant
            n == s@.len(),
            k <= n,
            is_decimal(s@),
            acc.value() == decimal_value(s@.take(k as int)),
            k > 0 ==> acc.value() < field_modulus(),
        decreases n - k,
    {
        let c = s.get_char(k);
        let d = (c as u32 - '0' as u32) as u64;
        assert(s@.take(k + 1).drop_last() =~= s@.take(k as int));
        match acc.times_ten_plus(d) {
            Some(next) => {
                acc = next;
            },
            None => {
                proof {
                    lemma_decimal_grows(s@, k + 1);
                }
                return Err(ArgError::FieldElementOutOfRange);
            },
        }
        k = k + 1;
    }
    assert(s@.take(n as int) =~= s@);
    Ok(acc)
}

/// Appends the flat encoding of `v` to `out`.
fn push_value(v: &JsonValue, out: &mut Vec<FieldElement>) -> (r: Result<(), ArgError>)
    ensures
        match r {
            Ok(()) => encode_value(*v) is Ok && felt_values(final(out)@) == felt_values(old(out)@)
                + encode_value(*v)->Ok_0,
            Err(e) => encode_value(*v) == Err::<Seq<nat>, ArgError>(e),
        },
    decreases v,
{
    match v {
        JsonValue::Number(n) => {
            out.push(FieldElement::from_u128(*n as u128));
            assert(felt_values(out@) =~= felt_values(old(out)@) + seq![*n as nat]);
            Ok(())
        },
        JsonValue::BigInt(s) => match parse_decimal(s.as_str()) {
            Ok(f) => {
                out.push(f);
                assert(felt_values(out@) =~= felt_values(old(out)@) + seq![f.value()]);
                Ok(())
            },
            Err(e) => Err(e),
        },
        JsonValue::Array(items) => push_items(items, out),
        JsonValue::Tuple(items) => push_items(items, out),
        JsonValue::Unsupported => Err(ArgError::UnsupportedValue),
    }
}

/// Appends the flat encodings of `items`, in order, to `out`.
fn push_items(items: &Vec<JsonValue>, out: &mut Vec<FieldElement>) -> (r: Result<(), ArgError>)
    ensures
        match r {
            Ok(()) => encode_items(items@) is Ok && felt_values(final(out)@) == felt_values(
                old(out)@,
            ) + encode_items(items@)->Ok_0,
            Err(e) => encode_items(items@) == Err::<Seq<nat>, ArgError>(e),
        },
    decreases items,
{
    let ghost start = felt_values(out@);
    let mut i: usize = 0;
    assert(items@.subrange(0, 0) =~= seq![]);
    while i < items.len()
        invariant
            i <= items.len(),
            encode_items(items@.subrange(0, i as int)) is Ok,
            felt_values(out@) == start + encode_items(items@.subrange(0, i as int))->Ok_0,
        decreases items.len() - i,
    {
        assert(items@.subrange(0, i + 1).subrange(0, i as int) =~= items@.subrange(0, i as int));
        assert(items@.subrange(0, i + 1)[i as int] == items@[i as int]);
        match push_value(&items[i], out) {
            Ok(()) => {
                assert(felt_values(out@) =~= start + encode_items(items@.subrange(0, i + 1))->Ok_0);
            },
            Err(e) => {
                proof {
                    lemma_items_fail(items@, i + 1);
                }
                return Err(e);
            },
        }
        i = i + 1;
    }
    assert(items@.subrange(0, i as int) =~= items@);
    Ok(())
}

proof fn lemma_items_fail(items: Seq<JsonValue>, k: int)
    requires
        0 <= k <= items.len(),
        encode_items(items.subrange(0, k)) is Err,
    ensures
        encode_items(items) == encode_items(items.subrange(0, k)),
    decreases items.len() - k,
{
    if k < items.len() {
        assert(items.subrange(0, k + 1).subrange(0, k) =~= items.subrange(0, k));
        lemma_items_fail(items, k + 1);
    } else {
        assert(items.subrange(0, k) =~= items);
    }
}

/// Encodes an argument into the flat stream of elements a callee consumes:
/// depth first, left to right, with no length prefixes.
pub fn encode_args(v: &JsonValue) -> (r: Result<Vec<FieldElement>, ArgError>)
    ensures
        match r {
            Ok(out) => encode_value(*v) == Ok::<Seq<nat>, ArgError>(felt_values(out@)),
            Err(e) => encode_value(*v) == Err::<Seq<nat>, ArgError>(e),
        },
{
    let mut out: Vec<FieldElement> = Vec::new();
    assert(felt_values(out@) =~= seq![]);
    match push_value(v, &mut out) {
        Ok(()) => {
            assert(felt_values(out@) =~= encode_value(*v)->Ok_0);
            Ok(out)
        },
        Err(e) => Err(e),
    }
}

} // verus!
