//! Typed values decoded from, and encoded to, field-element streams.
use crate::decode::{
    decode_fields, decode_prefix, encodes, felt_to_width, fields_decode, width_decode, DecodeError,
    IntWidth,
};
use crate::format::{debug_text, format_for_debug};
use crate::args::felt_values;
use crate::byte_array::{byte_array_encoding, lemma_byte_array_round_trip};
use crate::list_text::{
    lemma_list_text_chars, lemma_list_text_round_trip, list_char, list_of_text, list_text,
    parse_list_text,
};
use crate::text::{ascii_chars, is_printable};
use crate::felt::FieldElement;
use vstd::prelude::*;

verus! {

/// The result of decoding a stream that must hold exactly one element, read
/// at the width `w`.
pub open spec fn single_decode(vals: Seq<FieldElement>, w: IntWidth) -> Result<u128, DecodeError> {
    if vals.len() != 1 {
        Err(DecodeError::SlotCountMismatch { expected: 1, actual: vals.len() as u64 })
    } else {
        width_decode(vals[0], w)
    }
}

/// The result of reading a whole stream as a list: the text it displays,
/// read as a list such as `[1, 2, 3]`.
pub open spec fn list_decode(vals: Seq<FieldElement>) -> Result<Seq<u128>, DecodeError> {
    match list_of_text(debug_text(vals)) {
        Some(items) => Ok(items),
        None => Err(DecodeError::InvalidListText),
    }
}

/// Decodes a stream that must hold exactly one element.
fn decode_single(values: &Vec<FieldElement>, w: IntWidth) -> (r: Result<u128, DecodeError>)
    ensures
        r == single_decode(values@, w),
{
    if values.len() != 1 {
        return Err(DecodeError::SlotCountMismatch { expected: 1, actual: values.len() as u64 });
    }
    felt_to_width(&values[0], w)
}

/// Encodes integers as one element each, in order.
pub fn encode_fields(values: &Vec<u128>) -> (r: Vec<FieldElement>)
    ensures
        encodes(r@, values@),
{
    let mut out: Vec<FieldElement> = Vec::new();
    let mut i: usize = 0;
    while i < values.len()
        invariant
            i <= values.len(),
            encodes(out@, values@.take(i as int)),
        decreases values.len() - i,
    {
        out.push(FieldElement::from_u128(values[i]));
        i = i + 1;
    }
    assert(values@.take(i as int) =~= values@);
    out
}

/// Decodes a whole stream as a list of `u128`: the text the stream
/// displays (most often one byte array), read as a list such as
/// `[1, 2, 3]`.
pub fn from_felt_byte_array(values: &Vec<FieldElement>) -> (r: Result<Vec<u128>, DecodeError>)
    ensures
        match r {
            Ok(v) => list_decode(values@) == Ok::<Seq<u128>, DecodeError>(v@),
            Err(e) => list_decode(values@) == Err::<Seq<u128>, DecodeError>(e),
        },
{
    let text = format_for_debug(values);
    match parse_list_text(text.as_str()) {
        Some(v) => Ok(v),
        None => Err(DecodeError::InvalidListText),
    }
}

/// A list written as its text and sent as one byte array reads back as
/// that list.
pub proof fn lemma_list_stream_round_trip(vals: Seq<FieldElement>, bs: Seq<u8>, items: Seq<u128>)
    requires
        ascii_chars(bs) == list_text(items),
        felt_values(vals) == byte_array_encoding(bs),
        bs.len() <= usize::MAX,
    ensures
        list_decode(vals) == Ok::<Seq<u128>, DecodeError>(items),
{
    lemma_list_text_chars(items);
    assert forall|i: int| 0 <= i < bs.len() implies is_printable(#[trigger] bs[i]) by {
        assert(ascii_chars(bs)[i] == bs[i] as char);
        assert(list_char(list_text(items)[i]));
    }
    lemma_byte_array_round_trip(vals, bs);
    lemma_list_text_round_trip(items);
}

/// A stack read back after a push is the old stack with the pushed value on
/// top; after a pop, the old stack without its top, and the popped value
/// read as a single `u128` is that top.
pub proof fn lemma_stack_push_pop(
    pushed: Seq<FieldElement>,
    pushed_bytes: Seq<u8>,
    popped: Seq<FieldElement>,
    popped_bytes: Seq<u8>,
    top: Seq<FieldElement>,
    items: Seq<u128>,
    v: u128,
)
    requires
        ascii_chars(pushed_bytes) == list_text(items.push(v)),
        felt_values(pushed) == byte_array_encoding(pushed_bytes),
        pushed_bytes.len() <= usize::MAX,
        items.len() > 0 ==> ascii_chars(popped_bytes) == list_text(items.drop_last()),
        items.len() > 0 ==> felt_values(popped) == byte_array_encoding(popped_bytes),
        popped_bytes.len() <= usize::MAX,
        items.len() > 0 ==> encodes(top, seq![items.last()]),
    ensures
        list_decode(pushed) == Ok::<Seq<u128>, DecodeError>(items.push(v)),
        items.len() > 0 ==> list_decode(popped) == Ok::<Seq<u128>, DecodeError>(items.drop_last()),
        items.len() > 0 ==> single_decode(top, IntWidth::U128) == Ok::<u128, DecodeError>(
            items.last(),
        ),
{
    lemma_list_stream_round_trip(pushed, pushed_bytes, items.push(v));
    if items.len() > 0 {
        lemma_list_stream_round_trip(popped, popped_bytes, items.drop_last());
        assert(seq![items.last()][0] == items.last());
        assert(top[0].value() == items.last() as nat);
    }
}

/// A value of exactly one element of width `u8`.
#[derive(Clone, Copy, Debug, PartialEq, Eq, Structural)]
pub struct U8(pub u8);

/// A value of exactly one element of width `u16`.
#[derive(Clone, Copy, Debug, PartialEq, Eq, Structural)]
pub struct U16(pub u16);

/// A value of exactly one element of width `u32`.
#[derive(Clone, Copy, Debug, PartialEq, Eq, Structural)]
pub struct U32(pub u32);

/// A value of exactly one element of width `u64`.
#[derive(Clone, Copy, Debug, PartialEq, Eq, Structural)]
pub struct U64(pub u64);

/// A value of exactly one element of width `u128`.
#[derive(Clone, Copy, Debug, PartialEq, Eq, Structural)]
pub struct U128(pub u128);

impl U8 {
    /// Decodes a stream of exactly one element that fits a `u8`.
    pub fn try_from_felts(values: &Vec<FieldElement>) -> (r: Result<U8, DecodeError>)
        ensures
            r == (match single_decode(values@, IntWidth::U8) {
                Ok(v) => Ok(U8(v as u8)),
                Err(e) => Err(e),
            }),
    {
        match decode_single(values, IntWidth::U8) {
            Ok(v) => Ok(U8(v as u8)),
            Err(e) => Err(e),
        }
    }
}

impl U16 {
    /// Decodes a stream of exactly one element that fits a `u16`.
    pub fn try_from_felts(values: &Vec<FieldElement>) -> (r: Result<U16, DecodeError>)
        ensures
            r == (match single_decode(values@, IntWidth::U16) {
                Ok(v) => Ok(U16(v as u16)),
                Err(e) => Err(e),
            }),
    {
        match decode_single(values, IntWidth::U16) {
            Ok(v) => Ok(U16(v as u16)),
            Err(e) => Err(e),
        }
    }
}

impl U32 {
    /// Decodes a stream of exactly one element that fits a `u32`.
    pub fn try_from_felts(values: &Vec<FieldElement>) -> (r: Result<U32, DecodeError>)
        ensures
            r == (match single_decode(values@, IntWidth::U32) {
                Ok(v) => Ok(U32(v as u32)),
                Err(e) => Err(e),
            }),
    {
        match decode_single(values, IntWidth::U32) {
            Ok(v) => Ok(U32(v as u32)),
            Err(e) => Err(e),
        }
    }
}

impl U64 {
    /// Decodes a stream of exactly one element that fits a `u64`.
    pub fn try_from_felts(values: &Vec<FieldElement>) -> (r: Result<U64, DecodeError>)
        ensures
            r == (match single_decode(values@, IntWidth::U64) {
                Ok(v) => Ok(U64(v as u64)),
                Err(e) => Err(e),
            }),
    {
        match decode_single(values, IntWidth::U64) {
            Ok(v) => Ok(U64(v as u64)),
            Err(e) => Err(e),
        }
    }
}

impl U128 {
    /// Decodes a stream of exactly one element that fits a `u128`.
    pub fn try_from_felts(values: &Vec<FieldElement>) -> (r: Result<U128, DecodeError>)
        ensures
            r == (match single_decode(values@, IntWidth::U128) {
                Ok(v) => Ok(U128(v)),
                Err(e) => Err(e),
            }),
    {
        match decode_single(values, IntWidth::U128) {
            Ok(v) => Ok(U128(v)),
            Err(e) => Err(e),
        }
    }
}

/// A composite of a `u128` field and a `u32` field.
#[derive(Clone, Copy, Debug, PartialEq, Eq, Structural)]
pub struct MyStruct {
    pub field_0: u128,
    pub field_1: u32,
}

/// The field widths of `MyStruct`, in order.
pub open spec fn my_struct_widths() -> Seq<IntWidth> {
    seq![IntWidth::U128, IntWidth::U32]
}

impl MyStruct {
    /// Decodes the first two elements of the stream as the two fields.
    pub fn try_from_felts(values: &Vec<FieldElement>) -> (r: Result<MyStruct, DecodeError>)
        ensures
            r == (match fields_decode(values@, my_struct_widths()) {
                Ok(s) => Ok(MyStruct { field_0: s[0], field_1: s[1] as u32 }),
                Err(e) => Err(e),
            }),
    {
        let widths = vec![IntWidth::U128, IntWidth::U32];
        assert(widths@ =~= my_struct_widths());
        match decode_fields(values, &widths) {
            Ok(v) => {
                proof {
                    assert(decode_prefix(values@, my_struct_widths()) is Ok ==> v@.len() == 2) by {
                        lemma_prefix_len(values@, my_struct_widths());
                    }
                }
                Ok(MyStruct { field_0: v[0], field_1: v[1] as u32 })
            },
            Err(e) => Err(e),
        }
    }
}

proof fn lemma_prefix_len(vals: Seq<FieldElement>, ws: Seq<IntWidth>)
    ensures
        decode_prefix(vals, ws) is Ok ==> decode_prefix(vals, ws)->Ok_0.len() == ws.len(),
    decreases ws.len(),
{
    if ws.len() > 0 {
        lemma_prefix_len(vals, ws.drop_last());
    }
}

/// A stack of `u128` values, bottom first.
#[derive(Clone, Debug, PartialEq, Eq)]
pub struct Stack(pub Vec<u128>);

impl Stack {
    /// The stack holding `values`, bottom first.
    pub fn from_array(values: Vec<u128>) -> (r: Stack)
        ensures
            r.0@ == values@,
    {
        Stack(values)
    }

    /// Decodes a whole stream as the list its text shows.
    pub fn try_from_felts(values: &Vec<FieldElement>) -> (r: Result<Stack, DecodeError>)
        ensures
            match r {
                Ok(s) => list_decode(values@) == Ok::<Seq<u128>, DecodeError>(s.0@),
                Err(e) => list_decode(values@) == Err::<Seq<u128>, DecodeError>(e),
            },
    {
        match from_felt_byte_array(values) {
            Ok(v) => Ok(Stack(v)),
            Err(e) => Err(e),
        }
    }
}

} // verus!
