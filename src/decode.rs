//! Typed decoding of returned field-element streams into integers,
//! composites and length-prefixed lists.
use crate::felt::FieldElement;
use vstd::prelude::*;

verus! {

/// The width of a fixed-size unsigned integer target.
#[derive(Clone, Copy, Debug, PartialEq, Eq, Structural)]
pub enum IntWidth {
    U8,
    U16,
    U32,
    U64,
    U128,
}

impl IntWidth {
    /// The least value that does not fit the width, `2^bits`.
    pub open spec fn bound(self) -> nat {
        match self {
            IntWidth::U8 => 0x100,
            IntWidth::U16 => 0x1_0000,
            IntWidth::U32 => 0x1_0000_0000,
            IntWidth::U64 => 0x1_0000_0000_0000_0000,
            IntWidth::U128 => 0xffff_ffff_ffff_ffff_ffff_ffff_ffff_ffff + 1,
        }
    }

    /// The largest value of the width.
    pub fn max_value(&self) -> (r: u128)
        ensures
            r == self.bound() - 1,
    {
        match self {
            IntWidth::U8 => 0xff,
            IntWidth::U16 => 0xffff,
            IntWidth::U32 => 0xffff_ffff,
            IntWidth::U64 => 0xffff_ffff_ffff_ffff,
            IntWidth::U128 => 0xffff_ffff_ffff_ffff_ffff_ffff_ffff_ffff,
        }
    }
}

/// Why a stream could not be decoded into a typed value.
#[derive(Clone, Copy, Debug, PartialEq, Eq, Structural)]
pub enum DecodeError {
    /// An element does not fit the integer width it was decoded into.
    OutOfRange { value: FieldElement, width: IntWidth },
    /// The stream holds another number of elements than the type consumes.
    SlotCountMismatch { expected: u64, actual: u64 },
    /// The text a stream shows is not a list of `u128`.
    InvalidListText,
}

/// The result of reading one element at a given width.
pub open spec fn width_decode(f: FieldElement, w: IntWidth) -> Result<u128, DecodeError> {
    if f.value() < w.bound() {
        Ok(f.value() as u128)
    } else {
        Err(DecodeError::OutOfRange { value: f, width: w })
    }
}

/// Reads the elements of `vals` at the widths `ws`, one element per width,
/// stopping at the first that does not fit.
pub open spec fn decode_prefix(vals: Seq<FieldElement>, ws: Seq<IntWidth>) -> Result<
    Seq<u128>,
    DecodeError,
>
    decreases ws.len(),
{
    if ws.len() == 0 {
        Ok(seq![])
    } else {
        match decode_prefix(vals, ws.drop_last()) {
            Err(e) => Err(e),
            Ok(s) => match width_decode(vals[ws.len() - 1], ws.last()) {
                Ok(v) => Ok(s.push(v)),
                Err(e) => Err(e),
            },
        }
    }
}

/// The result of decoding a composite whose fields have the widths `ws` from
/// the front of `vals`; elements past the fields are left alone.
pub open spec fn fields_decode(vals: Seq<FieldElement>, ws: Seq<IntWidth>) -> Result<
    Seq<u128>,
    DecodeError,
> {
    if vals.len() < ws.len() {
        Err(DecodeError::SlotCountMismatch { expected: ws.len() as u64, actual: vals.len() as u64 })
    } else {
        decode_prefix(vals, ws)
    }
}

/// `vals` holds exactly the integers `vs`, in order.
pub open spec fn encodes(vals: Seq<FieldElement>, vs: Seq<u128>) -> bool {
    vals.len() == vs.len() && forall|i: int| 0 <= i < vs.len() ==> vals[i].value() == vs[i] as nat
}

/// Reads one element at the given width.
pub fn felt_to_width(f: &FieldElement, w: IntWidth) -> (r: Result<u128, DecodeError>)
    ensures
        r == width_decode(*f, w),
{
    match f.to_u128() {
        Some(v) => {
            if v <= w.max_value() {
                Ok(v)
            } else {
                Err(DecodeError::OutOfRange { value: *f, width: w })
            }
        },
        None => Err(DecodeError::OutOfRange { value: *f, width: w }),
    }
}

/// Decodes a composite whose fields have the widths `widths`: one element
/// per field, in order, each read at its width. Elements after the fields are
/// not read.
pub fn decode_fields(values: &Vec<FieldElement>, widths: &Vec<IntWidth>) -> (r: Result<
    Vec<u128>,
    DecodeError,
>)
    ensures
        match r {
            Ok(v) => fields_decode(values@, widths@) == Ok::<Seq<u128>, DecodeError>(v@),
            Err(e) => fields_decode(values@, widths@) == Err::<Seq<u128>, DecodeError>(e),
        },
{
    let n = widths.len();
    if values.len() < n {
        return Err(DecodeError::SlotCountMismatch { expected: n as u64, actual: values.len() as u64 });
    }
    let mut out: Vec<u128> = Vec::new();
    let mut i: usize = 0;
    while i < n
        invariant
            n == widths.len(),
            n <= values.len(),
            i <= n,
            decode_prefix(values@, widths@.take(i as int)) == Ok::<Seq<u128>, DecodeError>(out@),
        decreases n - i,
    {
        assert(widths@.take(i + 1).drop_last() =~= widths@.take(i as int));
        match felt_to_width(&values[i], widths[i]) {
            Ok(v) => {
                out.push(v);
            },
            Err(e) => {
                proof {
                    lemma_decode_prefix_fail(values@, widths@, (i + 1) as int);
                }
                return Err(e);
            },
        }
        i = i + 1;
    }
    assert(widths@.take(n as int) =~= widths@);
    Ok(out)
}

proof fn lemma_decode_prefix_fail(vals: Seq<FieldElement>, ws: Seq<IntWidth>, k: int)
    requires
        0 <= k <= ws.len(),
        decode_prefix(vals, ws.take(k)) is Err,
    ensures
        decode_prefix(vals, ws) == decode_prefix(vals, ws.take(k)),
    decreases ws.len() - k,
{
    if k < ws.len() {
        assert(ws.take(k + 1).drop_last() =~= ws.take(k));
        assert(decode_prefix(vals, ws.take(k + 1)) == decode_prefix(vals, ws.take(k)));
        lemma_decode_prefix_fail(vals, ws, k + 1);
    } else {
        assert(ws.take(k) =~= ws);
    }
}

proof fn lemma_decode_prefix_ignores_tail(vals: Seq<FieldElement>, ws: Seq<IntWidth>, m: int)
    requires
        ws.len() <= m <= vals.len(),
    ensures
        decode_prefix(vals, ws) == decode_prefix(vals.take(m), ws),
    decreases ws.len(),
{
    if ws.len() > 0 {
        lemma_decode_prefix_ignores_tail(vals, ws.drop_last(), m);
    }
}

/// Encoding integers that fit their widths and decoding the stream at those
/// widths gives the integers back.
pub proof fn lemma_fields_round_trip(vals: Seq<FieldElement>, ws: Seq<IntWidth>, vs: Seq<u128>)
    requires
        encodes(vals, vs),
        ws.len() == vs.len(),
        forall|i: int| 0 <= i < vs.len() ==> (vs[i] as nat) < #[trigger] ws[i].bound(),
    ensures
        fields_decode(vals, ws) == Ok::<Seq<u128>, DecodeError>(vs),
    decreases vs.len(),
{
    if vs.len() > 0 {
        lemma_fields_round_trip(vals.drop_last(), ws.drop_last(), vs.drop_last());
        lemma_decode_prefix_ignores_tail(vals, ws.drop_last(), vals.len() - 1);
        assert(vals.take(vals.len() - 1) =~= vals.drop_last());
        assert(decode_prefix(vals, ws.drop_last()) == Ok::<Seq<u128>, DecodeError>(vs.drop_last()));
        let last = vs.len() - 1;
        assert((vs[last] as nat) < ws[last].bound());
        assert(vals[last].value() == vs[last] as nat);
        assert(width_decode(vals[last], ws.last()) == Ok::<u128, DecodeError>(vs[last]));
        assert(vs.drop_last().push(vs.last()) =~= vs);
    } else {
        assert(vs =~= seq![]);
    }
}

/// A composite of `n` fields fails on a stream of fewer than `n` elements,
/// and on a longer stream reads only its first `n` elements, succeeding when
/// they fit their widths.
pub proof fn lemma_slot_count(vals: Seq<FieldElement>, ws: Seq<IntWidth>)
    ensures
        vals.len() < ws.len() ==> fields_decode(vals, ws) == Err::<Seq<u128>, DecodeError>(
            DecodeError::SlotCountMismatch {
                expected: ws.len() as u64,
                actual: vals.len() as u64,
            },
        ),
        vals.len() >= ws.len() ==> fields_decode(vals, ws) == fields_decode(
            vals.take(ws.len() as int),
            ws,
        ),
        vals.len() >= ws.len() && (forall|i: int|
            0 <= i < ws.len() ==> vals[i].value() < #[trigger] ws[i].bound()) ==> fields_decode(
            vals,
            ws,
        ) is Ok,
{
    if vals.len() >= ws.len() {
        lemma_decode_prefix_ignores_tail(vals, ws, ws.len() as int);
        if forall|i: int| 0 <= i < ws.len() ==> vals[i].value() < #[trigger] ws[i].bound() {
            let vs = Seq::new(ws.len(), |i: int| vals[i].value() as u128);
            assert forall|i: int| 0 <= i < vs.len() implies (vs[i] as nat) < #[trigger] ws[i].bound() by {
                assert(vals[i].value() < ws[i].bound());
                assert(ws[i].bound() <= 0xffff_ffff_ffff_ffff_ffff_ffff_ffff_ffff + 1);
            }
            assert forall|i: int| 0 <= i < vs.len() implies #[trigger] vals.take(
                ws.len() as int,
            )[i].value() == vs[i] as nat by {
                assert(ws[i].bound() <= 0xffff_ffff_ffff_ffff_ffff_ffff_ffff_ffff + 1);
                assert(vals[i].value() < ws[i].bound());
            }
            assert(encodes(vals.take(ws.len() as int), vs));
            lemma_fields_round_trip(vals.take(ws.len() as int), ws, vs);
        }
    }
}

} // verus!
