//! The byte-array wire format: a magic marker, the number of full words,
//! the full words of 31 bytes each, a pending word and its length.
use crate::args::felt_values;
use crate::felt::{field_modulus, magic_value, FieldElement};
use crate::format::{byte_array_at, debug_text, item_lines, items_from, next_item, word_texts};
use crate::text::{
    ascii_chars, be_value, is_printable, lemma_be_round_trip, lemma_escape_printable,
    lemma_pow256_mono, pow256, short_string_of_len,
};
use vstd::prelude::*;

verus! {

/// The value of full word `i` of `bs`.
pub open spec fn word_at(bs: Seq<u8>, i: int) -> nat {
    be_value(bs.subrange(31 * i, 31 * i + 31))
}

/// The element values that encode the bytes `bs` as a byte array.
pub open spec fn byte_array_encoding(bs: Seq<u8>) -> Seq<nat> {
    let k = (bs.len() / 31) as int;
    seq![magic_value(), k as nat] + Seq::new(k as nat, |i: int| word_at(bs, i)) + seq![
        be_value(bs.subrange(31 * k, bs.len() as int)),
        (bs.len() % 31) as nat,
    ]
}

proof fn lemma_pow256_31()
    ensures
        pow256(31) < field_modulus(),
{
    reveal_with_fuel(pow256, 32);
}

/// The element holding the big-endian value of `bytes[lo..hi]`.
fn pack_word(bytes: &Vec<u8>, lo: usize, hi: usize) -> (r: FieldElement)
    requires
        lo <= hi <= bytes.len(),
        hi - lo <= 31,
    ensures
        r.value() == be_value(bytes@.subrange(lo as int, hi as int)),
{
    let mut acc = FieldElement::from_u128(0);
    let mut i = lo;
    assert(bytes@.subrange(lo as int, lo as int) =~= seq![]);
    while i < hi
        invariant
            lo <= i <= hi <= bytes.len(),
            hi - lo <= 31,
            acc.value() == be_value(bytes@.subrange(lo as int, i as int)),
        decreases hi - i,
    {
        proof {
            lemma_be_round_trip(bytes@.subrange(lo as int, i + 1));
            lemma_pow256_mono((i + 1 - lo) as nat, 31);
            lemma_pow256_31();
            assert(bytes@.subrange(lo as int, i + 1).drop_last() =~= bytes@.subrange(
                lo as int,
                i as int,
            ));
        }
        acc = match acc.times_256_plus(bytes[i]) {
            Some(next) => next,
            None => acc,
        };
        i = i + 1;
    }
    acc
}

/// Encodes bytes as a byte array: the magic marker, the number of full
/// words, each full word of 31 bytes, the pending word of the remaining
/// bytes and their number.
pub fn encode_byte_array(bytes: &Vec<u8>) -> (r: Vec<FieldElement>)
    ensures
        felt_values(r@) == byte_array_encoding(bytes@),
{
    let n = bytes.len();
    let k = n / 31;
    let mut out: Vec<FieldElement> = Vec::new();
    out.push(FieldElement::byte_array_magic());
    out.push(FieldElement::from_u128(k as u128));
    let mut j: usize = 0;
    while j < k
        invariant
            n == bytes.len(),
            k == n / 31,
            j <= k,
            felt_values(out@) == seq![magic_value(), k as nat] + Seq::new(
                j as nat,
                |i: int| word_at(bytes@, i),
            ),
        decreases k - j,
    {
        let ghost before = felt_values(out@);
        let w = pack_word(bytes, 31 * j, 31 * j + 31);
        out.push(w);
        assert(felt_values(out@) =~= before.push(w.value()));
        assert(felt_values(out@) =~= seq![magic_value(), k as nat] + Seq::new(
            (j + 1) as nat,
            |i: int| word_at(bytes@, i),
        ));
        j = j + 1;
    }
    let ghost before = felt_values(out@);
    let pending = pack_word(bytes, 31 * k, n);
    out.push(pending);
    let pending_len = FieldElement::from_u128((n % 31) as u128);
    out.push(pending_len);
    assert(felt_values(out@) =~= before.push(pending.value()).push(pending_len.value()));
    assert(felt_values(out@) =~= byte_array_encoding(bytes@));
    out
}

/// The stream `vals` holds the byte-array encoding of `bs` from position
/// `p` on.
pub open spec fn encoded_at(vals: Seq<FieldElement>, p: int, bs: Seq<u8>) -> bool {
    0 <= p && p + byte_array_encoding(bs).len() <= vals.len() && forall|j: int|
        0 <= j < byte_array_encoding(bs).len() ==> vals[p + j].value()
            == #[trigger] byte_array_encoding(bs)[j]
}

proof fn lemma_words(vals: Seq<FieldElement>, p: int, bs: Seq<u8>, j: int)
    requires
        encoded_at(vals, p, bs),
        forall|i: int| 0 <= i < bs.len() ==> is_printable(#[trigger] bs[i]),
        0 <= j <= bs.len() / 31,
    ensures
        word_texts(vals, p + 2, p + 2 + j) == Some(ascii_chars(bs.subrange(0, 31 * j))),
    decreases j,
{
    if j == 0 {
        assert(ascii_chars(bs.subrange(0, 0)) =~= seq![]);
    } else {
        lemma_words(vals, p, bs, j - 1);
        let chunk = bs.subrange(31 * (j - 1), 31 * j);
        assert(byte_array_encoding(bs)[1 + j] == be_value(chunk));
        assert(vals[p + (1 + j)].value() == be_value(chunk));
        lemma_be_round_trip(chunk);
        lemma_pow256_31();
        assert forall|i: int| 0 <= i < chunk.len() implies is_printable(#[trigger] chunk[i]) by {
            assert(chunk[i] == bs[31 * (j - 1) + i]);
        }
        lemma_escape_printable(chunk);
        assert(short_string_of_len(vals[p + 1 + j].value(), 31) == Some(ascii_chars(chunk)));
        assert(ascii_chars(bs.subrange(0, 31 * (j - 1))) + ascii_chars(chunk) =~= ascii_chars(
            bs.subrange(0, 31 * j),
        ));
    }
}

/// Wherever the byte-array encoding of printable bytes stands in a stream,
/// whatever follows it, the item read there is exactly their text, and it
/// ends right after the encoding.
pub proof fn lemma_byte_array_item(vals: Seq<FieldElement>, p: int, bs: Seq<u8>)
    requires
        encoded_at(vals, p, bs),
        forall|i: int| 0 <= i < bs.len() ==> is_printable(#[trigger] bs[i]),
        bs.len() <= usize::MAX,
    ensures
        byte_array_at(vals, p + 1) == Some((ascii_chars(bs), p + bs.len() / 31 + 4)),
        next_item(vals, p) == Some(((ascii_chars(bs), true), p + bs.len() / 31 + 4)),
{
    let n = bs.len() as int;
    let k = n / 31;
    let enc = byte_array_encoding(bs);
    assert(enc[0] == magic_value());
    assert(vals[p + 0].value() == enc[0]);
    assert(enc[1] == k);
    assert(vals[p + 1].value() == enc[1]);
    assert(vals[p + (k + 2)].value() == enc[k + 2]);
    assert(vals[p + (k + 3)].value() == enc[k + 3]);
    lemma_words(vals, p, bs, k as int);
    let rest = bs.subrange(31 * k, n);
    lemma_be_round_trip(rest);
    assert forall|i: int| 0 <= i < rest.len() implies is_printable(#[trigger] rest[i]) by {
        assert(rest[i] == bs[31 * k + i]);
    }
    lemma_escape_printable(rest);
    assert(short_string_of_len(vals[p + k + 2].value(), vals[p + k + 3].value()) == Some(
        ascii_chars(rest),
    ));
    assert(ascii_chars(bs.subrange(0, 31 * k)) + ascii_chars(rest) =~= ascii_chars(bs));
}

/// Encoding printable bytes as a byte array and formatting the stream for
/// display gives back exactly their text.
pub proof fn lemma_byte_array_round_trip(vals: Seq<FieldElement>, bs: Seq<u8>)
    requires
        felt_values(vals) == byte_array_encoding(bs),
        forall|i: int| 0 <= i < bs.len() ==> is_printable(#[trigger] bs[i]),
        bs.len() <= usize::MAX,
    ensures
        debug_text(vals) == ascii_chars(bs),
{
    assert(felt_values(vals).len() == vals.len());
    assert forall|j: int| 0 <= j < byte_array_encoding(bs).len() implies vals[0 + j].value()
        == #[trigger] byte_array_encoding(bs)[j] by {
        assert(felt_values(vals)[j] == vals[j].value());
    }
    lemma_byte_array_item(vals, 0, bs);
    assert(next_item(vals, vals.len() as int) is None);
    assert(items_from(vals, vals.len() as int) =~= seq![]);
    assert(items_from(vals, 0) =~= seq![(ascii_chars(bs), true)]);
}

} // verus!
