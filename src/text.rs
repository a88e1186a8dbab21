//! How field elements read as text: hexadecimal numerals and Cairo short
//! strings.
use vstd::prelude::*;

verus! {

/// 256 to the power `n`.
pub open spec fn pow256(n: nat) -> nat
    decreases n,
{
    if n == 0 {
        1
    } else {
        256 * pow256((n - 1) as nat)
    }
}

/// The lowest `n` bytes of `v`, most significant first.
pub open spec fn be_bytes(v: nat, n: nat) -> Seq<u8>
    decreases n,
{
    if n == 0 {
        seq![]
    } else {
        be_bytes(v / 256, (n - 1) as nat).push((v % 256) as u8)
    }
}

/// The number whose big-endian bytes are `bs`.
pub open spec fn be_value(bs: Seq<u8>) -> nat
    decreases bs.len(),
{
    if bs.len() == 0 {
        0
    } else {
        (be_value(bs.drop_last()) * 256 + bs.last()) as nat
    }
}

/// The characters of ASCII bytes, one per byte.
pub open spec fn ascii_chars(bs: Seq<u8>) -> Seq<char> {
    bs.map_values(|b: u8| b as char)
}

/// Reading a number back from its bytes gives the bytes again, and the
/// number fits in that many bytes.
pub proof fn lemma_be_round_trip(bs: Seq<u8>)
    ensures
        be_value(bs) < pow256(bs.len()),
        be_bytes(be_value(bs), bs.len()) == bs,
    decreases bs.len(),
{
    if bs.len() > 0 {
        lemma_be_round_trip(bs.drop_last());
        let v = be_value(bs);
        assert(v / 256 == be_value(bs.drop_last()));
        assert(v % 256 == bs.last());
        assert(bs.drop_last().push(bs.last()) =~= bs);
    }
}

/// Printable bytes are shown as themselves.
pub proof fn lemma_escape_printable(bs: Seq<u8>)
    requires
        forall|i: int| 0 <= i < bs.len() ==> is_printable(#[trigger] bs[i]),
    ensures
        escape_bytes(bs) == ascii_chars(bs),
    decreases bs.len(),
{
    if bs.len() > 0 {
        lemma_escape_printable(bs.drop_last());
        assert(is_printable(bs[bs.len() - 1]));
        assert(ascii_chars(bs.drop_last()) + seq![bs.last() as char] =~= ascii_chars(bs));
    }
}

/// `pow256` grows with its exponent.
pub proof fn lemma_pow256_mono(a: nat, b: nat)
    requires
        a <= b,
    ensures
        pow256(a) <= pow256(b),
    decreases b,
{
    if a < b {
        lemma_pow256_mono(a, (b - 1) as nat);
    }
}

/// The decimal digit `d < 10`.
pub open spec fn digit_text(d: nat) -> Seq<char> {
    if d == 0 {
        "0"@
    } else if d == 1 {
        "1"@
    } else if d == 2 {
        "2"@
    } else if d == 3 {
        "3"@
    } else if d == 4 {
        "4"@
    } else if d == 5 {
        "5"@
    } else if d == 6 {
        "6"@
    } else if d == 7 {
        "7"@
    } else if d == 8 {
        "8"@
    } else {
        "9"@
    }
}

/// The decimal numeral of `n`.
pub open spec fn dec_text(n: nat) -> Seq<char>
    decreases n,
{
    if n < 10 {
        digit_text(n)
    } else {
        dec_text(n / 10) + digit_text(n % 10)
    }
}

/// The lowercase hexadecimal digit for `d < 16`.
pub open spec fn hex_char(d: nat) -> char {
    seq!['0', '1', '2', '3', '4', '5', '6', '7', '8', '9', 'a', 'b', 'c', 'd', 'e', 'f'][d as int]
}

/// The hexadecimal digits of `n`, without leading zeros (`0` for zero).
pub open spec fn hex_digits(n: nat) -> Seq<char>
    decreases n,
{
    if n < 16 {
        seq![hex_char(n)]
    } else {
        hex_digits(n / 16).push(hex_char(n % 16))
    }
}

/// `0x` followed by the hexadecimal digits of `n`.
pub open spec fn hex_text(n: nat) -> Seq<char> {
    seq!['0', 'x'] + hex_digits(n)
}

/// A byte that is an ASCII graphic character or ASCII whitespace.
pub open spec fn is_printable(b: u8) -> bool {
    (0x21 <= b && b <= 0x7e) || b == 0x20 || b == 0x09 || b == 0x0a || b == 0x0c || b == 0x0d
}

/// One byte of a short string of known length: `\0` for a null, the
/// character itself when printable, `\xNN` otherwise.
pub open spec fn escape_byte(b: u8) -> Seq<char> {
    if b == 0 {
        seq!['\\', '0']
    } else if is_printable(b) {
        seq![b as char]
    } else {
        seq!['\\', 'x', hex_char((b / 16) as nat), hex_char((b % 16) as nat)]
    }
}

/// Every byte of `bs`, escaped.
pub open spec fn escape_bytes(bs: Seq<u8>) -> Seq<char>
    decreases bs.len(),
{
    if bs.len() == 0 {
        seq![]
    } else {
        escape_bytes(bs.drop_last()) + escape_byte(bs.last())
    }
}

/// The text of `v` read as a short string of exactly `len` bytes: defined
/// when `len` is at most 31 and `v` fits in `len` bytes.
pub open spec fn short_string_of_len(v: nat, len: nat) -> Option<Seq<char>> {
    if len <= 31 && v < pow256(len) {
        Some(escape_bytes(be_bytes(v, len)))
    } else {
        None
    }
}

/// `bs` without its leading zero bytes.
pub open spec fn strip_leading_zeros(bs: Seq<u8>) -> Seq<u8>
    decreases bs.len(),
{
    if bs.len() > 0 && bs[0] == 0 {
        strip_leading_zeros(bs.drop_first())
    } else {
        bs
    }
}

/// Printable bytes followed by nothing but zero bytes, read as the text of
/// the printable part.
pub open spec fn printable_then_zeros(bs: Seq<u8>) -> Option<Seq<char>>
    decreases bs.len(),
{
    if bs.len() == 0 {
        Some(seq![])
    } else if bs[0] == 0 {
        if forall|i: int| 0 <= i < bs.len() ==> bs[i] == 0 {
            Some(seq![])
        } else {
            None
        }
    } else if is_printable(bs[0]) {
        match printable_then_zeros(bs.drop_first()) {
            Some(rest) => Some(seq![bs[0] as char] + rest),
            None => None,
        }
    } else {
        None
    }
}

/// The text of `v` read as a short string of free length.
pub open spec fn short_string_of(v: nat) -> Option<Seq<char>> {
    printable_then_zeros(strip_leading_zeros(be_bytes(v, 32)))
}

} // verus!
