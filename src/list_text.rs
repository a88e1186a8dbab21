//! Reading a list of `u128` from its displayed text, such as `[1, 2, 3]`.
use crate::args::{decimal_value, is_decimal, is_digit, lemma_decimal_grows};
use crate::text::{dec_text, digit_text};
use vstd::prelude::*;
use vstd::string::*;

verus! {

/// A square bracket.
pub open spec fn is_bracket(c: char) -> bool {
    c == '[' || c == ']'
}

/// A white-space character, as `char::is_whitespace` reads it.
pub open spec fn is_space(c: char) -> bool {
    ('\t' <= c && c <= '\r') || c == ' ' || c == '\u{85}' || c == '\u{A0}' || c == '\u{1680}'
        || ('\u{2000}' <= c && c <= '\u{200A}') || c == '\u{2028}' || c == '\u{2029}' || c
        == '\u{202F}' || c == '\u{205F}' || c == '\u{3000}'
}

/// The first position of `lo..hi` that is not a bracket, or `hi`.
pub open spec fn skip_front_brackets(s: Seq<char>, lo: int, hi: int) -> int
    decreases hi - lo,
{
    if lo < hi && is_bracket(s[lo]) {
        skip_front_brackets(s, lo + 1, hi)
    } else {
        lo
    }
}

/// The end of `lo..hi` once its trailing brackets are dropped.
pub open spec fn skip_back_brackets(s: Seq<char>, lo: int, hi: int) -> int
    decreases hi - lo,
{
    if lo < hi && is_bracket(s[hi - 1]) {
        skip_back_brackets(s, lo, hi - 1)
    } else {
        hi
    }
}

/// The first position of `lo..hi` that is not white space, or `hi`.
pub open spec fn skip_front_spaces(s: Seq<char>, lo: int, hi: int) -> int
    decreases hi - lo,
{
    if lo < hi && is_space(s[lo]) {
        skip_front_spaces(s, lo + 1, hi)
    } else {
        lo
    }
}

/// The end of `lo..hi` once its trailing white space is dropped.
pub open spec fn skip_back_spaces(s: Seq<char>, lo: int, hi: int) -> int
    decreases hi - lo,
{
    if lo < hi && is_space(s[hi - 1]) {
        skip_back_spaces(s, lo, hi - 1)
    } else {
        hi
    }
}

/// The first comma of `i..hi`, or `hi`.
pub open spec fn next_comma(s: Seq<char>, i: int, hi: int) -> int
    decreases hi - i,
{
    if i < hi && s[i] != ',' {
        next_comma(s, i + 1, hi)
    } else {
        i
    }
}

/// A `u128` written in decimal, with an optional leading `+`.
pub open spec fn u128_text(t: Seq<char>) -> Option<u128> {
    let d = if t.len() > 0 && t[0] == '+' {
        t.drop_first()
    } else {
        t
    };
    if is_decimal(d) && decimal_value(d) <= u128::MAX {
        Some(decimal_value(d) as u128)
    } else {
        None
    }
}

/// The value of the piece `a..b`, white space around it dropped.
pub open spec fn piece_value(s: Seq<char>, a: int, b: int) -> Option<u128> {
    let a2 = skip_front_spaces(s, a, b);
    let b2 = skip_back_spaces(s, a2, b);
    u128_text(s.subrange(a2, b2))
}

/// The values of the comma-separated pieces of `lo..hi`.
pub open spec fn items_in(s: Seq<char>, lo: int, hi: int) -> Option<Seq<u128>>
    decreases hi - lo,
{
    if lo < 0 || lo > hi {
        None
    } else {
        let c = next_comma(s, lo, hi);
        match piece_value(s, lo, c) {
            None => None,
            Some(v) => if lo <= c && c < hi {
                match items_in(s, c + 1, hi) {
                    Some(rest) => Some(seq![v] + rest),
                    None => None,
                }
            } else {
                Some(seq![v])
            },
        }
    }
}

/// The list a text shows: brackets around it dropped, then nothing for an
/// empty text, else the values of its comma-separated pieces.
pub open spec fn list_of_text(s: Seq<char>) -> Option<Seq<u128>> {
    let lo = skip_front_brackets(s, 0, s.len() as int);
    let hi = skip_back_brackets(s, lo, s.len() as int);
    if lo >= hi {
        Some(seq![])
    } else {
        items_in(s, lo, hi)
    }
}

proof fn lemma_skips_in_range(s: Seq<char>, lo: int, hi: int)
    requires
        lo <= hi,
    ensures
        lo <= skip_front_brackets(s, lo, hi) <= hi,
        lo <= skip_back_brackets(s, lo, hi) <= hi,
        lo <= skip_front_spaces(s, lo, hi) <= hi,
        lo <= skip_back_spaces(s, lo, hi) <= hi,
        lo <= next_comma(s, lo, hi) <= hi,
    decreases hi - lo,
{
    if lo < hi {
        lemma_skips_in_range(s, lo + 1, hi);
        lemma_skips_in_range(s, lo, hi - 1);
    }
}

fn is_bracket_exec(c: char) -> (r: bool)
    ensures
        r == is_bracket(c),
{
    c == '[' || c == ']'
}

fn is_space_exec(c: char) -> (r: bool)
    ensures
        r == is_space(c),
{
    ('\t' <= c && c <= '\r') || c == ' ' || c == '\u{85}' || c == '\u{A0}' || c == '\u{1680}' || (
    '\u{2000}' <= c && c <= '\u{200A}') || c == '\u{2028}' || c == '\u{2029}' || c == '\u{202F}'
        || c == '\u{205F}' || c == '\u{3000}'
}

/// Reads `s[a..b]` as a `u128` written in decimal, with an optional `+`.
fn u128_at(s: &str, a: usize, b: usize) -> (r: Option<u128>)
    requires
        a <= b <= s@.len(),
    ensures
        r == u128_text(s@.subrange(a as int, b as int)),
{
    let ghost t = s@.subrange(a as int, b as int);
    let mut start = a;
    if a < b && s.get_char(a) == '+' {
        start = a + 1;
    }
    let ghost d = s@.subrange(start as int, b as int);
    assert(d == (if t.len() > 0 && t[0] == '+' {
        t.drop_first()
    } else {
        t
    }));
    if start == b {
        assert(!is_decimal(d));
        assert(u128_text(t) is None);
        return None;
    }
    let mut i = start;
    while i < b
        invariant
            start <= i <= b <= s@.len(),
            d == s@.subrange(start as int, b as int),
            t == s@.subrange(a as int, b as int),
            d == (if t.len() > 0 && t[0] == '+' {
                t.drop_first()
            } else {
                t
            }),
            forall|j: int| 0 <= j < i - start ==> is_digit(#[trigger] d[j]),
        decreases b - i,
    {
        let c = s.get_char(i);
        if !('0' <= c && c <= '9') {
            assert(!is_digit(d[i - start]));
            assert(!is_decimal(d));
            return None;
        }
        i = i + 1;
    }
    assert(is_decimal(d));
    let mut acc: u128 = 0;
    let mut k = start;
    assert(d.take(0) =~= seq![]);
    while k < b
        invariant
            start <= k <= b <= s@.len(),
            d == s@.subrange(start as int, b as int),
            t == s@.subrange(a as int, b as int),
            d == (if t.len() > 0 && t[0] == '+' {
                t.drop_first()
            } else {
                t
            }),
            is_decimal(d),
            acc == decimal_value(d.take(k - start)),
        decreases b - k,
    {
        let c = s.get_char(k);
        assert(d[k - start] == c);
        assert(is_digit(d[k - start]));
        let dig = (c as u32 - '0' as u32) as u128;
        assert(d.take(k - start + 1).drop_last() =~= d.take(k - start));
        assert(decimal_value(d.take(k - start + 1)) == acc * 10 + dig);
        if acc > 34028236692093846346337460743176821145 || (acc == 34028236692093846346337460743176821145
            && dig > 5) {
            proof {
                lemma_decimal_grows(d, k - start + 1);
                assert(decimal_value(d) > u128::MAX);
            }
            return None;
        }
        acc = acc * 10 + dig;
        k = k + 1;
    }
    assert(d.take(b - start) =~= d);
    Some(acc)
}

fn skippable(c: char, brackets: bool) -> (r: bool)
    ensures
        r == (if brackets {
            is_bracket(c)
        } else {
            is_space(c)
        }),
{
    if brackets {
        is_bracket_exec(c)
    } else {
        is_space_exec(c)
    }
}

fn skip_front(s: &str, lo: usize, hi: usize, brackets: bool) -> (r: usize)
    requires
        lo <= hi <= s@.len(),
    ensures
        r == (if brackets {
            skip_front_brackets(s@, lo as int, hi as int)
        } else {
            skip_front_spaces(s@, lo as int, hi as int)
        }),
{
    let mut i = lo;
    while i < hi && skippable(s.get_char(i), brackets)
        invariant
            lo <= i <= hi <= s@.len(),
            (if brackets {
                skip_front_brackets(s@, i as int, hi as int) == skip_front_brackets(
                    s@,
                    lo as int,
                    hi as int,
                )
            } else {
                skip_front_spaces(s@, i as int, hi as int) == skip_front_spaces(
                    s@,
                    lo as int,
                    hi as int,
                )
            }),
        decreases hi - i,
    {
        i = i + 1;
    }
    i
}

fn skip_back(s: &str, lo: usize, hi: usize, brackets: bool) -> (r: usize)
    requires
        lo <= hi <= s@.len(),
    ensures
        r == (if brackets {
            skip_back_brackets(s@, lo as int, hi as int)
        } else {
            skip_back_spaces(s@, lo as int, hi as int)
        }),
{
    let mut j = hi;
    while lo < j && skippable(s.get_char(j - 1), brackets)
        invariant
            lo <= j <= hi <= s@.len(),
            (if brackets {
                skip_back_brackets(s@, lo as int, j as int) == skip_back_brackets(
                    s@,
                    lo as int,
                    hi as int,
                )
            } else {
                skip_back_spaces(s@, lo as int, j as int) == skip_back_spaces(
                    s@,
                    lo as int,
                    hi as int,
                )
            }),
        decreases j - lo,
    {
        j = j - 1;
    }
    j
}

fn find_comma(s: &str, lo: usize, hi: usize) -> (r: usize)
    requires
        lo <= hi <= s@.len(),
    ensures
        r == next_comma(s@, lo as int, hi as int),
        lo <= r <= hi,
{
    let mut i = lo;
    while i < hi && s.get_char(i) != ','
        invariant
            lo <= i <= hi <= s@.len(),
            next_comma(s@, i as int, hi as int) == next_comma(s@, lo as int, hi as int),
        decreases hi - i,
    {
        i = i + 1;
    }
    i
}

/// Reads the list that a text shows, such as `[1, 2, 3]`: brackets around it
/// are dropped, an empty text is the empty list, and otherwise each
/// comma-separated piece, trimmed of white space, must be a `u128` in
/// decimal.
pub fn parse_list_text(text: &str) -> (r: Option<Vec<u128>>)
    ensures
        match r {
            Some(v) => list_of_text(text@) == Some(v@),
            None => list_of_text(text@) is None,
        },
{
    let n = text.unicode_len();
    let lo = skip_front(text, 0, n, true);
    proof {
        lemma_skips_in_range(text@, 0, n as int);
    }
    let hi = skip_back(text, lo, n, true);
    proof {
        lemma_skips_in_range(text@, lo as int, n as int);
    }
    if lo >= hi {
        return Some(Vec::new());
    }
    let mut out: Vec<u128> = Vec::new();
    let mut i = lo;
    assert(out@ + seq![] =~= out@);
    loop
        invariant
            lo <= i <= hi <= n,
            n == text@.len(),
            lo < hi,
            lo == skip_front_brackets(text@, 0, n as int),
            hi == skip_back_brackets(text@, lo as int, n as int),
            items_in(text@, lo as int, hi as int) == (match items_in(text@, i as int, hi as int) {
                Some(rest) => Some(out@ + rest),
                None => None::<Seq<u128>>,
            }),
        decreases hi - i,
    {
        let c = find_comma(text, i, hi);
        let a = skip_front(text, i, c, false);
        proof {
            lemma_skips_in_range(text@, i as int, c as int);
        }
        let b = skip_back(text, a, c, false);
        proof {
            lemma_skips_in_range(text@, a as int, c as int);
        }
        assert(piece_value(text@, i as int, c as int) == u128_text(
            text@.subrange(a as int, b as int),
        ));
        match u128_at(text, a, b) {
            None => {
                assert(items_in(text@, i as int, hi as int) is None);
                return None;
            },
            Some(v) => {
                if c >= hi {
                    assert(items_in(text@, i as int, hi as int) == Some(seq![v]));
                    assert(out@ + seq![v] =~= out@.push(v));
                    out.push(v);
                    return Some(out);
                }
                proof {
                    match items_in(text@, c + 1, hi as int) {
                        Some(rest) => {
                            assert(out@.push(v) + rest =~= out@ + (seq![v] + rest));
                        },
                        None => {},
                    }
                }
                out.push(v);
                i = c + 1;
            },
        }
    }
}

} // verus!

verus! {

/// `, ` and the numeral of each of `items[m..]`, in order.
pub open spec fn tail_text(items: Seq<u128>, m: int) -> Seq<char>
    decreases items.len() - m,
{
    if m < 0 || m >= items.len() {
        seq![]
    } else {
        ", "@ + dec_text(items[m] as nat) + tail_text(items, m + 1)
    }
}

/// How a list shows: `[1, 2, 3]`, and `[]` when empty.
pub open spec fn list_text(items: Seq<u128>) -> Seq<char> {
    if items.len() == 0 {
        "[]"@
    } else {
        "["@ + dec_text(items[0] as nat) + tail_text(items, 1) + "]"@
    }
}

proof fn lemma_digit_text(d: nat)
    requires
        d < 10,
    ensures
        digit_text(d).len() == 1,
        is_digit(digit_text(d)[0]),
        digit_text(d)[0] as nat - '0' as nat == d,
{
    reveal_strlit("0");
    reveal_strlit("1");
    reveal_strlit("2");
    reveal_strlit("3");
    reveal_strlit("4");
    reveal_strlit("5");
    reveal_strlit("6");
    reveal_strlit("7");
    reveal_strlit("8");
    reveal_strlit("9");
}

proof fn lemma_dec_text(n: nat)
    ensures
        dec_text(n).len() >= 1,
        is_decimal(dec_text(n)),
        decimal_value(dec_text(n)) == n,
    decreases n,
{
    if n < 10 {
        lemma_digit_text(n);
        assert(dec_text(n).drop_last() =~= seq![]);
        assert(decimal_value(dec_text(n).drop_last()) == 0);
    } else {
        lemma_dec_text(n / 10);
        lemma_digit_text(n % 10);
        let s = dec_text(n);
        assert(s.drop_last() =~= dec_text(n / 10));
        assert(s.last() == digit_text(n % 10)[0]);
        assert(decimal_value(s) == decimal_value(dec_text(n / 10)) * 10 + n % 10);
        assert forall|i: int| 0 <= i < s.len() implies is_digit(#[trigger] s[i]) by {
            if i < s.len() - 1 {
                assert(s[i] == dec_text(n / 10)[i]);
            }
        }
    }
}

proof fn lemma_no_comma_until(s: Seq<char>, lo: int, c: int, hi: int)
    requires
        0 <= lo <= c <= hi <= s.len(),
        forall|i: int| lo <= i < c ==> s[i] != ',',
        c == hi || s[c] == ',',
    ensures
        next_comma(s, lo, hi) == c,
    decreases c - lo,
{
    if lo < c {
        lemma_no_comma_until(s, lo + 1, c, hi);
    }
}

/// The numeral of `v` standing at `a..b` of `s` reads as a piece worth `v`.
proof fn lemma_numeral_piece(s: Seq<char>, a: int, b: int, v: u128, spaced: bool)
    requires
        0 <= a,
        b <= s.len(),
        spaced ==> s[a] == ' ',
        (if spaced {
            a + 1
        } else {
            a
        }) + dec_text(v as nat).len() == b,
        s.subrange(if spaced {
            a + 1
        } else {
            a
        }, b) == dec_text(v as nat),
    ensures
        forall|i: int| a <= i < b ==> s[i] != ',',
        piece_value(s, a, b) == Some(v),
{
    let a1 = if spaced {
        a + 1
    } else {
        a
    };
    let d = dec_text(v as nat);
    lemma_dec_text(v as nat);
    assert forall|i: int| a <= i < b implies s[i] != ',' by {
        if i >= a1 {
            assert(s[i] == d[i - a1]);
            assert(is_digit(d[i - a1]));
        }
    }
    assert(s.subrange(a1, b)[0] == s[a1]);
    assert(s[a1] == d[0]);
    assert(is_digit(d[0]));
    if spaced {
        assert(is_space(s[a]));
        assert(skip_front_spaces(s, a, b) == skip_front_spaces(s, a + 1, b));
    }
    assert(skip_front_spaces(s, a, b) == a1);
    assert(s.subrange(a1, b)[d.len() - 1] == s[b - 1]);
    assert(s[b - 1] == d[d.len() - 1]);
    assert(is_digit(d[d.len() - 1]));
    assert(skip_back_spaces(s, a1, b) == b);
    assert(!(d[0] == '+'));
}

proof fn lemma_tail_items(s: Seq<char>, items: Seq<u128>, m: int, q: int, hi: int)
    requires
        1 <= m < items.len(),
        0 <= q,
        hi <= s.len(),
        hi == q + tail_text(items, m).len(),
        s.subrange(q, hi) == tail_text(items, m),
    ensures
        items_in(s, q + 1, hi) == Some(items.subrange(m, items.len() as int)),
    decreases items.len() - m,
{
    reveal_strlit(", ");
    let d = dec_text(items[m] as nat);
    let t = tail_text(items, m);
    let c: int = q + 2 + d.len();
    assert(t == ", "@ + d + tail_text(items, m + 1));
    assert(s[q + 1] == t[1]);
    assert(s.subrange(q + 2, c) =~= d) by {
        assert forall|i: int| 0 <= i < d.len() implies s.subrange(q + 2, c)[i] == d[i] by {
            assert(s[q + 2 + i] == t[2 + i]);
        }
    }
    lemma_numeral_piece(s, q + 1, c, items[m], true);
    if m + 1 < items.len() {
        reveal_strlit(", ");
        let t2 = tail_text(items, m + 1);
        assert(t2 == ", "@ + dec_text(items[m + 1] as nat) + tail_text(items, m + 2));
        assert(s[c] == t[c - q]);
        assert(s[c] == ',');
        lemma_no_comma_until(s, q + 1, c, hi);
        assert(s.subrange(c, hi) =~= t2) by {
            assert forall|i: int| 0 <= i < t2.len() implies s.subrange(c, hi)[i] == t2[i] by {
                assert(s[c + i] == t[c - q + i]);
            }
        }
        lemma_tail_items(s, items, m + 1, c, hi);
        assert(seq![items[m]] + items.subrange(m + 1, items.len() as int) =~= items.subrange(
            m,
            items.len() as int,
        ));
    } else {
        assert(tail_text(items, m + 1) =~= seq![]);
        lemma_no_comma_until(s, q + 1, c, hi);
        assert(items.subrange(m, items.len() as int) =~= seq![items[m]]);
    }
}

proof fn lemma_tail_last(items: Seq<u128>, m: int)
    requires
        1 <= m < items.len(),
    ensures
        tail_text(items, m).len() > 0,
        is_digit(tail_text(items, m).last()),
        tail_text(items, m)[0] == ',',
    decreases items.len() - m,
{
    reveal_strlit(", ");
    let d = dec_text(items[m] as nat);
    lemma_dec_text(items[m] as nat);
    let t = tail_text(items, m);
    assert(t == ", "@ + d + tail_text(items, m + 1));
    if m + 1 < items.len() {
        lemma_tail_last(items, m + 1);
    } else {
        assert(tail_text(items, m + 1) =~= seq![]);
        assert(t.last() == d.last());
    }
}

/// The text that a list shows reads back as that list.
pub proof fn lemma_list_text_round_trip(items: Seq<u128>)
    ensures
        list_of_text(list_text(items)) == Some(items),
{
    let s = list_text(items);
    reveal_strlit("[]");
    reveal_strlit("[");
    reveal_strlit("]");
    if items.len() == 0 {
        assert(s.len() == 2);
        assert(s[0] == '[' && s[1] == ']');
        assert(skip_front_brackets(s, 2, 2) == 2);
        assert(is_bracket(s[1]));
        assert(skip_front_brackets(s, 1, 2) == 2);
        assert(skip_front_brackets(s, 0, 2) == 2);
        assert(items =~= seq![]);
    } else {
        let d = dec_text(items[0] as nat);
        let t = tail_text(items, 1);
        lemma_dec_text(items[0] as nat);
        let hi = (1 + d.len() + t.len()) as int;
        let c = (1 + d.len()) as int;
        assert(s == "["@ + d + t + "]"@);
        assert(s.len() == hi + 1);
        assert(s[1] == d[0]);
        assert(is_digit(d[0]));
        assert(skip_front_brackets(s, 0, s.len() as int) == skip_front_brackets(s, 1, s.len() as int));
        assert(skip_front_brackets(s, 0, s.len() as int) == 1);
        assert(s[hi] == ']');
        if t.len() > 0 {
            lemma_tail_last(items, 1);
            assert(s[hi - 1] == t.last());
        } else {
            assert(s[hi - 1] == d.last());
        }
        assert(!is_bracket(s[hi - 1]));
        assert(skip_back_brackets(s, 1, s.len() as int) == skip_back_brackets(s, 1, hi));
        assert(skip_back_brackets(s, 1, s.len() as int) == hi);
        assert(s.subrange(1, c) =~= d);
        lemma_numeral_piece(s, 1, c, items[0], false);
        if items.len() > 1 {
            lemma_tail_last(items, 1);
            assert(s[c] == t[0]);
            lemma_no_comma_until(s, 1, c, hi);
            assert(s.subrange(c, hi) =~= t);
            lemma_tail_items(s, items, 1, c, hi);
            assert(seq![items[0]] + items.subrange(1, items.len() as int) =~= items);
        } else {
            assert(t =~= seq![]);
            lemma_no_comma_until(s, 1, c, hi);
            assert(items =~= seq![items[0]]);
        }
    }
}

} // verus!

verus! {

/// A character that the text of a list is made of.
pub open spec fn list_char(c: char) -> bool {
    is_digit(c) || c == '[' || c == ']' || c == ',' || c == ' '
}

proof fn lemma_dec_chars(n: nat)
    ensures
        forall|i: int| 0 <= i < dec_text(n).len() ==> list_char(#[trigger] dec_text(n)[i]),
{
    lemma_dec_text(n);
}

proof fn lemma_tail_chars(items: Seq<u128>, m: int)
    ensures
        forall|i: int| 0 <= i < tail_text(items, m).len() ==> list_char(#[trigger] tail_text(items, m)[i]),
    decreases items.len() - m,
{
    if 0 <= m < items.len() {
        reveal_strlit(", ");
        lemma_tail_chars(items, m + 1);
        lemma_dec_chars(items[m] as nat);
        let d = dec_text(items[m] as nat);
        let r = tail_text(items, m + 1);
        let t = tail_text(items, m);
        assert forall|i: int| 0 <= i < t.len() implies list_char(#[trigger] t[i]) by {
            if i >= 2 + d.len() {
                assert(t[i] == r[i - 2 - d.len()]);
            } else if i >= 2 {
                assert(t[i] == d[i - 2]);
            }
        }
    }
}

/// Every character of the text of a list is a digit, a bracket, a comma or
/// a space.
pub(crate) proof fn lemma_list_text_chars(items: Seq<u128>)
    ensures
        forall|i: int| 0 <= i < list_text(items).len() ==> list_char(#[trigger] list_text(items)[i]),
{
    reveal_strlit("[]");
    reveal_strlit("[");
    reveal_strlit("]");
    if items.len() > 0 {
        lemma_tail_chars(items, 1);
        lemma_dec_chars(items[0] as nat);
        let d = dec_text(items[0] as nat);
        let t = tail_text(items, 1);
        let s = list_text(items);
        assert forall|i: int| 0 <= i < s.len() implies list_char(#[trigger] s[i]) by {
            if 1 <= i < 1 + d.len() {
                assert(s[i] == d[i - 1]);
            } else if 1 + d.len() <= i < 1 + d.len() + t.len() {
                assert(s[i] == t[i - 1 - d.len()]);
            }
        }
    }
}

} // verus!
