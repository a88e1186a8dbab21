//! Best-effort display of a returned field-element stream, with detection of
//! encoded byte arrays.
use crate::felt::{hex_string, magic_value, short_string, short_string_ex, FieldElement};
use crate::text::{hex_text, pow256, short_string_of, short_string_of_len};
use vstd::prelude::*;
use vstd::string::*;

verus! {

/// The number of bytes packed into each full word of a byte array.
pub const BYTES_IN_WORD: usize = 31;

/// The concatenated texts of the full words at positions `lo..hi`.
pub open spec fn word_texts(vals: Seq<FieldElement>, lo: int, hi: int) -> Option<Seq<char>>
    decreases hi - lo,
{
    if hi <= lo {
        Some(seq![])
    } else {
        match (word_texts(vals, lo, hi - 1), short_string_of_len(vals[hi - 1].value(), 31)) {
            (Some(a), Some(b)) => Some(a + b),
            _ => None,
        }
    }
}

/// The text of a byte array whose word count stands at `start`, with the
/// position just past its pending-length element.
pub open spec fn byte_array_at(vals: Seq<FieldElement>, start: int) -> Option<(Seq<char>, int)> {
    if 0 <= start < vals.len() && vals[start].value() <= usize::MAX {
        let p = start + 1 + vals[start].value();
        if p + 2 <= vals.len() && vals[p + 1].value() <= usize::MAX {
            match (
                word_texts(vals, start + 1, p),
                short_string_of_len(vals[p].value(), vals[p + 1].value()),
            ) {
                (Some(a), Some(b)) => Some((a + b, p + 2)),
                _ => None,
            }
        } else {
            None
        }
    } else {
        None
    }
}

/// How a plain numeric element is shown: its hexadecimal numeral, followed by
/// its short-string reading when it has one.
pub open spec fn numeric_text(v: nat) -> Seq<char> {
    match short_string_of(v) {
        Some(s) => hex_text(v) + " ('"@ + s + "')"@,
        None => hex_text(v),
    }
}

/// The item that starts at `pos` (its text and whether it is a string), with
/// the position after it; `None` when the stream is exhausted.
pub open spec fn next_item(vals: Seq<FieldElement>, pos: int) -> Option<((Seq<char>, bool), int)> {
    if 0 <= pos < vals.len() {
        if vals[pos].value() == magic_value() && byte_array_at(vals, pos + 1) is Some {
            let (t, end) = byte_array_at(vals, pos + 1)->Some_0;
            Some(((t, true), end))
        } else {
            Some(((numeric_text(vals[pos].value()), false), pos + 1))
        }
    } else {
        None
    }
}

/// All items from `pos` to the end of the stream.
pub open spec fn items_from(vals: Seq<FieldElement>, pos: int) -> Seq<(Seq<char>, bool)>
    decreases vals.len() - pos,
{
    match next_item(vals, pos) {
        Some((it, end)) => if pos < end <= vals.len() {
            seq![it] + items_from(vals, end)
        } else {
            seq![]
        },
        None => seq![],
    }
}

/// One item as a line of the display.
pub open spec fn item_line(it: (Seq<char>, bool)) -> Seq<char> {
    it.0 + "\n"@
}

/// The lines of all items, in order.
pub open spec fn item_lines(items: Seq<(Seq<char>, bool)>) -> Seq<char>
    decreases items.len(),
{
    if items.len() == 0 {
        seq![]
    } else {
        item_lines(items.drop_last()) + item_line(items.last())
    }
}

/// The display of a whole stream: a lone string item bare, anything else one
/// line per item.
pub open spec fn debug_text(vals: Seq<FieldElement>) -> Seq<char> {
    let items = items_from(vals, 0);
    if items.len() == 1 && items[0].1 {
        items[0].0
    } else {
        item_lines(items)
    }
}

proof fn lemma_word_texts_fail(vals: Seq<FieldElement>, lo: int, k: int, hi: int)
    requires
        lo <= k <= hi,
        word_texts(vals, lo, k) is None,
    ensures
        word_texts(vals, lo, hi) is None,
    decreases hi - k,
{
    if k < hi {
        lemma_word_texts_fail(vals, lo, k, hi - 1);
    }
}

/// A formatted unit of output: a numeric element or a decoded string.
pub struct FormattedItem {
    item: String,
    is_string: bool,
}

impl View for FormattedItem {
    type V = (Seq<char>, bool);

    closed spec fn view(&self) -> (Seq<char>, bool) {
        (self.item@, self.is_string)
    }
}

impl FormattedItem {
    /// An item with the given text.
    pub fn new(item: String, is_string: bool) -> (r: FormattedItem)
        ensures
            r@ == (item@, is_string),
    {
        FormattedItem { item, is_string }
    }

    /// Whether the item is a decoded string.
    pub fn is_string(&self) -> (r: bool)
        ensures
            r == self@.1,
    {
        self.is_string
    }

    /// The formatted text as is.
    pub fn get(self) -> (r: String)
        ensures
            r@ == self@.0,
    {
        self.item
    }

    /// The formatted text, in double quotes when the item is a string.
    pub fn quote_if_string(self) -> (r: String)
        ensures
            r@ == (if self@.1 {
                "\""@ + self@.0 + "\""@
            } else {
                self@.0
            }),
    {
        if self.is_string {
            let mut out = String::from_str("\"");
            out.append(self.item.as_str());
            out.append("\"");
            out
        } else {
            self.item
        }
    }
}

/// Formats an element as its hexadecimal numeral, with its short-string
/// reading when it has one.
pub fn format_short_string(value: &FieldElement) -> (r: String)
    ensures
        r@ == numeric_text(value.value()),
{
    let mut out = hex_string(value);
    match short_string(value) {
        Some(s) => {
            out.append(" ('");
            out.append(s.as_str());
            out.append("')");
        },
        None => {},
    }
    out
}

/// Reads a byte array whose word count stands at `*pos`. On success the
/// position moves past it; on any failure it stays where it was.
pub fn try_format_string(values: &Vec<FieldElement>, pos: &mut usize) -> (r: Option<String>)
    requires
        *old(pos) <= values.len(),
    ensures
        match r {
            Some(s) => byte_array_at(values@, *old(pos) as int) == Some((s@, *final(pos) as int)),
            None => byte_array_at(values@, *old(pos) as int) is None && *final(pos) == *old(pos),
        },
{
    let len = values.len();
    let start = *pos;
    if start >= len {
        return None;
    }
    let n = match values[start].to_usize() {
        Some(n) => n,
        None => return None,
    };
    let first = start + 1;
    if n > len - first || len - first - n < 2 {
        return None;
    }
    let p = first + n;
    let pending_len = match values[p + 1].to_usize() {
        Some(l) => l,
        None => return None,
    };
    let mut text = String::new();
    let mut i: usize = 0;
    while i < n
        invariant
            i <= n,
            first == start + 1,
            *pos == start,
            *old(pos) == start,
            p == first + n,
            p + 2 <= len,
            len == values.len(),
            values@[start as int].value() == n,
            values@[p + 1].value() == pending_len,
            word_texts(values@, first as int, (first + i) as int) == Some(text@),
        decreases n - i,
    {
        match short_string_ex(&values[first + i], BYTES_IN_WORD) {
            Some(w) => {
                text.append(w.as_str());
            },
            None => {
                proof {
                    assert(word_texts(values@, first as int, (first + i + 1) as int) is None);
                    lemma_word_texts_fail(values@, first as int, (first + i + 1) as int, p as int);
                    assert(byte_array_at(values@, start as int) is None);
                }
                return None;
            },
        }
        i = i + 1;
    }
    match short_string_ex(&values[p], pending_len) {
        Some(w) => {
            text.append(w.as_str());
        },
        None => {
            return None;
        },
    }
    *pos = p + 2;
    Some(text)
}

/// Formats the item at `*pos` and moves the position past it; `None` when
/// the stream is exhausted.
pub fn format_next_item(values: &Vec<FieldElement>, pos: &mut usize) -> (r: Option<FormattedItem>)
    requires
        *old(pos) <= values.len(),
    ensures
        *final(pos) <= values.len(),
        match r {
            Some(it) => next_item(values@, *old(pos) as int) == Some((it@, *final(pos) as int)),
            None => next_item(values@, *old(pos) as int) is None && *final(pos) == *old(pos),
        },
{
    if *pos >= values.len() {
        return None;
    }
    let first = values[*pos];
    *pos = *pos + 1;
    if first.same_as(&FieldElement::byte_array_magic()) {
        match try_format_string(values, pos) {
            Some(s) => {
                return Some(FormattedItem::new(s, true));
            },
            None => {},
        }
    }
    Some(FormattedItem::new(format_short_string(&first), false))
}

/// Formats every item of the stream, in order.
fn collect_items(values: &Vec<FieldElement>) -> (r: Vec<FormattedItem>)
    ensures
        r@.map_values(|it: FormattedItem| it@) == items_from(values@, 0),
{
    let mut items: Vec<FormattedItem> = Vec::new();
    let mut pos: usize = 0;
    loop
        invariant
            pos <= values.len(),
            items_from(values@, 0) == items@.map_values(|it: FormattedItem| it@) + items_from(
                values@,
                pos as int,
            ),
        ensures
            items_from(values@, 0) == items@.map_values(|it: FormattedItem| it@),
        decreases values.len() - pos,
    {
        let ghost before = pos;
        match format_next_item(values, &mut pos) {
            Some(it) => {
                proof {
                    assert(items_from(values@, before as int) == seq![it@] + items_from(
                        values@,
                        pos as int,
                    ));
                }
                items.push(it);
                proof {
                    assert(items_from(values@, 0) =~= items@.map_values(|it: FormattedItem| it@)
                        + items_from(values@, pos as int));
                }
            },
            None => {
                proof {
                    assert(items_from(values@, 0) =~= items@.map_values(|it: FormattedItem| it@));
                }
                break;
            },
        }
    }
    items
}

/// Writes each item on a line of its own.
fn join_lines(items: &Vec<FormattedItem>) -> (r: String)
    ensures
        r@ == item_lines(items@.map_values(|it: FormattedItem| it@)),
{
    let ghost all = items@.map_values(|it: FormattedItem| it@);
    let mut out = String::new();
    let n = items.len();
    let mut i: usize = 0;
    while i < n
        invariant
            n == items.len(),
            i <= n,
            all == items@.map_values(|it: FormattedItem| it@),
            out@ == item_lines(all.take(i as int)),
        decreases n - i,
    {
        assert(all.take(i + 1).drop_last() =~= all.take(i as int));
        out.append(items[i].item.as_str());
        out.append("\n");
        i = i + 1;
    }
    assert(all.take(n as int) =~= all);
    out
}

/// Formats a whole stream for display: a stream that is exactly one encoded
/// string shows as that string; otherwise each item stands on a line of its
/// own.
pub fn format_for_debug(values: &Vec<FieldElement>) -> (r: String)
    ensures
        r@ == debug_text(values@),
{
    let mut items = collect_items(values);
    if items.len() == 1 && items[0].is_string() {
        let it = items.pop().unwrap();
        return it.get();
    }
    join_lines(&items)
}

/// A leading magic marker that does not open a well-formed byte array is
/// shown as a plain number, and only that one element is consumed.
pub proof fn lemma_fallback(vals: Seq<FieldElement>, pos: int)
    requires
        0 <= pos < vals.len(),
        vals[pos].value() == magic_value(),
        byte_array_at(vals, pos + 1) is None,
    ensures
        next_item(vals, pos) == Some(((numeric_text(magic_value()), false), pos + 1)),
{
}

/// The stream holds a well-formed byte array whose word count stands at
/// `start`: the count and the pending length fit a `usize`, the words, the
/// pending word and its length are all there, every full word fits in 31
/// bytes, and the pending word fits in its length, which is at most 31.
pub open spec fn byte_array_well_formed(vals: Seq<FieldElement>, start: int) -> bool {
    &&& 0 <= start < vals.len()
    &&& vals[start].value() <= usize::MAX
    &&& start + 1 + vals[start].value() + 2 <= vals.len()
    &&& vals[start + 1 + vals[start].value() + 1].value() <= usize::MAX
    &&& forall|i: int|
        start + 1 <= i < start + 1 + vals[start].value() ==> #[trigger] vals[i].value() < pow256(31)
    &&& vals[start + 1 + vals[start].value() + 1].value() <= 31
    &&& vals[start + 1 + vals[start].value()].value() < pow256(
        vals[start + 1 + vals[start].value() + 1].value(),
    )
}

proof fn lemma_word_texts_some(vals: Seq<FieldElement>, lo: int, hi: int)
    requires
        lo <= hi <= vals.len(),
        0 <= lo,
    ensures
        (word_texts(vals, lo, hi) is Some) == (forall|i: int|
            lo <= i < hi ==> #[trigger] vals[i].value() < pow256(31)),
    decreases hi - lo,
{
    if lo < hi {
        lemma_word_texts_some(vals, lo, hi - 1);
    }
}

/// A byte array is read exactly when the stream holds a well-formed one, and
/// then the read ends right after its pending length.
pub proof fn lemma_byte_array_grammar(vals: Seq<FieldElement>, start: int)
    ensures
        (byte_array_at(vals, start) is Some) == byte_array_well_formed(vals, start),
        byte_array_at(vals, start) is Some ==> byte_array_at(vals, start)->Some_0.1 == start + 1
            + vals[start].value() + 2,
{
    if 0 <= start < vals.len() && vals[start].value() <= usize::MAX {
        let p = start + 1 + vals[start].value();
        if p + 2 <= vals.len() {
            lemma_word_texts_some(vals, start + 1, p);
        }
    }
}

} // verus!
