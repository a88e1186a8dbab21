//! The one-line report of a finished run.
use crate::felt::{decimal_string, short_string, FieldElement};
use crate::text::{dec_text, short_string_of};
use vstd::prelude::*;
use vstd::string::*;

verus! {

/// A returned value in a report: its decimal numeral.
pub open spec fn plain_value_text(f: FieldElement) -> Seq<char> {
    dec_text(f.value())
}

/// A panic value in a report: its decimal numeral, with its short-string
/// reading when it has one.
pub open spec fn panic_value_text(f: FieldElement) -> Seq<char> {
    match short_string_of(f.value()) {
        Some(s) => dec_text(f.value()) + " ('"@ + s + "')"@,
        None => dec_text(f.value()),
    }
}

/// The first `n` values, shown as the run's outcome asks and separated by
/// commas.
pub open spec fn joined_values(vals: Seq<FieldElement>, n: nat, panicked: bool) -> Seq<char>
    decreases n,
{
    if n == 0 {
        seq![]
    } else {
        let shown = if panicked {
            panic_value_text(vals[n - 1])
        } else {
            plain_value_text(vals[n - 1])
        };
        if n == 1 {
            shown
        } else {
            joined_values(vals, (n - 1) as nat, panicked) + ", "@ + shown
        }
    }
}

/// The report of a run that returned `vals`, or panicked with them.
pub open spec fn run_report(vals: Seq<FieldElement>, panicked: bool) -> Seq<char> {
    if panicked {
        "Run panicked with ["@ + joined_values(vals, vals.len(), true) + "]"@
    } else {
        "Run completed successfully, returning ["@ + joined_values(vals, vals.len(), false) + "]"@
    }
}

/// Reports a finished run: the values it returned, or those it panicked
/// with, each panic value with its short-string reading when it has one.
pub fn format_run_result(values: &Vec<FieldElement>, panicked: bool) -> (r: String)
    ensures
        r@ == run_report(values@, panicked),
{
    let mut out = if panicked {
        String::from_str("Run panicked with [")
    } else {
        String::from_str("Run completed successfully, returning [")
    };
    let ghost start = out@;
    let mut i: usize = 0;
    while i < values.len()
        invariant
            i <= values.len(),
            out@ == start + joined_values(values@, i as nat, panicked),
        decreases values.len() - i,
    {
        if i > 0 {
            out.append(", ");
        }
        let v = &values[i];
        let number = decimal_string(v);
        out.append(number.as_str());
        if panicked {
            match short_string(v) {
                Some(s) => {
                    out.append(" ('");
                    out.append(s.as_str());
                    out.append("')");
                },
                None => {},
            }
        }
        assert(out@ =~= start + joined_values(values@, (i + 1) as nat, panicked));
        i = i + 1;
    }
    out.append("]");
    out
}

} // verus!
