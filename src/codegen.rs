//! Generating type definitions, and conversions from field-element streams,
//! for the custom types of a catalog.
use crate::catalog::{TypeEntry, TypeInfo};
use crate::text::{dec_text, digit_text};
use vstd::prelude::*;
use vstd::string::*;

verus! {

/// The field declaration for field `i` of type `f`.
pub open spec fn field_line(i: nat, f: Seq<char>) -> Seq<char> {
    "    pub field_"@ + dec_text(i) + ": "@ + f + ",\n"@
}

/// The declarations of the first `n` fields.
pub open spec fn field_lines(fs: Seq<Seq<char>>, n: nat) -> Seq<char>
    decreases n,
{
    if n == 0 {
        seq![]
    } else {
        field_lines(fs, (n - 1) as nat) + field_line((n - 1) as nat, fs[n - 1])
    }
}

/// The conversion of element `i` into field `i` of type `f` of the struct
/// `name`; an element that does not fit is reported with the value and the
/// field's type.
pub open spec fn conv_line(name: Seq<char>, i: nat, f: Seq<char>) -> Seq<char> {
    "            field_"@ + dec_text(i) + ": vec["@ + dec_text(i)
        + "].try_into().map_err(|_| format!(\""@ + name + ".field_"@ + dec_text(i)
        + ": value {} does not fit "@ + f + "\", vec["@ + dec_text(i) + "]))?,\n"@
}

/// The conversions of the first `n` fields.
pub open spec fn conv_lines(name: Seq<char>, fs: Seq<Seq<char>>, n: nat) -> Seq<char>
    decreases n,
{
    if n == 0 {
        seq![]
    } else {
        conv_lines(name, fs, (n - 1) as nat) + conv_line(name, (n - 1) as nat, fs[n - 1])
    }
}

/// The variant `i`, wrapping type `f`.
pub open spec fn variant_line(i: nat, f: Seq<char>) -> Seq<char> {
    "    Variant"@ + dec_text(i) + "("@ + f + "),\n"@
}

/// The first `n` variants.
pub open spec fn variant_lines(fs: Seq<Seq<char>>, n: nat) -> Seq<char>
    decreases n,
{
    if n == 0 {
        seq![]
    } else {
        variant_lines(fs, (n - 1) as nat) + variant_line((n - 1) as nat, fs[n - 1])
    }
}

/// A struct with one field per entry of `fs`, and its conversion from a
/// stream that reads one element per field; a shorter stream is reported
/// with the type's name and the expected and actual counts, an element that
/// does not fit with its value and the field's type.
pub open spec fn struct_text(name: Seq<char>, fs: Seq<Seq<char>>) -> Seq<char> {
    "#[derive(Debug, PartialEq, Eq)]\npub struct "@ + name + " {\n"@ + field_lines(fs, fs.len())
        + "}\n\nimpl TryFrom<Vec<Felt>> for "@ + name
        + " {\n    type Error = String;\n    fn try_from(vec: Vec<Felt>) -> Result<Self, String> {\n        if vec.len() < "@
        + dec_text(fs.len()) + " {\n            return Err(format!(\""@ + name + ": expected "@
        + dec_text(fs.len()) + " values, got {}\", vec.len()));\n        }\n        Ok(Self {\n"@
        + conv_lines(name, fs, fs.len()) + "        })\n    }\n}\n\n"@
}

/// A tagged union with one variant per entry of `fs`, in order.
pub open spec fn enum_text(name: Seq<char>, fs: Seq<Seq<char>>) -> Seq<char> {
    "#[derive(Debug)]\npub enum "@ + name + " {\n"@ + variant_lines(fs, fs.len()) + "}\n\n"@
}

/// An alias from the name to the raw kind.
pub open spec fn alias_text(name: Seq<char>, kind: Seq<char>) -> Seq<char> {
    "type "@ + name + " = "@ + kind + ";\n\n"@
}

/// The definition generated for one custom type.
pub open spec fn type_text(info: (Seq<char>, Seq<char>, Seq<Seq<char>>)) -> Seq<char> {
    if info.1 == "Struct"@ {
        struct_text(info.0, info.2)
    } else if info.1 == "Enum"@ {
        enum_text(info.0, info.2)
    } else {
        alias_text(info.0, info.1)
    }
}

/// The definitions of the first `n` entries.
pub open spec fn types_text(es: Seq<(u64, (Seq<char>, Seq<char>, Seq<Seq<char>>))>, n: nat) -> Seq<
    char,
>
    decreases n,
{
    if n == 0 {
        seq![]
    } else {
        types_text(es, (n - 1) as nat) + type_text(es[n - 1].1)
    }
}

/// The whole generated source: the import of the field-element type, then
/// one definition per entry, in order.
pub open spec fn generated_text(es: Seq<(u64, (Seq<char>, Seq<char>, Seq<Seq<char>>))>) -> Seq<
    char,
> {
    "use starknet_types_core::felt::Felt;\n"@ + types_text(es, es.len())
}

fn digit_str(d: usize) -> (r: &'static str)
    requires
        d < 10,
    ensures
        r@ == digit_text(d as nat),
{
    if d == 0 {
        "0"
    } else if d == 1 {
        "1"
    } else if d == 2 {
        "2"
    } else if d == 3 {
        "3"
    } else if d == 4 {
        "4"
    } else if d == 5 {
        "5"
    } else if d == 6 {
        "6"
    } else if d == 7 {
        "7"
    } else if d == 8 {
        "8"
    } else {
        "9"
    }
}

/// Appends the decimal numeral of `n`.
fn push_decimal(out: &mut String, n: usize)
    ensures
        final(out)@ == old(out)@ + dec_text(n as nat),
    decreases n,
{
    if n >= 10 {
        push_decimal(out, n / 10);
    }
    out.append(digit_str(n % 10));
    assert(final(out)@ =~= old(out)@ + dec_text(n as nat));
}

fn push_field_lines(out: &mut String, fields: &Vec<String>)
    ensures
        final(out)@ == old(out)@ + field_lines(
            fields@.map_values(|f: String| f@),
            fields.len() as nat,
        ),
{
    let ghost fs = fields@.map_values(|f: String| f@);
    let ghost start = out@;
    let mut i: usize = 0;
    while i < fields.len()
        invariant
            i <= fields.len(),
            fs == fields@.map_values(|f: String| f@),
            out@ == start + field_lines(fs, i as nat),
        decreases fields.len() - i,
    {
        out.append("    pub field_");
        push_decimal(out, i);
        out.append(": ");
        out.append(fields[i].as_str());
        out.append(",\n");
        assert(out@ =~= start + field_lines(fs, (i + 1) as nat));
        i = i + 1;
    }
}

fn push_conv_lines(out: &mut String, name: &String, fields: &Vec<String>)
    ensures
        final(out)@ == old(out)@ + conv_lines(
            name@,
            fields@.map_values(|f: String| f@),
            fields.len() as nat,
        ),
{
    let ghost fs = fields@.map_values(|f: String| f@);
    let ghost start = out@;
    let mut i: usize = 0;
    while i < fields.len()
        invariant
            i <= fields.len(),
            fs == fields@.map_values(|f: String| f@),
            out@ == start + conv_lines(name@, fs, i as nat),
        decreases fields.len() - i,
    {
        out.append("            field_");
        push_decimal(out, i);
        out.append(": vec[");
        push_decimal(out, i);
        out.append("].try_into().map_err(|_| format!(\"");
        out.append(name.as_str());
        out.append(".field_");
        push_decimal(out, i);
        out.append(": value {} does not fit ");
        out.append(fields[i].as_str());
        out.append("\", vec[");
        push_decimal(out, i);
        out.append("]))?,\n");
        assert(out@ =~= start + conv_lines(name@, fs, (i + 1) as nat));
        i = i + 1;
    }
}

fn push_variant_lines(out: &mut String, fields: &Vec<String>)
    ensures
        final(out)@ == old(out)@ + variant_lines(
            fields@.map_values(|f: String| f@),
            fields.len() as nat,
        ),
{
    let ghost fs = fields@.map_values(|f: String| f@);
    let ghost start = out@;
    let mut i: usize = 0;
    while i < fields.len()
        invariant
            i <= fields.len(),
            fs == fields@.map_values(|f: String| f@),
            out@ == start + variant_lines(fs, i as nat),
        decreases fields.len() - i,
    {
        out.append("    Variant");
        push_decimal(out, i);
        out.append("(");
        out.append(fields[i].as_str());
        out.append("),\n");
        assert(out@ =~= start + variant_lines(fs, (i + 1) as nat));
        i = i + 1;
    }
}

/// Appends the definition generated for one custom type.
fn push_type(out: &mut String, info: &TypeInfo)
    ensures
        final(out)@ == old(out)@ + type_text(info@),
{
    let ghost start = out@;
    let ghost fs = info.fields@.map_values(|f: String| f@);
    if info.kind == String::from_str("Struct") {
        out.append("#[derive(Debug, PartialEq, Eq)]\npub struct ");
        out.append(info.name.as_str());
        out.append(" {\n");
        push_field_lines(out, &info.fields);
        out.append("}\n\nimpl TryFrom<Vec<Felt>> for ");
        out.append(info.name.as_str());
        out.append(
            " {\n    type Error = String;\n    fn try_from(vec: Vec<Felt>) -> Result<Self, String> {\n        if vec.len() < ",
        );
        push_decimal(out, info.fields.len());
        out.append(" {\n            return Err(format!(\"");
        out.append(info.name.as_str());
        out.append(": expected ");
        push_decimal(out, info.fields.len());
        out.append(" values, got {}\", vec.len()));\n        }\n        Ok(Self {\n");
        push_conv_lines(out, &info.name, &info.fields);
        out.append("        })\n    }\n}\n\n");
        assert(out@ =~= start + struct_text(info.name@, fs));
    } else if info.kind == String::from_str("Enum") {
        out.append("#[derive(Debug)]\npub enum ");
        out.append(info.name.as_str());
        out.append(" {\n");
        push_variant_lines(out, &info.fields);
        out.append("}\n\n");
        assert(out@ =~= start + enum_text(info.name@, fs));
    } else {
        out.append("type ");
        out.append(info.name.as_str());
        out.append(" = ");
        out.append(info.kind.as_str());
        out.append(";\n\n");
        assert(out@ =~= start + alias_text(info.name@, info.kind@));
    }
}

/// Generates the source of the type definitions for the given custom types,
/// in order: a struct with its conversion from a field-element stream for
/// each `Struct`, a tagged union for each `Enum`, and an alias otherwise.
pub fn generate_types(types: &Vec<TypeEntry>) -> (r: String)
    ensures
        r@ == generated_text(types@.map_values(|e: TypeEntry| e@)),
{
    let ghost es = types@.map_values(|e: TypeEntry| e@);
    let mut out = String::from_str("use starknet_types_core::felt::Felt;\n");
    let ghost start = out@;
    let mut i: usize = 0;
    while i < types.len()
        invariant
            i <= types.len(),
            es == types@.map_values(|e: TypeEntry| e@),
            start == "use starknet_types_core::felt::Felt;\n"@,
            out@ == start + types_text(es, i as nat),
        decreases types.len() - i,
    {
        push_type(&mut out, &types[i].info);
        assert(out@ =~= start + types_text(es, (i + 1) as nat));
        i = i + 1;
    }
    out
}

} // verus!
