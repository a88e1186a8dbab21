//! Reading a program's type catalog: which declared types are custom
//! composites, and what their fields are.
use vstd::prelude::*;
use vstd::string::*;

verus! {

/// `s` holds `pat` starting at position `i`.
pub open spec fn occurs_at(s: Seq<char>, pat: Seq<char>, i: int) -> bool {
    0 <= i && i + pat.len() <= s.len() && s.subrange(i, i + pat.len()) == pat
}

/// `s` holds `pat` somewhere.
pub open spec fn contains(s: Seq<char>, pat: Seq<char>) -> bool {
    exists|i: int| occurs_at(s, pat, i)
}

/// A custom type: a qualified name outside the `core` namespace that is not
/// a tuple.
pub open spec fn custom_type(name: Seq<char>) -> bool {
    contains(name, "::"@) && !occurs_at(name, "core::"@, 0) && !occurs_at(name, "Tuple<"@, 0)
}

/// The last `::`-delimited segment of `s[seg..]`, scanning for separators
/// left to right from `i`.
pub open spec fn last_segment_from(s: Seq<char>, i: int, seg: int) -> Seq<char>
    decreases s.len() - i,
{
    if i + 2 > s.len() || i < 0 {
        s.subrange(seg, s.len() as int)
    } else if s[i] == ':' && s[i + 1] == ':' {
        last_segment_from(s, i + 2, i + 2)
    } else {
        last_segment_from(s, i + 1, seg)
    }
}

/// The last `::`-delimited segment of a qualified name.
pub open spec fn short_name(s: Seq<char>) -> Seq<char> {
    last_segment_from(s, 0, 0)
}

/// Whether `s` holds `pat` at position `i`.
pub(crate) fn occurs_at_exec(s: &str, pat: &str, i: usize) -> (r: bool)
    ensures
        r == occurs_at(s@, pat@, i as int),
{
    let n = s.unicode_len();
    let m = pat.unicode_len();
    if i > n || m > n - i {
        return false;
    }
    let mut k: usize = 0;
    while k < m
        invariant
            n == s@.len(),
            m == pat@.len(),
            i + m <= n,
            k <= m,
            s@.subrange(i as int, i + k) == pat@.take(k as int),
        decreases m - k,
    {
        if s.get_char(i + k) != pat.get_char(k) {
            assert(s@.subrange(i as int, i + m)[k as int] != pat@[k as int]);
            return false;
        }
        assert(s@.subrange(i as int, i + k + 1) =~= pat@.take(k + 1));
        k = k + 1;
    }
    assert(pat@.take(m as int) =~= pat@);
    true
}

/// Whether a qualified type name names a custom type.
pub fn is_custom_type(name: &str) -> (r: bool)
    ensures
        r == custom_type(name@),
{
    let sep = "::";
    let n = name.unicode_len();
    let mut found = false;
    let mut i: usize = 0;
    while i < n && !found
        invariant
            n == name@.len(),
            i <= n,
            found ==> contains(name@, sep@),
            !found ==> forall|j: int| 0 <= j < i ==> !occurs_at(name@, sep@, j),
        decreases n - i + (if found { 0int } else { 1int }),
    {
        if occurs_at_exec(name, sep, i) {
            found = true;
        } else {
            i = i + 1;
        }
    }
    proof {
        reveal_strlit("::");
        if !found {
            assert forall|j: int| !occurs_at(name@, sep@, j) by {
                if occurs_at(name@, sep@, j) {
                    assert(j < n);
                }
            }
        }
    }
    found && !occurs_at_exec(name, "core::", 0) && !occurs_at_exec(name, "Tuple<", 0)
}

/// The last `::`-delimited segment of a qualified name.
pub fn extract_type_name(full_name: &str) -> (r: String)
    ensures
        r@ == short_name(full_name@),
{
    let n = full_name.unicode_len();
    let mut seg: usize = 0;
    let mut i: usize = 0;
    while n >= 2 && i <= n - 2
        invariant
            n == full_name@.len(),
            seg <= n,
            i <= n,
            last_segment_from(full_name@, i as int, seg as int) == short_name(full_name@),
        decreases n - i,
    {
        if full_name.get_char(i) == ':' && full_name.get_char(i + 1) == ':' {
            i = i + 2;
            seg = i;
        } else {
            i = i + 1;
        }
    }
    String::from_str(full_name.substring_char(seg, n))
}

/// A generic argument of a declaration: a field type, by its qualified name
/// when the record gives one, or anything else.
#[derive(Clone, Debug)]
pub enum GenericArg {
    Type(Option<String>),
    Other,
}

/// One record of a type catalog, as read; a required part that the record
/// lacks is `None`.
#[derive(Clone, Debug)]
pub struct TypeDeclaration {
    pub id: Option<u64>,
    pub debug_name: Option<String>,
    pub generic_id: Option<String>,
    pub generic_args: Vec<GenericArg>,
}

/// A custom type recovered from the catalog: its short name, its kind, and
/// the short names of its field types in order.
#[derive(Clone, Debug)]
pub struct TypeInfo {
    pub name: String,
    pub kind: String,
    pub fields: Vec<String>,
}

/// A custom type with the id of its declaration.
#[derive(Clone, Debug)]
pub struct TypeEntry {
    pub id: u64,
    pub info: TypeInfo,
}

/// Why a catalog could not be read.
#[derive(Clone, Copy, Debug, PartialEq, Eq, Structural)]
pub enum CatalogError {
    /// The record at `index` lacks a required part.
    MalformedCatalog { index: usize },
}

impl View for TypeInfo {
    type V = (Seq<char>, Seq<char>, Seq<Seq<char>>);

    open spec fn view(&self) -> (Seq<char>, Seq<char>, Seq<Seq<char>>) {
        (self.name@, self.kind@, self.fields@.map_values(|f: String| f@))
    }
}

impl View for TypeEntry {
    type V = (u64, (Seq<char>, Seq<char>, Seq<Seq<char>>));

    open spec fn view(&self) -> (u64, (Seq<char>, Seq<char>, Seq<Seq<char>>)) {
        (self.id, self.info@)
    }
}

/// The short names of the field types among `args`; `None` when a field
/// reference lacks its name.
pub open spec fn fields_of(args: Seq<GenericArg>) -> Option<Seq<Seq<char>>>
    decreases args.len(),
{
    if args.len() == 0 {
        Some(seq![])
    } else {
        match fields_of(args.drop_last()) {
            None => None,
            Some(fs) => match args.last() {
                GenericArg::Type(Some(n)) => Some(fs.push(short_name(n@))),
                GenericArg::Type(None) => None,
                GenericArg::Other => Some(fs),
            },
        }
    }
}

/// What one record contributes: `None` when it is malformed, `Some(None)`
/// when it is not a custom type, else its entry.
pub open spec fn entry_of(d: TypeDeclaration) -> Option<
    Option<(u64, (Seq<char>, Seq<char>, Seq<Seq<char>>))>,
> {
    match (d.id, d.debug_name) {
        (Some(id), Some(name)) => if !custom_type(name@) {
            Some(None)
        } else {
            match (d.generic_id, fields_of(d.generic_args@)) {
                (Some(k), Some(fs)) => Some(Some((id, (short_name(name@), k@, fs)))),
                _ => None,
            }
        },
        _ => None,
    }
}

/// `es` with the entry `e`: it replaces the entry with the same id, in its
/// place, or else is added at the end.
pub open spec fn upsert(
    es: Seq<(u64, (Seq<char>, Seq<char>, Seq<Seq<char>>))>,
    e: (u64, (Seq<char>, Seq<char>, Seq<Seq<char>>)),
) -> Seq<(u64, (Seq<char>, Seq<char>, Seq<Seq<char>>))> {
    if exists|i: int| 0 <= i < es.len() && es[i].0 == e.0 {
        es.update(choose|i: int| 0 <= i < es.len() && es[i].0 == e.0, e)
    } else {
        es.push(e)
    }
}

/// No two entries share an id.
pub open spec fn ids_unique(es: Seq<(u64, (Seq<char>, Seq<char>, Seq<Seq<char>>))>) -> bool {
    forall|i: int, j: int| 0 <= i < j < es.len() ==> es[i].0 != es[j].0
}

/// The entries of the custom types of a catalog, in the order in which
/// their ids first appear, each from the last record with that id; or the
/// first malformed record.
pub open spec fn extract_spec(ds: Seq<TypeDeclaration>) -> Result<
    Seq<(u64, (Seq<char>, Seq<char>, Seq<Seq<char>>))>,
    CatalogError,
>
    decreases ds.len(),
{
    if ds.len() == 0 {
        Ok(seq![])
    } else {
        match extract_spec(ds.drop_last()) {
            Err(e) => Err(e),
            Ok(es) => match entry_of(ds.last()) {
                None => Err(CatalogError::MalformedCatalog { index: (ds.len() - 1) as usize }),
                Some(None) => Ok(es),
                Some(Some(e)) => Ok(upsert(es, e)),
            },
        }
    }
}

proof fn lemma_extract_fail(ds: Seq<TypeDeclaration>, k: int)
    requires
        0 <= k <= ds.len(),
        extract_spec(ds.take(k)) is Err,
    ensures
        extract_spec(ds) == extract_spec(ds.take(k)),
    decreases ds.len() - k,
{
    if k < ds.len() {
        assert(ds.take(k + 1).drop_last() =~= ds.take(k));
        lemma_extract_fail(ds, k + 1);
    } else {
        assert(ds.take(k) =~= ds);
    }
}

/// The short names of the field types among `args`.
fn collect_fields(args: &Vec<GenericArg>) -> (r: Option<Vec<String>>)
    ensures
        match r {
            Some(v) => fields_of(args@) == Some(v@.map_values(|f: String| f@)),
            None => fields_of(args@) is None,
        },
{
    let mut out: Vec<String> = Vec::new();
    let mut i: usize = 0;
    while i < args.len()
        invariant
            i <= args.len(),
            fields_of(args@.take(i as int)) == Some(out@.map_values(|f: String| f@)),
        decreases args.len() - i,
    {
        assert(args@.take(i + 1).drop_last() =~= args@.take(i as int));
        match &args[i] {
            GenericArg::Type(Some(n)) => {
                out.push(extract_type_name(n.as_str()));
                assert(out@.map_values(|f: String| f@) =~= fields_of(args@.take(i as int))->Some_0.push(
                    short_name(n@),
                ));
            },
            GenericArg::Type(None) => {
                proof {
                    lemma_fields_fail(args@, i + 1);
                }
                return None;
            },
            GenericArg::Other => {},
        }
        i = i + 1;
    }
    assert(args@.take(i as int) =~= args@);
    Some(out)
}

proof fn lemma_fields_fail(args: Seq<GenericArg>, k: int)
    requires
        0 <= k <= args.len(),
        fields_of(args.take(k)) is None,
    ensures
        fields_of(args) is None,
    decreases args.len() - k,
{
    if k < args.len() {
        assert(args.take(k + 1).drop_last() =~= args.take(k));
        lemma_fields_fail(args, k + 1);
    } else {
        assert(args.take(k) =~= args);
    }
}

/// Puts `e` into `out`, replacing the entry with the same id.
fn put_entry(out: &mut Vec<TypeEntry>, e: TypeEntry)
    requires
        ids_unique(old(out)@.map_values(|x: TypeEntry| x@)),
    ensures
        final(out)@.map_values(|x: TypeEntry| x@) == upsert(
            old(out)@.map_values(|x: TypeEntry| x@),
            e@,
        ),
        ids_unique(final(out)@.map_values(|x: TypeEntry| x@)),
{
    let ghost es = out@.map_values(|x: TypeEntry| x@);
    let mut j: usize = 0;
    while j < out.len()
        invariant
            j <= out.len(),
            es == out@.map_values(|x: TypeEntry| x@),
            es == old(out)@.map_values(|x: TypeEntry| x@),
            ids_unique(es),
            forall|k: int| 0 <= k < j ==> es[k].0 != e.id,
        decreases out.len() - j,
    {
        assert(es[j as int] == out@[j as int]@);
        if out[j].id == e.id {
            proof {
                let c = choose|k: int| 0 <= k < es.len() && es[k].0 == e@.0;
                assert(es[j as int].0 == e@.0);
                assert(c == j);
            }
            out.set(j, e);
            assert(out@.map_values(|x: TypeEntry| x@) =~= es.update(j as int, e@));
            return;
        }
        j = j + 1;
    }
    out.push(e);
    assert(out@.map_values(|x: TypeEntry| x@) =~= es.push(e@));
}

/// Reads a catalog: one entry per custom type id, in the order in which the
/// ids first appear, from the last record with that id, with short names
/// for the type and its fields. A record without an id or
/// a name, or a custom one without a kind or with a nameless field
/// reference, makes the whole catalog malformed.
pub fn extract_types(decls: &Vec<TypeDeclaration>) -> (r: Result<Vec<TypeEntry>, CatalogError>)
    ensures
        match r {
            Ok(v) => extract_spec(decls@) == Ok::<_, CatalogError>(v@.map_values(|e: TypeEntry| e@)),
            Err(e) => extract_spec(decls@) == Err::<Seq<(u64, (Seq<char>, Seq<char>, Seq<Seq<char>>))>, CatalogError>(e),
        },
{
    let mut out: Vec<TypeEntry> = Vec::new();
    let mut i: usize = 0;
    assert(decls@.take(0) =~= seq![]);
    assert(out@.map_values(|e: TypeEntry| e@) =~= seq![]);
    while i < decls.len()
        invariant
            i <= decls.len(),
            extract_spec(decls@.take(i as int)) == Ok::<_, CatalogError>(out@.map_values(|e: TypeEntry| e@)),
            ids_unique(out@.map_values(|e: TypeEntry| e@)),
        decreases decls.len() - i,
    {
        assert(decls@.take(i + 1).drop_last() =~= decls@.take(i as int));
        let d = &decls[i];
        let ok = match (&d.id, &d.debug_name) {
            (Some(id), Some(name)) => {
                if !is_custom_type(name.as_str()) {
                    true
                } else {
                    match (&d.generic_id, collect_fields(&d.generic_args)) {
                        (Some(kind), Some(fields)) => {
                            let info = TypeInfo {
                                name: extract_type_name(name.as_str()),
                                kind: kind.clone(),
                                fields,
                            };
                            put_entry(&mut out, TypeEntry { id: *id, info });
                            true
                        },
                        _ => false,
                    }
                }
            },
            _ => false,
        };
        if !ok {
            proof {
                lemma_extract_fail(decls@, i + 1);
            }
            return Err(CatalogError::MalformedCatalog { index: i });
        }
        i = i + 1;
    }
    assert(decls@.take(i as int) =~= decls@);
    Ok(out)
}

} // verus!
