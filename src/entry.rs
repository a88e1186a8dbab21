//! Choosing the function of a program to run.
use crate::catalog::{occurs_at, occurs_at_exec};
use vstd::prelude::*;
use vstd::string::*;

verus! {

/// Which function to run.
#[derive(Debug, PartialEq, Eq)]
pub enum FunctionChoice {
    /// The executable at this index of the list.
    Executable(usize),
    /// The function of the whole program whose name ends with this suffix.
    BySuffix(String),
    /// No choice can be made; the message says why.
    Ambiguous(String),
}

/// `s` ends with `pat`.
pub open spec fn ends_with(s: Seq<char>, pat: Seq<char>) -> bool {
    pat.len() <= s.len() && occurs_at(s, pat, s.len() - pat.len())
}

/// The executable at `i` has a name that ends with `pat`.
pub open spec fn matches_at(exes: Seq<Option<String>>, i: int, pat: Seq<char>) -> bool {
    exes[i] is Some && ends_with(exes[i]->Some_0@, pat)
}

/// The names that the executables have, in order.
pub open spec fn known_names(exes: Seq<Option<String>>) -> Seq<Seq<char>>
    decreases exes.len(),
{
    if exes.len() == 0 {
        seq![]
    } else {
        let rest = known_names(exes.drop_last());
        match exes.last() {
            Some(n) => rest.push(n@),
            None => rest,
        }
    }
}

/// The first `n` names, separated by "`, `".
pub open spec fn joined_names(names: Seq<Seq<char>>, n: nat) -> Seq<char>
    decreases n,
{
    if n == 0 {
        seq![]
    } else if n == 1 {
        names[0]
    } else {
        joined_names(names, (n - 1) as nat) + "`, `"@ + names[n - 1]
    }
}

/// Why several executables leave the choice open.
pub open spec fn ambiguity_message(names: Seq<Seq<char>>) -> Seq<char> {
    if names.len() == 0 {
        "multiple executable functions found\nplease only mark a single function as executable or enable debug ids and choose function by name"@
    } else {
        "multiple executable functions found\nplease choose a function to run from the list:\n`"@
            + joined_names(names, names.len()) + "`"@
    }
}

/// The function to run, given the names of the program's executables and the
/// name asked for: with a name, the first executable whose name ends with
/// `::name`, else any function with that suffix; without one, the only
/// executable, or `::main` when there is none.
pub open spec fn choice_spec(exes: Seq<Option<String>>, name: Option<Seq<char>>) -> (
    Option<int>,
    Seq<char>,
    bool,
) {
    match name {
        Some(n) => {
            let pat = "::"@ + n;
            if exists|i: int| 0 <= i < exes.len() && matches_at(exes, i, pat) {
                let i = choose|i: int|
                    0 <= i < exes.len() && matches_at(exes, i, pat) && forall|j: int|
                        0 <= j < i ==> !matches_at(exes, j, pat);
                (Some(i), seq![], false)
            } else {
                (None, pat, false)
            }
        },
        None => if exes.len() == 1 {
            (Some(0), seq![], false)
        } else if exes.len() > 1 {
            (None, ambiguity_message(known_names(exes)), true)
        } else {
            (None, "::main"@, false)
        },
    }
}

/// The view of a choice: the executable index, the suffix or message, and
/// whether it is ambiguous.
pub open spec fn choice_view(c: FunctionChoice) -> (Option<int>, Seq<char>, bool) {
    match c {
        FunctionChoice::Executable(i) => (Some(i as int), seq![], false),
        FunctionChoice::BySuffix(s) => (None, s@, false),
        FunctionChoice::Ambiguous(m) => (None, m@, true),
    }
}

fn ends_with_exec(s: &str, pat: &str) -> (r: bool)
    ensures
        r == ends_with(s@, pat@),
{
    let n = s.unicode_len();
    let m = pat.unicode_len();
    m <= n && occurs_at_exec(s, pat, n - m)
}

fn names_of(exes: &Vec<Option<String>>) -> (r: Vec<String>)
    ensures
        r@.map_values(|s: String| s@) == known_names(exes@),
{
    let mut out: Vec<String> = Vec::new();
    let mut i: usize = 0;
    assert(exes@.take(0) =~= seq![]);
    assert(out@.map_values(|s: String| s@) =~= seq![]);
    while i < exes.len()
        invariant
            i <= exes.len(),
            out@.map_values(|s: String| s@) == known_names(exes@.take(i as int)),
        decreases exes.len() - i,
    {
        assert(exes@.take(i + 1).drop_last() =~= exes@.take(i as int));
        match &exes[i] {
            Some(n) => {
                out.push(n.clone());
                assert(out@.map_values(|s: String| s@) =~= known_names(exes@.take(i as int)).push(
                    n@,
                ));
            },
            None => {},
        }
        i = i + 1;
    }
    assert(exes@.take(i as int) =~= exes@);
    out
}

fn message_for(names: &Vec<String>) -> (r: String)
    ensures
        r@ == ambiguity_message(names@.map_values(|s: String| s@)),
{
    let ghost ns = names@.map_values(|s: String| s@);
    if names.len() == 0 {
        return String::from_str(
            "multiple executable functions found\nplease only mark a single function as executable or enable debug ids and choose function by name",
        );
    }
    let mut out = String::from_str(
        "multiple executable functions found\nplease choose a function to run from the list:\n`",
    );
    let ghost start = out@;
    let mut i: usize = 0;
    while i < names.len()
        invariant
            i <= names.len(),
            ns == names@.map_values(|s: String| s@),
            out@ == start + joined_names(ns, i as nat),
        decreases names.len() - i,
    {
        if i > 0 {
            out.append("`, `");
        }
        out.append(names[i].as_str());
        assert(out@ =~= start + joined_names(ns, (i + 1) as nat));
        i = i + 1;
    }
    out.append("`");
    out
}

/// The first executable whose name ends with `pat`.
fn find_executable(executables: &Vec<Option<String>>, pat: &str) -> (r: Option<usize>)
    ensures
        match r {
            Some(i) => i < executables@.len() && matches_at(executables@, i as int, pat@) && forall|
                j: int,
            | 0 <= j < i ==> !matches_at(executables@, j, pat@),
            None => forall|j: int|
                0 <= j < executables@.len() ==> !matches_at(executables@, j, pat@),
        },
{
    let mut i: usize = 0;
    while i < executables.len()
        invariant
            i <= executables.len(),
            forall|j: int| 0 <= j < i ==> !matches_at(executables@, j, pat@),
        decreases executables.len() - i,
    {
        let found = match &executables[i] {
            Some(d) => ends_with_exec(d.as_str(), pat),
            None => false,
        };
        if found {
            return Some(i);
        }
        i = i + 1;
    }
    None
}

/// Chooses the function to run from the names of the program's executables
/// and the name asked for, if any.
pub fn select_function(executables: &Vec<Option<String>>, name: Option<&str>) -> (r: FunctionChoice)
    ensures
        choice_view(r) == choice_spec(
            executables@,
            match name {
                Some(n) => Some(n@),
                None => None,
            },
        ),
{
    match name {
        Some(n) => {
            let mut pat = String::from_str("::");
            pat.append(n);
            match find_executable(executables, pat.as_str()) {
                Some(i) => {
                    proof {
                        let pv = pat@;
                        let c = choose|k: int|
                            0 <= k < executables@.len() && matches_at(executables@, k, pv) && forall|
                                j: int,
                            | 0 <= j < k ==> !matches_at(executables@, j, pv);
                        assert(c == i) by {
                            if c < i {
                                assert(!matches_at(executables@, c, pv));
                            } else if c > i {
                                assert(!matches_at(executables@, i as int, pv));
                            }
                        }
                    }
                    FunctionChoice::Executable(i)
                },
                None => FunctionChoice::BySuffix(pat),
            }
        },
        None => {
            if executables.len() == 1 {
                FunctionChoice::Executable(0)
            } else if executables.len() > 1 {
                FunctionChoice::Ambiguous(message_for(&names_of(executables)))
            } else {
                FunctionChoice::BySuffix(String::from_str("::main"))
            }
        },
    }
}

} // verus!
