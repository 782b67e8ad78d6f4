//! The outcome of looking a module name up below a module root.
use crate::module_name::MODULE_EXTENSION;
use crate::text::{chars_of, concat2, concat3};
use std::path::PathBuf;
use vstd::prelude::*;

verus! {

/// The result of a lookup.
#[derive(Debug, Clone, PartialEq, Eq)]
pub enum Lookup {
    /// The expected path exists and is a file.
    Found(PathBuf),
    /// Not found: the path that was tried and the teaching clues.
    Missing(MissingModule),
}

/// What is known of a module that was not found (rendered into the
/// `import-not-found` diagnostic).
#[derive(Debug, Clone, PartialEq, Eq)]
pub struct MissingModule {
    pub module: String,
    /// The expected path (`<root>/Foo/Bar.sokonanoda`).
    pub expected: PathBuf,
    /// A file of the same name in another letter case.
    pub case_mismatch: Option<PathBuf>,
    /// Files of the same directory named `<last component>-…` (at most 3).
    pub dash_candidates: Vec<PathBuf>,
}

/// `c` with an ASCII capital made small.
pub open spec fn ascii_lower(c: char) -> char {
    if 'A' <= c && c <= 'Z' {
        (((c as u8) + 32) as u8) as char
    } else {
        c
    }
}

/// `a` and `b` are equal but for the case of ASCII letters.
pub open spec fn same_ignoring_case(a: Seq<char>, b: Seq<char>) -> bool {
    a.len() == b.len() && forall|i: int| 0 <= i < a.len() ==> ascii_lower(#[trigger] a[i]) == ascii_lower(b[i])
}

/// The file name of module component `component`: the component itself for
/// a directory, with the module extension for the last one.
pub open spec fn entry_name(component: Seq<char>, last: bool) -> Seq<char> {
    if last {
        component + "."@ + MODULE_EXTENSION@
    } else {
        component
    }
}

/// A directory entry named `file_name` is the one for `component` (the
/// last component names a module file, the others directories).
pub fn entry_matches(file_name: &str, component: &str, last: bool) -> (r: bool)
    ensures
        r == (file_name@ == entry_name(component@, last)),
{
    let wanted = if last {
        concat3(component, ".", MODULE_EXTENSION)
    } else {
        concat2(component, "")
    };
    proof {
        assert(component@ + ""@ =~= component@) by {
            reveal_strlit("");
        }
    }
    crate::text::str_eq(file_name, wanted.as_str())
}

fn lower(c: char) -> (r: char)
    ensures
        r == ascii_lower(c),
{
    if 'A' <= c && c <= 'Z' {
        ((c as u8) + 32) as char
    } else {
        c
    }
}

/// `a` and `b` are equal but for the case of ASCII letters.
pub fn equal_ignoring_case(a: &str, b: &str) -> (r: bool)
    ensures
        r == same_ignoring_case(a@, b@),
{
    let x = chars_of(a);
    let y = chars_of(b);
    if x.len() != y.len() {
        return false;
    }
    let mut i: usize = 0;
    while i < x.len()
        invariant
            x@ == a@,
            y@ == b@,
            x@.len() == y@.len(),
            i <= x@.len(),
            forall|k: int| 0 <= k < i ==> ascii_lower(#[trigger] x@[k]) == ascii_lower(y@[k]),
        decreases x.len() - i,
    {
        if lower(x[i]) != lower(y[i]) {
            return false;
        }
        i = i + 1;
    }
    true
}

/// A directory entry named `file_name` is the one for `component` but for
/// the case of ASCII letters (the extension written as is).
pub fn entry_matches_ignoring_case(file_name: &str, component: &str, last: bool) -> (r: bool)
    ensures
        r == if last {
            let suffix = "."@ + MODULE_EXTENSION@;
            file_name@.len() >= suffix.len() && file_name@.skip(file_name@.len() - suffix.len()) == suffix
                && same_ignoring_case(file_name@.take(file_name@.len() - suffix.len()), component@)
        } else {
            same_ignoring_case(file_name@, component@)
        },
{
    if !last {
        return equal_ignoring_case(file_name, component);
    }
    let suffix = concat2(".", MODULE_EXTENSION);
    let f = chars_of(file_name);
    let sx = chars_of(suffix.as_str());
    if f.len() < sx.len() {
        return false;
    }
    let cut = f.len() - sx.len();
    let mut i: usize = 0;
    while i < sx.len()
        invariant
            f@ == file_name@,
            last,
            sx@ == suffix@,
            suffix@ == "."@ + MODULE_EXTENSION@,
            cut + sx@.len() == f@.len(),
            i <= sx@.len(),
            forall|k: int| 0 <= k < i ==> f@[cut + k] == sx@[k],
            f@.len() == f.len(),
        decreases sx.len() - i,
    {
        if f[cut + i] != sx[i] {
            proof {
                assert(f@.skip(cut as int)[i as int] != sx@[i as int]);
                assert(f@.skip(cut as int) != sx@);
            }
            return false;
        }
        i = i + 1;
    }
    proof {
        assert(f@.skip(cut as int) =~= sx@);
    }
    let stem = crate::text::string_from_chars(vstd::slice::slice_subrange(f.as_slice(), 0, cut));
    proof {
        assert(stem@ =~= file_name@.take(cut as int));
    }
    equal_ignoring_case(stem.as_str(), component)
}

/// A module file named `file_name` in the expected directory is a `-`
/// candidate for a module whose last component is `last_component`: it has
/// the module extension and its stem starts with `<last component>-`.
pub fn is_dash_candidate(file_name: &str, last_component: &str) -> (r: bool)
    ensures
        r == {
            let suffix = "."@ + MODULE_EXTENSION@;
            let prefix = last_component@ + "-"@;
            &&& file_name@.len() >= suffix.len() + prefix.len()
            &&& file_name@.skip(file_name@.len() - suffix.len()) == suffix
            &&& file_name@.take(prefix.len() as int) == prefix
        },
{
    let suffix = concat2(".", MODULE_EXTENSION);
    let prefix = concat2(last_component, "-");
    let f = chars_of(file_name);
    let sx = chars_of(suffix.as_str());
    let px = chars_of(prefix.as_str());
    if f.len() < sx.len() || f.len() - sx.len() < px.len() {
        return false;
    }
    let cut = f.len() - sx.len();
    let mut i: usize = 0;
    while i < sx.len()
        invariant
            f@ == file_name@,
            sx@ == suffix@,
            suffix@ == "."@ + MODULE_EXTENSION@,
            cut + sx@.len() == f@.len(),
            i <= sx@.len(),
            forall|k: int| 0 <= k < i ==> f@[cut + k] == sx@[k],
            f@.len() == f.len(),
        decreases sx.len() - i,
    {
        if f[cut + i] != sx[i] {
            proof {
                assert(f@.skip(cut as int)[i as int] != sx@[i as int]);
                assert(f@.skip(cut as int) != sx@);
            }
            return false;
        }
        i = i + 1;
    }
    proof {
        assert(f@.skip(cut as int) =~= sx@);
    }
    let mut j: usize = 0;
    while j < px.len()
        invariant
            f@ == file_name@,
            px@ == prefix@,
            prefix@ == last_component@ + "-"@,
            suffix@ == "."@ + MODULE_EXTENSION@,
            sx@ == suffix@,
            px@.len() + sx@.len() <= f@.len(),
            f@.skip(cut as int) == sx@,
            cut + sx@.len() == f@.len(),
            j <= px@.len(),
            forall|k: int| 0 <= k < j ==> f@[k] == px@[k],
        decreases px.len() - j,
    {
        if f[j] != px[j] {
            proof {
                assert(f@.take(px@.len() as int)[j as int] != px@[j as int]);
                assert(f@.take(px@.len() as int) != px@);
            }
            return false;
        }
        j = j + 1;
    }
    proof {
        assert(f@.take(px@.len() as int) =~= px@);
    }
    true
}

} // verus!
