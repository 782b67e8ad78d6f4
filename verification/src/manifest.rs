//! The project manifest `sokonanoda.toml`: its presence marks the project
//! root; every field is optional.
use crate::text::{chars_of, concat5, parse_u64, spec_parse_unsigned, string_from_chars};
use std::path::{Path, PathBuf};
use vstd::prelude::*;

verus! {

/// The manifest file name.
pub const MANIFEST_FILE: &'static str = "sokonanoda.toml";

/// The version of this toolchain, compared with a manifest's `requires`.
pub const VERSION: &'static str = "0.56.0";

#[verifier::external_type_specification]
#[verifier::external_body]
pub struct ExPath(Path);

/// A loaded manifest (an empty file is a valid project root too).
#[derive(Debug, Clone, Default, PartialEq, Eq)]
pub struct Manifest {
    /// The project name (metadata only).
    pub name: Option<String>,
    /// `requires`: the toolchain version the project expects (`major.minor` must match;
    /// a mismatch is only a warning).
    pub required_version: Option<String>,
    /// The module root, relative to the manifest's directory (default `.`).
    pub src: Option<String>,
}

/// Why a manifest could not be loaded (with a teaching hint).
#[derive(Debug, Clone, PartialEq, Eq)]
pub struct ManifestError {
    pub path: PathBuf,
    pub message: String,
    pub hint: String,
}

/// What `Path::parent` gives for the path `p` (as text, under the target's
/// path rules), as text.
pub uninterp spec fn parent_path(p: Seq<char>) -> Option<Seq<char>>;

/// What `Path::join` gives for the base `dir` and the path `rest` (as text),
/// as text.
pub uninterp spec fn joined_path(dir: Seq<char>, rest: Seq<char>) -> Seq<char>;

/// What `Path::is_absolute` answers for the path `s` (as text, under the
/// target's path rules).
pub uninterp spec fn absolute_path(s: Seq<char>) -> bool;

/// `Path::parent` on a path text, as text.
#[verifier::external_body]
fn path_parent(p: &str) -> (r: Option<String>)
    ensures
        r matches Some(t) ==> parent_path(p@) == Some(t@),
        r is None ==> parent_path(p@) is None,
{
    Path::new(p).parent().map(|dir| dir.to_string_lossy().into_owned())
}

/// `Path::join` on path texts, as text.
#[verifier::external_body]
fn path_join(dir: &str, rest: &str) -> (r: String)
    ensures
        r@ == joined_path(dir@, rest@),
{
    Path::new(dir).join(rest).to_string_lossy().into_owned()
}

/// `Path::to_path_buf`.
#[verifier::external_body]
fn path_to_owned(p: &Path) -> PathBuf {
    p.to_path_buf()
}

/// `Path::is_absolute` on a path text.
#[verifier::external_body]
fn path_is_absolute(s: &str) -> (r: bool)
    ensures
        r == absolute_path(s@),
{
    Path::new(s).is_absolute()
}

/// The manifest's directory (`.` when its path has none) as text.
pub open spec fn manifest_dir(manifest_path: Seq<char>) -> Seq<char> {
    match parent_path(manifest_path) {
        Some(d) => d,
        None => "."@,
    }
}

/// The module root: the manifest's directory joined with `src`, else the
/// directory itself.
pub fn module_root(manifest_path: &str, manifest: &Manifest) -> (r: String)
    ensures
        r@ == match manifest.src {
            Some(src) => joined_path(manifest_dir(manifest_path@), src@),
            None => manifest_dir(manifest_path@),
        },
{
    let dir = match path_parent(manifest_path) {
        Some(dir) => dir,
        None => String::from_str("."),
    };
    match &manifest.src {
        Some(src) => path_join(dir.as_str(), src.as_str()),
        None => dir,
    }
}

/// The index of the first `.` of `s` (its length when there is none).
pub open spec fn first_dot(s: Seq<char>) -> int
    decreases s.len(),
{
    if s.len() == 0 {
        0
    } else if s[0] == '.' {
        0
    } else {
        1 + first_dot(s.drop_first())
    }
}

/// The `major.minor` numbers of a version text: the first two `.`-separated
/// parts, each a `u64` literal.
pub open spec fn spec_major_minor(v: Seq<char>) -> Option<(u64, u64)> {
    let i = first_dot(v);
    if i >= v.len() {
        None
    } else {
        let rest = v.subrange(i + 1, v.len() as int);
        let j = first_dot(rest);
        match (
            spec_parse_unsigned(v.subrange(0, i), u64::MAX as nat),
            spec_parse_unsigned(rest.subrange(0, j), u64::MAX as nat),
        ) {
            (Some(a), Some(b)) => Some((a as u64, b as u64)),
            _ => None,
        }
    }
}

proof fn lemma_first_dot(s: Seq<char>, i: int)
    requires
        0 <= i <= s.len(),
        forall|k: int| 0 <= k < i ==> s[k] != '.',
        i == s.len() || s[i] == '.',
    ensures
        first_dot(s) == i,
    decreases i,
{
    if i > 0 {
        assert(s[0] != '.');
        lemma_first_dot(s.drop_first(), i - 1);
    }
}

fn find_dot(v: &Vec<char>, from: usize) -> (r: usize)
    requires
        from <= v@.len(),
    ensures
        from + first_dot(v@.subrange(from as int, v@.len() as int)) == r,
        from <= r <= v@.len(),
{
    let mut i = from;
    while i < v.len() && v[i] != '.'
        invariant
            from <= i <= v@.len(),
            forall|k: int| from <= k < i ==> v@[k] != '.',
        decreases v.len() - i,
    {
        i = i + 1;
    }
    proof {
        lemma_first_dot(v@.subrange(from as int, v@.len() as int), i - from);
    }
    i
}

fn major_minor(version: &str) -> (r: Option<(u64, u64)>)
    ensures
        r == spec_major_minor(version@),
{
    let v = chars_of(version);
    let i = find_dot(&v, 0);
    proof {
        assert(v@.subrange(0, v@.len() as int) == v@);
    }
    if i >= v.len() {
        return None;
    }
    let j = find_dot(&v, i + 1);
    proof {
        let rest = v@.subrange(i + 1, v@.len() as int);
        assert(rest.subrange(0, j - i - 1) == v@.subrange(i + 1, j as int));
    }
    let major_text = string_from_chars(vstd::slice::slice_subrange(v.as_slice(), 0, i));
    let minor_text = string_from_chars(vstd::slice::slice_subrange(v.as_slice(), i + 1, j));
    let major = parse_u64(major_text.as_str());
    let minor = parse_u64(minor_text.as_str());
    match (major, minor) {
        (Some(a), Some(b)) => Some((a, b)),
        _ => None,
    }
}

/// The warning text for a required version that differs from the running one.
pub open spec fn spec_version_warning(wanted: Seq<char>) -> Seq<char> {
    "项目清单要求 sokonanoda "@ + wanted + "，当前是 "@ + VERSION@
        + "（版本不一致可能带来行为差异）。"@
}

/// A warning when the manifest's `requires` names another `major.minor`
/// than the running toolchain (never an error).
pub fn version_warning(manifest: &Manifest) -> (r: Option<String>)
    ensures
        manifest.required_version is None ==> r is None,
        manifest.required_version matches Some(req) ==> (r is None <==> spec_major_minor(req@)
            == spec_major_minor(VERSION@)),
        manifest.required_version matches Some(req) ==> (r matches Some(w) ==> w@ == spec_version_warning(
            req@,
        )),
{
    let wanted_text = match &manifest.required_version {
        Some(text) => text,
        None => {
            return None;
        },
    };
    let wanted = major_minor(wanted_text.as_str());
    let running = major_minor(VERSION);
    let same = match (wanted, running) {
        (Some((a, b)), Some((c, d))) => a == c && b == d,
        (None, None) => true,
        _ => false,
    };
    if same {
        return None;
    }
    Some(
        concat5(
            "项目清单要求 sokonanoda ",
            wanted_text.as_str(),
            "，当前是 ",
            VERSION,
            "（版本不一致可能带来行为差异）。",
        ),
    )
}

/// A `..` part of `src` starts at `i` (between `/` separators or the ends).
pub open spec fn parent_part_at(src: Seq<char>, i: int) -> bool {
    0 <= i && i + 2 <= src.len() && src[i] == '.' && src[i + 1] == '.' && (i == 0 || src[i - 1]
        == '/') && (i + 2 == src.len() || src[i + 2] == '/')
}

/// Whether `src` has a `..` part between its `/` separators.
pub open spec fn has_parent_part(src: Seq<char>) -> bool {
    exists|i: int| #[trigger] parent_part_at(src, i)
}

fn contains_parent_part(src: &str) -> (r: bool)
    ensures
        r == has_parent_part(src@),
{
    let v = chars_of(src);
    let mut i: usize = 0;
    while i < v.len() && v.len() - i >= 2
        invariant
            i <= v@.len(),
            v@ == src@,
            forall|k: int| 0 <= k < i ==> !#[trigger] parent_part_at(v@, k),
        decreases v.len() - i,
    {
        if v[i] == '.' && v[i + 1] == '.' && (i == 0 || v[i - 1] == '/') && (i + 2 == v.len() || v[i
            + 2] == '/') {
            proof {
                assert(parent_part_at(v@, i as int));
            }
            return true;
        }
        i = i + 1;
    }
    proof {
        assert forall|k: int| !#[trigger] parent_part_at(v@, k) by {
            if 0 <= k < i {
            }
        };
    }
    false
}

/// `src` is acceptable as the module root: none, or a non-empty path with no
/// `..` part that the platform does not call absolute (`src_is_absolute`).
pub open spec fn src_acceptable(src: Option<String>, src_is_absolute: bool) -> bool {
    match src {
        Some(s) => s@.len() > 0 && !src_is_absolute && !has_parent_part(s@),
        None => true,
    }
}

/// The checks on a parsed manifest, given whether the platform calls `src`
/// absolute: `Ok` with the fields exactly when `src` is acceptable, else
/// the error that names `src`.
pub fn validate_manifest(
    path: &Path,
    name: Option<String>,
    required_version: Option<String>,
    src: Option<String>,
    src_is_absolute: bool,
) -> (r: Result<Manifest, ManifestError>)
    ensures
        r is Ok <==> src_acceptable(src, src_is_absolute),
        r matches Ok(m) ==> m.name == name && m.required_version == required_version && m.src == src,
        r matches Err(e) ==> src is Some && e.message@ == "`src = \""@ + src->0@ + "\"` 不是合法的模块根"@
            && e.hint@ == "`src` 必须是清单目录下的相对路径（例如 `src`），不能用绝对路径或 `..`。"@,
{
    match &src {
        Some(s) => {
            if s.as_str().unicode_len() == 0 || src_is_absolute || contains_parent_part(s.as_str()) {
                let message = crate::text::concat3("`src = \"", s.as_str(), "\"` 不是合法的模块根");
                return Err(
                    ManifestError {
                        path: path_to_owned(path),
                        message,
                        hint: String::from_str(
                            "`src` 必须是清单目录下的相对路径（例如 `src`），不能用绝对路径或 `..`。",
                        ),
                    },
                );
            }
        },
        None => {},
    }
    Ok(Manifest { name, required_version, src })
}

/// The checks that a parsed manifest must pass: `src` must be a non-empty
/// relative path below the manifest's directory (no `..` part). Which
/// paths are absolute is the platform's rule: the check asks the platform
/// and [`validate_manifest`] decides with its answer.
pub fn check_manifest(
    path: &Path,
    name: Option<String>,
    required_version: Option<String>,
    src: Option<String>,
) -> (r: Result<Manifest, ManifestError>)
    ensures
        src is None ==> r is Ok,
        src matches Some(s) && (s@.len() == 0 || has_parent_part(s@)) ==> r is Err,
        r matches Ok(m) ==> m.name == name && m.required_version == required_version && m.src == src,
        r matches Err(e) ==> src is Some && e.message@ == "`src = \""@ + src->0@ + "\"` 不是合法的模块根"@,
        r is Ok <==> src_acceptable(
            src,
            match src {
                Some(s) => absolute_path(s@),
                None => false,
            },
        ),
{
    let absolute = match &src {
        Some(s) => path_is_absolute(s.as_str()),
        None => false,
    };
    let r = validate_manifest(path, name, required_version, src, absolute);
    proof {
        assert(r is Ok <==> src_acceptable(src, absolute));
    }
    r
}

} // verus!
