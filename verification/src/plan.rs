//! A project compilation's plan (root, manifest, the loaded closure) and the
//! closure's digest: the cache key that changes with any module's text,
//! any import edge or the prelude shape.
use crate::graph::{Closure, LoadedModule};
use crate::manifest::ManifestError;
use crate::report::{ProjectDiagnostic, ProjectErrorKind, ProjectKind};
use crate::text::{concat3, str_eq, string_from_chars};
use std::path::PathBuf;
use vstd::prelude::*;
use vstd::utf8::encode_utf8;

verus! {

/// Which prelude the kernel installs.
#[derive(Debug, Clone, Copy, PartialEq, Eq, Structural)]
pub enum PreludeMode {
    Full,
    Bare,
}

/// A project compilation's plan: where the modules live, which manifest
/// was in effect, and the closure loaded from the entry (only read and
/// parsed, not checked).
pub struct ProjectPlan {
    pub entry: PathBuf,
    pub root: PathBuf,
    pub manifest: Option<PathBuf>,
    pub requires_warning: Option<String>,
    /// Load-time diagnostics (not found, cycle, syntax error).
    pub diagnostics: Vec<ProjectDiagnostic>,
    /// The closure loaded from the entry.
    pub closure: Closure,
}

/// Where a project's module root comes from.
#[derive(Debug, Clone, Copy, PartialEq, Eq, Structural)]
pub enum RootSource {
    /// The root given explicitly.
    Override,
    /// The manifest found above the entry, which loaded.
    Manifest,
    /// A manifest was found but is invalid: the entry's directory, with a
    /// diagnostic.
    InvalidManifest,
    /// No manifest: the entry's directory.
    EntryDirectory,
}

/// The module root's source: an explicit root wins; else the nearest
/// manifest, if one was found (invalid: the entry's directory); else the
/// entry's directory.
pub fn root_source(has_override: bool, manifest_found: bool, manifest_loaded: bool) -> (r: RootSource)
    ensures
        has_override ==> r == RootSource::Override,
        !has_override && manifest_found && manifest_loaded ==> r == RootSource::Manifest,
        !has_override && manifest_found && !manifest_loaded ==> r == RootSource::InvalidManifest,
        !has_override && !manifest_found ==> r == RootSource::EntryDirectory,
{
    if has_override {
        RootSource::Override
    } else if manifest_found {
        if manifest_loaded {
            RootSource::Manifest
        } else {
            RootSource::InvalidManifest
        }
    } else {
        RootSource::EntryDirectory
    }
}

/// The diagnostic for a manifest that does not load: an error of the
/// entry module (`entry_label`), with the manifest's path, no span, and the
/// message `<path>：<reason>` where `shown_path` is the path as displayed.
pub fn manifest_invalid_diagnostic(err: ManifestError, shown_path: &str, entry_label: String) -> (r:
    ProjectDiagnostic)
    ensures
        r.kind == ProjectKind::Error(ProjectErrorKind::ManifestInvalid),
        r.message@ == shown_path@ + "："@ + err.message@,
        r.module == entry_label,
        r.path == Some(err.path),
        r.span is None,
{
    let message = concat3(shown_path, "：", err.message.as_str());
    ProjectDiagnostic {
        kind: ProjectKind::Error(ProjectErrorKind::ManifestInvalid),
        message,
        module: entry_label,
        path: Some(err.path),
        span: None,
    }
}

/// `v` holds a diagnostic of the same module with the same message as `d`.
pub open spec fn has_same_diagnostic(v: Seq<ProjectDiagnostic>, d: ProjectDiagnostic) -> bool {
    exists|k: int| 0 <= k < v.len() && (#[trigger] v[k]).module@ == d.module@ && v[k].message@ == d.message@
}

/// `known` with each of `new` added in order, unless a diagnostic of the same
/// module and message is there already.
pub open spec fn merged_diagnostics(known: Seq<ProjectDiagnostic>, new: Seq<ProjectDiagnostic>) -> Seq<
    ProjectDiagnostic,
>
    decreases new.len(),
{
    if new.len() == 0 {
        known
    } else {
        let before = merged_diagnostics(known, new.drop_last());
        if has_same_diagnostic(before, new.last()) {
            before
        } else {
            before.push(new.last())
        }
    }
}

fn has_diagnostic(v: &Vec<ProjectDiagnostic>, d: &ProjectDiagnostic) -> (r: bool)
    ensures
        r == has_same_diagnostic(v@, *d),
{
    let mut k: usize = 0;
    while k < v.len()
        invariant
            k <= v@.len(),
            forall|m: int| 0 <= m < k ==> !((#[trigger] v@[m]).module@ == d.module@ && v@[m].message@ == d.message@),
        decreases v.len() - k,
    {
        if str_eq(v[k].module.as_str(), d.module.as_str()) && str_eq(v[k].message.as_str(), d.message.as_str()) {
            return true;
        }
        k = k + 1;
    }
    false
}

/// Add the diagnostics of `new` to `known`, each module and message once.
pub fn merge_diagnostics(known: &mut Vec<ProjectDiagnostic>, new: Vec<ProjectDiagnostic>)
    ensures
        final(known)@ == merged_diagnostics(old(known)@, new@),
{
    let ghost all = new@;
    let mut rest = new;
    let mut i: usize = 0;
    proof {
        assert(all.len() == rest.len());
        assert(all.subrange(0, all.len() as int) =~= all);
        assert(all.take(0) =~= Seq::<ProjectDiagnostic>::empty());
    }
    while rest.len() > 0
        invariant
            i <= all.len(),
            all.len() <= usize::MAX,
            rest@ == all.subrange(i as int, all.len() as int),
            known@ == merged_diagnostics(old(known)@, all.take(i as int)),
        decreases rest.len(),
    {
        proof {
            assert(rest@.len() == all.len() - i);
        }
        let d = rest.remove(0);
        proof {
            assert(d == all[i as int]);
            assert(all.take(i + 1).drop_last() =~= all.take(i as int));
            assert(all.take(i + 1).last() == all[i as int]);
        }
        let found = has_diagnostic(known, &d);
        if !found {
            known.push(d);
        }
        i = i + 1;
        proof {
            assert(rest@ =~= all.subrange(i as int, all.len() as int));
        }
    }
    proof {
        assert(all.take(all.len() as int) =~= all);
    }
}

/// Take `key` in once: `true` (and `key` recorded in `seen`) when it is
/// new, `false` (and `seen` unchanged) when it was seen before.
pub fn admit_key(seen: &mut Vec<String>, key: String) -> (r: bool)
    ensures
        r == !(exists|k: int| 0 <= k < old(seen)@.len() && (#[trigger] old(seen)@[k])@ == key@),
        r ==> final(seen)@ == old(seen)@.push(key),
        !r ==> final(seen)@ == old(seen)@,
{
    let mut k: usize = 0;
    while k < seen.len()
        invariant
            k <= seen@.len(),
            forall|m: int| 0 <= m < k ==> (#[trigger] seen@[m])@ != key@,
        decreases seen.len() - k,
    {
        if str_eq(seen[k].as_str(), key.as_str()) {
            return false;
        }
        k = k + 1;
    }
    seen.push(key);
    true
}

/// The 64-bit FNV-1a offset basis and prime.
pub const FNV_OFFSET: u64 = 0xcbf2_9ce4_8422_2325;

pub const FNV_PRIME: u64 = 0x100_0000_01b3;

/// FNV-1a over `bytes`, starting from `h`.
pub open spec fn fnv_mix(h: u64, bytes: Seq<u8>) -> u64
    decreases bytes.len(),
{
    if bytes.len() == 0 {
        h
    } else {
        (fnv_mix(h, bytes.drop_last()) ^ (bytes.last() as u64)).wrapping_mul(FNV_PRIME)
    }
}

/// The bytes of the import edges: each module name followed by `,`.
pub open spec fn import_bytes(imports: Seq<(String, crate::span::Span)>) -> Seq<u8>
    decreases imports.len(),
{
    if imports.len() == 0 {
        Seq::empty()
    } else {
        import_bytes(imports.drop_last()) + encode_utf8(imports.last().0@) + seq![44u8]
    }
}

/// A module's bytes: its name, its source and its import edges.
pub open spec fn module_bytes(m: LoadedModule) -> Seq<u8> {
    encode_utf8(m.name@) + seq![0u8] + encode_utf8(m.file.src@) + seq![0u8] + import_bytes(m.imports@)
        + seq![10u8]
}

/// The modules' bytes in topological order.
pub open spec fn closure_bytes(mods: Seq<LoadedModule>) -> Seq<u8>
    decreases mods.len(),
{
    if mods.len() == 0 {
        Seq::empty()
    } else {
        closure_bytes(mods.drop_last()) + module_bytes(mods.last())
    }
}

pub open spec fn prelude_byte(mode: PreludeMode) -> u8 {
    match mode {
        PreludeMode::Full => 1,
        PreludeMode::Bare => 2,
    }
}

/// Everything the digest hashes: a format tag, the prelude shape and the
/// closure.
pub open spec fn digest_bytes(mods: Seq<LoadedModule>, mode: PreludeMode) -> Seq<u8> {
    encode_utf8("soko.project-iface/1"@) + seq![prelude_byte(mode)] + closure_bytes(mods)
}

pub open spec fn hex_char(d: nat) -> char {
    if d < 10 {
        ((d + 48) as u8) as char
    } else {
        ((d - 10 + 97) as u8) as char
    }
}

/// The last `n` hexadecimal digits of `h`, zero-padded, lower case.
pub open spec fn hex_digits(h: nat, n: nat) -> Seq<char>
    decreases n,
{
    if n == 0 {
        Seq::empty()
    } else {
        hex_digits(h / 16, (n - 1) as nat).push(hex_char(h % 16))
    }
}

/// The digest text: `closure-` and the hash in 16 hex digits.
pub open spec fn spec_digest(mods: Seq<LoadedModule>, mode: PreludeMode) -> Seq<char> {
    "closure-"@ + hex_digits(fnv_mix(FNV_OFFSET, digest_bytes(mods, mode)) as nat, 16)
}

proof fn lemma_fnv_concat(h: u64, a: Seq<u8>, b: Seq<u8>)
    ensures
        fnv_mix(h, a + b) == fnv_mix(fnv_mix(h, a), b),
    decreases b.len(),
{
    if b.len() == 0 {
        assert(a + b =~= a);
    } else {
        assert((a + b).drop_last() =~= a + b.drop_last());
        assert((a + b).last() == b.last());
        lemma_fnv_concat(h, a, b.drop_last());
    }
}

/// FNV-1a over a byte slice.
fn mix(h: u64, bytes: &[u8]) -> (r: u64)
    ensures
        r == fnv_mix(h, bytes@),
{
    let mut hash = h;
    let mut i: usize = 0;
    while i < bytes.len()
        invariant
            i <= bytes@.len(),
            hash == fnv_mix(h, bytes@.take(i as int)),
        decreases bytes.len() - i,
    {
        proof {
            assert(bytes@.take(i + 1).drop_last() =~= bytes@.take(i as int));
            assert(bytes@.take(i + 1).last() == bytes@[i as int]);
        }
        hash = (hash ^ (bytes[i] as u64)).wrapping_mul(FNV_PRIME);
        i = i + 1;
    }
    proof {
        assert(bytes@.take(bytes@.len() as int) =~= bytes@);
    }
    hash
}

fn hex_digit(d: u64) -> (r: char)
    requires
        d < 16,
    ensures
        r == hex_char(d as nat),
{
    if d < 10 {
        ((d + 48) as u8) as char
    } else {
        ((d - 10 + 97) as u8) as char
    }
}

fn hex_text(h: u64, n: usize) -> (r: Vec<char>)
    ensures
        r@ == hex_digits(h as nat, n as nat),
    decreases n,
{
    if n == 0 {
        Vec::new()
    } else {
        let mut v = hex_text(h / 16, n - 1);
        v.push(hex_digit(h % 16));
        v
    }
}

impl ProjectPlan {
    /// A plan over a loaded closure.
    pub fn new(
        entry: PathBuf,
        root: PathBuf,
        manifest: Option<PathBuf>,
        requires_warning: Option<String>,
        diagnostics: Vec<ProjectDiagnostic>,
        closure: Closure,
    ) -> (r: Self)
        ensures
            r.entry == entry,
            r.root == root,
            r.manifest == manifest,
            r.requires_warning == requires_warning,
            r.diagnostics == diagnostics,
            r.closure == closure,
    {
        ProjectPlan { entry, root, manifest, requires_warning, diagnostics, closure }
    }

    /// The closure's modules, topological order, the entry last.
    pub fn modules(&self) -> (r: &[LoadedModule])
        ensures
            r@ == self.closure.modules@,
    {
        self.closure.modules.as_slice()
    }

    /// The entry module's name.
    pub fn entry(&self) -> (r: &str)
        ensures
            r@ == self.closure.entry@,
    {
        self.closure.entry.as_str()
    }

    /// The closure digest: FNV-1a (64 bits) over a format tag, the prelude
    /// shape and, in topological order, each module's name, source text and
    /// import edges; written `closure-` and 16 hex digits. A dependency's
    /// edit changes the key of every module that imports it.
    pub fn digest(&self, prelude: PreludeMode) -> (r: String)
        ensures
            r@ == spec_digest(self.closure.modules@, prelude),
    {
        let ghost mods = self.closure.modules@;
        let tag = "soko.project-iface/1";
        let mut hash = mix(FNV_OFFSET, tag.as_bytes());
        let mode: u8 = match prelude {
            PreludeMode::Full => 1,
            PreludeMode::Bare => 2,
        };
        let mode_bytes: Vec<u8> = vec![mode];
        let ghost head = encode_utf8(tag@);
        proof {
            lemma_fnv_concat(FNV_OFFSET, head, mode_bytes@);
            assert(mods.take(0) =~= Seq::<LoadedModule>::empty());
            assert(head + mode_bytes@ + closure_bytes(mods.take(0)) =~= head + mode_bytes@);
        }
        hash = mix(hash, mode_bytes.as_slice());
        let ghost start = head + mode_bytes@;
        let mut i: usize = 0;
        while i < self.closure.modules.len()
            invariant
                mods == self.closure.modules@,
                i <= mods.len(),
                hash == fnv_mix(FNV_OFFSET, start + closure_bytes(mods.take(i as int))),
            decreases self.closure.modules.len() - i,
        {
            let module = &self.closure.modules[i];
            let ghost before = start + closure_bytes(mods.take(i as int));
            let zero: Vec<u8> = vec![0u8];
            let comma: Vec<u8> = vec![44u8];
            let newline: Vec<u8> = vec![10u8];
            proof {
                assert(zero@ =~= seq![0u8]);
                assert(comma@ =~= seq![44u8]);
                assert(newline@ =~= seq![10u8]);
            }
            let name_bytes = module.name.as_str().as_bytes();
            let src_bytes = module.file.src.as_str().as_bytes();
            proof {
                lemma_fnv_concat(FNV_OFFSET, before, name_bytes@);
            }
            hash = mix(hash, name_bytes);
            proof {
                lemma_fnv_concat(FNV_OFFSET, before + name_bytes@, zero@);
            }
            hash = mix(hash, zero.as_slice());
            proof {
                lemma_fnv_concat(FNV_OFFSET, before + name_bytes@ + zero@, src_bytes@);
            }
            hash = mix(hash, src_bytes);
            proof {
                lemma_fnv_concat(FNV_OFFSET, before + name_bytes@ + zero@ + src_bytes@, zero@);
            }
            hash = mix(hash, zero.as_slice());
            let ghost mid = before + name_bytes@ + zero@ + src_bytes@ + zero@;
            let mut k: usize = 0;
            proof {
                assert(module.imports@.take(0) =~= Seq::<(String, crate::span::Span)>::empty());
                assert(mid + import_bytes(module.imports@.take(0)) =~= mid);
            }
            while k < module.imports.len()
                invariant
                    k <= module.imports@.len(),
                    comma@ == seq![44u8],
                    hash == fnv_mix(FNV_OFFSET, mid + import_bytes(module.imports@.take(k as int))),
                decreases module.imports.len() - k,
            {
                let dep_bytes = module.imports[k].0.as_str().as_bytes();
                let ghost sofar = mid + import_bytes(module.imports@.take(k as int));
                proof {
                    lemma_fnv_concat(FNV_OFFSET, sofar, dep_bytes@);
                }
                hash = mix(hash, dep_bytes);
                proof {
                    lemma_fnv_concat(FNV_OFFSET, sofar + dep_bytes@, comma@);
                    let t = module.imports@.take(k + 1);
                    assert(t.drop_last() =~= module.imports@.take(k as int));
                    assert(t.last() == module.imports@[k as int]);
                    assert(dep_bytes@ == encode_utf8(module.imports@[k as int].0@));
                    assert(import_bytes(t) == import_bytes(module.imports@.take(k as int)) + encode_utf8(
                        module.imports@[k as int].0@,
                    ) + seq![44u8]);
                    assert(mid + import_bytes(t) =~= sofar + dep_bytes@ + comma@);
                }
                hash = mix(hash, comma.as_slice());
                k = k + 1;
            }
            proof {
                assert(module.imports@.take(module.imports@.len() as int) =~= module.imports@);
                lemma_fnv_concat(FNV_OFFSET, mid + import_bytes(module.imports@), newline@);
                let t = mods.take(i + 1);
                assert(t.drop_last() =~= mods.take(i as int));
                assert(t.last() == mods[i as int]);
                assert(start + closure_bytes(t) =~= mid + import_bytes(module.imports@) + newline@);
            }
            hash = mix(hash, newline.as_slice());
            i = i + 1;
        }
        proof {
            assert(mods.take(mods.len() as int) =~= mods);
            assert(start + closure_bytes(mods) =~= digest_bytes(mods, prelude));
        }
        let digits = hex_text(hash, 16);
        let mut out = String::from_str("closure-");
        let d = string_from_chars(digits.as_slice());
        out.append(d.as_str());
        out
    }
}

} // verus!
