//! The import closure of an entry module: its modules in topological order
//! (dependencies first, the entry last) and the project diagnostics.
//!
//! A module that fails by itself (not found, does not parse, import cycle)
//! keeps every module downstream of it from compiling; those modules get
//! one `import-dependency-failed` on the importing line instead of a cascade
//! of unrelated errors.
use crate::ast::{clone_notation_decl, Command, FolFile, NotationDecl};
use crate::module_name::ModuleName;
use crate::parser::{file_symbols, notation_prec_ok, notations_prec_ok, parse_with_inherited, prec_ok, tokenize};
use crate::report::{ProjectDiagnostic, ProjectErrorKind, ProjectKind};
use crate::resolve::{Lookup, MissingModule};
use crate::span::{Pos, Span};
use crate::text::{
    chars_of, concat2, concat3, concat4, lemma_utf8_len_prefix, spec_utf8_len_seq, str_eq,
    string_from_chars, utf8_len,
};
use crate::token::{
    contains_string, lex_ok, lex_tokens, next_newline, tok_view, tok_views, LexKind, TokenKind,
};
use std::path::{Path, PathBuf};
use vstd::prelude::*;

verus! {

/// One loaded module.
pub struct LoadedModule {
    pub name: String,
    pub path: PathBuf,
    pub file: FolFile,
    /// The `import` edges (module name and the span of its `import`
    /// command), in source order, each name once.
    pub imports: Vec<(String, Span)>,
    /// The module failed by itself (not found, parse error, cycle).
    pub failed: bool,
    /// An upstream module failed, so this one is not compiled.
    pub blocked: bool,
}

/// The result of loading a closure.
pub struct Closure {
    /// Topological order: dependencies first, the entry last.
    pub modules: Vec<LoadedModule>,
    pub diagnostics: Vec<ProjectDiagnostic>,
    /// The entry module's name.
    pub entry: String,
    /// The notations visible to the entry, with the module that declares
    /// each one.
    pub notations: Vec<NotationDecl>,
}

/// Neither failed nor blocked.
pub open spec fn is_compilable(m: LoadedModule) -> bool {
    !m.failed && !m.blocked
}

impl Closure {
    /// The indices (in topological order) of the modules that can compile.
    pub fn compilable(&self) -> (r: Vec<usize>)
        ensures
            forall|k: int| 0 <= k < r@.len() ==> (#[trigger] r@[k]) < self.modules@.len() && is_compilable(
                self.modules@[r@[k] as int],
            ),
            forall|a: int, b: int| 0 <= a < b < r@.len() ==> (#[trigger] r@[a]) < (#[trigger] r@[b]),
            forall|i: int|
                0 <= i < self.modules@.len() && is_compilable(#[trigger] self.modules@[i]) ==> r@.contains(
                    i as usize,
                ),
    {
        let mut out: Vec<usize> = Vec::new();
        let mut i: usize = 0;
        while i < self.modules.len()
            invariant
                i <= self.modules@.len(),
                forall|k: int| 0 <= k < out@.len() ==> (#[trigger] out@[k]) < i && is_compilable(
                    self.modules@[out@[k] as int],
                ),
                forall|a: int, b: int| 0 <= a < b < out@.len() ==> (#[trigger] out@[a]) < (#[trigger] out@[b]),
                forall|j: int| 0 <= j < i && is_compilable(#[trigger] self.modules@[j]) ==> out@.contains(j as usize),
            decreases self.modules.len() - i,
        {
            let m = &self.modules[i];
            if !m.failed && !m.blocked {
                let ghost before = out@;
                out.push(i);
                proof {
                    assert forall|j: int| 0 <= j <= i && is_compilable(#[trigger] self.modules@[j]) implies out@.contains(
                        j as usize,
                    ) by {
                        if j < i {
                            let k = choose|k: int| 0 <= k < before.len() && before[k] == j as usize;
                            assert(out@[k] == j as usize);
                        } else {
                            assert(out@[out@.len() - 1] == i);
                        }
                    };
                }
            }
            i = i + 1;
        }
        out
    }

    /// The index of the module named `name`.
    pub fn module_index(&self, name: &str) -> (r: Option<usize>)
        ensures
            r matches Some(i) ==> i < self.modules@.len() && self.modules@[i as int].name@ == name@
                && forall|j: int| 0 <= j < i ==> (#[trigger] self.modules@[j]).name@ != name@,
            r is None ==> forall|j: int| 0 <= j < self.modules@.len() ==> (#[trigger] self.modules@[j]).name@ != name@,
    {
        let mut i: usize = 0;
        while i < self.modules.len()
            invariant
                i <= self.modules@.len(),
                forall|j: int| 0 <= j < i ==> (#[trigger] self.modules@[j]).name@ != name@,
            decreases self.modules.len() - i,
        {
            if str_eq(self.modules[i].name.as_str(), name) {
                return Some(i);
            }
            i = i + 1;
        }
        None
    }
}

// ---------------------------------------------------------------------------
// Blocking downstream modules.
// ---------------------------------------------------------------------------

/// `s` is one of the names in `v`.
pub open spec fn in_names(v: Seq<String>, s: Seq<char>) -> bool {
    exists|q: int| 0 <= q < v.len() && (#[trigger] v[q])@ == s
}

/// One of the first `i` modules failed and is named `s`.
pub open spec fn failed_before(mods: Seq<LoadedModule>, i: int, s: Seq<char>) -> bool {
    exists|j: int| 0 <= j < i && mods[j].failed && (#[trigger] mods[j]).name@ == s
}

/// `n` names a module that failed, or one of the first modules whose
/// `flags` say they were blocked by this round.
pub open spec fn is_broken(mods: Seq<LoadedModule>, flags: Seq<bool>, n: Seq<char>) -> bool {
    exists|j: int|
        0 <= j < mods.len() && (mods[j].failed || (j < flags.len() && flags[j])) && (#[trigger] mods[j]).name@
            == n
}

/// The first import of module `i`, from index `u` on, that names a broken
/// module (the number of imports when there is none).
pub open spec fn first_broken_from(mods: Seq<LoadedModule>, flags: Seq<bool>, i: int, u: int) -> int
    decreases mods[i].imports@.len() - u,
{
    if u < 0 || u >= mods[i].imports@.len() {
        mods[i].imports@.len() as int
    } else if is_broken(mods, flags, mods[i].imports@[u].0@) {
        u
    } else {
        first_broken_from(mods, flags, i, u + 1)
    }
}

proof fn lemma_first_broken(mods: Seq<LoadedModule>, flags: Seq<bool>, i: int, u: int, t: int)
    requires
        0 <= u <= t < mods[i].imports@.len(),
        is_broken(mods, flags, mods[i].imports@[t].0@),
        forall|w: int| u <= w < t ==> !is_broken(mods, flags, (#[trigger] mods[i].imports@[w]).0@),
    ensures
        first_broken_from(mods, flags, i, u) == t,
    decreases t - u,
{
    if u < t {
        lemma_first_broken(mods, flags, i, u + 1, t);
    }
}

/// The span of the import through which module `i` gets blocked: its first
/// import of a broken module.
pub open spec fn blocking_span(mods: Seq<LoadedModule>, i: int) -> Span {
    mods[i].imports@[first_broken_from(mods, blocked_flags(mods, i as nat), i, 0)].1
}

/// Module `i` gets blocked now: it has not failed, is not blocked yet, and
/// imports a broken module.
pub open spec fn newly_blocked(mods: Seq<LoadedModule>, flags: Seq<bool>, i: int) -> bool {
    &&& !mods[i].failed
    &&& !mods[i].blocked
    &&& exists|t: int|
        0 <= t < mods[i].imports@.len() && is_broken(mods, flags, (#[trigger] mods[i].imports@[t]).0@)
}

/// Which of the first `k` modules get blocked, in topological order (an
/// upstream module is decided first).
pub open spec fn blocked_flags(mods: Seq<LoadedModule>, k: nat) -> Seq<bool>
    decreases k,
{
    if k == 0 {
        Seq::empty()
    } else {
        let prev = blocked_flags(mods, (k - 1) as nat);
        prev.push(newly_blocked(mods, prev, k - 1))
    }
}

proof fn lemma_blocked_flags_len(mods: Seq<LoadedModule>, k: nat)
    ensures
        blocked_flags(mods, k).len() == k,
    decreases k,
{
    if k > 0 {
        lemma_blocked_flags_len(mods, (k - 1) as nat);
    }
}

proof fn lemma_blocked_flags_prefix(mods: Seq<LoadedModule>, k: nat, m: nat)
    requires
        k <= m,
    ensures
        blocked_flags(mods, m).take(k as int) == blocked_flags(mods, k),
    decreases m - k,
{
    lemma_blocked_flags_len(mods, m);
    lemma_blocked_flags_len(mods, k);
    if k < m {
        lemma_blocked_flags_prefix(mods, k, (m - 1) as nat);
        lemma_blocked_flags_len(mods, (m - 1) as nat);
        assert(blocked_flags(mods, m).take(k as int) =~= blocked_flags(mods, (m - 1) as nat).take(
            k as int,
        ));
    } else {
        assert(blocked_flags(mods, m).take(k as int) =~= blocked_flags(mods, m));
    }
}

/// The module keeps everything but (possibly) its `blocked` flag.
pub open spec fn same_but_blocked(a: LoadedModule, b: LoadedModule) -> bool {
    &&& a.name == b.name
    &&& a.path == b.path
    &&& a.file == b.file
    &&& a.imports == b.imports
    &&& a.failed == b.failed
}

/// How many of `flags` are set.
pub open spec fn count_set(flags: Seq<bool>) -> nat
    decreases flags.len(),
{
    if flags.len() == 0 {
        0
    } else {
        count_set(flags.drop_last()) + if flags.last() {
            1nat
        } else {
            0nat
        }
    }
}

/// `after` is `before` with every module that a round of propagation
/// blocks marked blocked, and nothing else changed.
pub open spec fn propagated(before: Seq<LoadedModule>, after: Seq<LoadedModule>) -> bool {
    &&& after.len() == before.len()
    &&& forall|i: int|
        0 <= i < before.len() ==> same_but_blocked(#[trigger] after[i], before[i]) && after[i].blocked == (
        before[i].blocked || blocked_flags(before, before.len() as nat)[i])
}

/// Block propagation (safe to repeat): a module downstream of a failed or
/// blocked one does not compile, and gets one `import-dependency-failed`
/// on its `import` line. The topological order decides upstream first.
/// The diagnostics come in module order: the one of module `i` follows
/// those of the modules blocked before it.
pub fn propagate_blocked(closure: &mut Closure, diagnostics: &mut Vec<ProjectDiagnostic>)
    ensures
        propagated(old(closure).modules@, final(closure).modules@),
        final(closure).diagnostics == old(closure).diagnostics,
        final(closure).entry == old(closure).entry,
        final(closure).notations == old(closure).notations,
        final(diagnostics)@.len() == old(diagnostics)@.len() + count_set(
            blocked_flags(old(closure).modules@, old(closure).modules@.len() as nat),
        ),
        final(diagnostics)@.take(old(diagnostics)@.len() as int) == old(diagnostics)@,
        forall|k: int|
            old(diagnostics)@.len() <= k < final(diagnostics)@.len() ==> (#[trigger] final(diagnostics)@[k]).kind
                == ProjectKind::Error(ProjectErrorKind::ImportDependencyFailed),
        forall|i: int|
            0 <= i < old(closure).modules@.len() && #[trigger] blocked_flags(
                old(closure).modules@,
                old(closure).modules@.len() as nat,
            )[i] ==> final(diagnostics)@[old(diagnostics)@.len() + count_set(
                blocked_flags(old(closure).modules@, i as nat),
            ) as int].module == old(closure).modules@[i].name,
        forall|i: int|
            0 <= i < old(closure).modules@.len() && #[trigger] blocked_flags(
                old(closure).modules@,
                old(closure).modules@.len() as nat,
            )[i] ==> final(diagnostics)@[old(diagnostics)@.len() + count_set(
                blocked_flags(old(closure).modules@, i as nat),
            ) as int].span == Some(blocking_span(old(closure).modules@, i)),
{
    let ghost mods = closure.modules@;
    let ghost n = mods.len();
    let ghost old_diags = diagnostics@;
    // The failed modules start the broken set.
    let mut broken: Vec<String> = Vec::new();
    let mut i: usize = 0;
    while i < closure.modules.len()
        invariant
            closure.modules@ == mods,
            i <= mods.len(),
            forall|s: Seq<char>| #[trigger] in_names(broken@, s) <==> failed_before(mods, i as int, s),
        decreases closure.modules.len() - i,
    {
        if closure.modules[i].failed {
            let ghost before = broken@;
            broken.push(closure.modules[i].name.clone());
            proof {
                assert forall|s: Seq<char>| #[trigger] in_names(broken@, s) <==> failed_before(mods, i + 1, s) by {
                    if in_names(broken@, s) {
                        let q = choose|q: int| 0 <= q < broken@.len() && (#[trigger] broken@[q])@ == s;
                        if q < before.len() {
                            assert(in_names(before, s));
                        }
                    }
                    if failed_before(mods, i + 1, s) {
                        let j = choose|j: int| 0 <= j < i + 1 && mods[j].failed && (#[trigger] mods[j]).name@ == s;
                        if j < i {
                            assert(failed_before(mods, i as int, s));
                            assert(in_names(before, s));
                            let q = choose|q: int| 0 <= q < before.len() && (#[trigger] before[q])@ == s;
                            assert(broken@[q] == before[q]);
                        } else {
                            assert(broken@[broken@.len() - 1]@ == s);
                        }
                    }
                };
            }
        } else {
            proof {
                assert forall|s: Seq<char>| #[trigger] in_names(broken@, s) <==> failed_before(mods, i + 1, s) by {
                    if failed_before(mods, i + 1, s) {
                        let j = choose|j: int| 0 <= j < i + 1 && mods[j].failed && (#[trigger] mods[j]).name@ == s;
                        assert(j < i);
                    }
                };
            }
        }
        i = i + 1;
    }
    proof {
        lemma_blocked_flags_len(mods, 0);
        assert forall|s: Seq<char>| is_broken(mods, blocked_flags(mods, 0), s) <==> #[trigger] in_names(broken@, s) by {
            if is_broken(mods, blocked_flags(mods, 0), s) {
                let j = choose|j: int| 0 <= j < mods.len() && (mods[j].failed || (j < blocked_flags(mods, 0).len() && blocked_flags(mods, 0)[j])) && (#[trigger] mods[j]).name@ == s;
                assert(failed_before(mods, mods.len() as int, s));
            }
            if in_names(broken@, s) {
                let j = choose|j: int| 0 <= j < mods.len() && mods[j].failed && (#[trigger] mods[j]).name@ == s;
                assert(is_broken(mods, blocked_flags(mods, 0), s));
            }
        };
    }
    let mut index: usize = 0;
    while index < closure.modules.len()
        invariant
            closure.modules@.len() == mods.len(),
            n == mods.len(),
            index <= mods.len(),
            forall|i: int|
                0 <= i < mods.len() ==> same_but_blocked(#[trigger] closure.modules@[i], mods[i]),
            forall|i: int|
                0 <= i < index ==> (#[trigger] closure.modules@[i]).blocked == (mods[i].blocked
                    || blocked_flags(mods, index as nat)[i]),
            forall|i: int| index <= i < mods.len() ==> (#[trigger] closure.modules@[i]).blocked == mods[i].blocked,
            blocked_flags(mods, index as nat).len() == index,
            forall|s: Seq<char>| is_broken(mods, blocked_flags(mods, index as nat), s) <==> #[trigger] in_names(broken@, s),
            closure.diagnostics == old(closure).diagnostics,
            closure.entry == old(closure).entry,
            closure.notations == old(closure).notations,
            diagnostics@.len() >= old_diags.len(),
            diagnostics@.take(old_diags.len() as int) == old_diags,
            forall|k: int|
                old_diags.len() <= k < diagnostics@.len() ==> (#[trigger] diagnostics@[k]).kind
                    == ProjectKind::Error(ProjectErrorKind::ImportDependencyFailed),
            diagnostics@.len() == old_diags.len() + count_set(blocked_flags(mods, index as nat)),
            forall|i: int|
                0 <= i < index && #[trigger] blocked_flags(mods, index as nat)[i] ==> diagnostics@[old_diags.len()
                    + count_set(blocked_flags(mods, i as nat)) as int].module == mods[i].name,
            forall|i: int|
                0 <= i < index && #[trigger] blocked_flags(mods, index as nat)[i] ==> diagnostics@[old_diags.len()
                    + count_set(blocked_flags(mods, i as nat)) as int].span == Some(blocking_span(mods, i)),
        decreases closure.modules.len() - index,
    {
        let ghost flags = blocked_flags(mods, index as nat);
        let ghost next = blocked_flags(mods, index as nat + 1);
        let ghost diags_before = diagnostics@;
        proof {
            assert(next == flags.push(newly_blocked(mods, flags, index as int)));
            lemma_count_set_push(flags, newly_blocked(mods, flags, index as int));
            assert forall|i: int| 0 <= i < index && #[trigger] flags[i] implies old_diags.len() + count_set(
                blocked_flags(mods, i as nat),
            ) < diags_before.len() by {
                lemma_blocked_flags_count_grows(mods, i as nat + 1, index as nat);
                lemma_blocked_flags_prefix(mods, i as nat + 1, index as nat);
                lemma_blocked_flags_len(mods, i as nat);
                assert(blocked_flags(mods, i as nat + 1) == blocked_flags(mods, i as nat).push(
                    newly_blocked(mods, blocked_flags(mods, i as nat), i),
                ));
                assert(flags.take(i + 1)[i] == flags[i]);
                lemma_count_set_push(blocked_flags(mods, i as nat), flags[i]);
            };
        }
        let ghost before = broken@;
        let mut blocked_now = false;
        if !closure.modules[index].failed && !closure.modules[index].blocked {
            // The first import of a broken module.
            match first_listed_import(&closure.modules[index].imports, &broken) {
                Some(t) => {
                    proof {
                        assert(is_broken(mods, flags, mods[index as int].imports@[t as int].0@));
                        assert forall|w: int| 0 <= w < t implies !is_broken(
                            mods,
                            flags,
                            (#[trigger] mods[index as int].imports@[w]).0@,
                        ) by {
                            assert(!in_names(broken@, mods[index as int].imports@[w].0@));
                        };
                        lemma_first_broken(mods, flags, index as int, 0, t as int);
                        lemma_blocked_flags_len(mods, index as nat);
                    }
                    let dep = closure.modules[index].imports[t].0.clone();
                    let span = closure.modules[index].imports[t].1;
                    let name = closure.modules[index].name.clone();
                    let path = closure.modules[index].path.clone();
                    closure.modules[index].blocked = true;
                    broken.push(name.clone());
                    blocked_now = true;
                    let message = concat3(
                        "`",
                        dep.as_str(),
                        "` 没有编译成功，所以这里先不编译——先修好它的第一条错误",
                    );
                    diagnostics.push(
                        ProjectDiagnostic {
                            kind: ProjectKind::Error(ProjectErrorKind::ImportDependencyFailed),
                            message,
                            module: name,
                            path: Some(path),
                            span: Some(span),
                        },
                    );
                },
                None => {
                    proof {
                        assert forall|u: int| 0 <= u < mods[index as int].imports@.len() implies !is_broken(
                            mods,
                            flags,
                            (#[trigger] mods[index as int].imports@[u]).0@,
                        ) by {
                            assert(!in_names(broken@, mods[index as int].imports@[u].0@));
                        };
                    }
                },
            }
        }
        proof {
            assert(blocked_now == newly_blocked(mods, flags, index as int));
            lemma_is_broken_push(mods, flags, blocked_now);
            if blocked_now {
                assert(broken@ == before.push(mods[index as int].name));
            } else {
                assert(broken@ == before);
            }
        }
        proof {
            assert forall|s: Seq<char>| is_broken(mods, next, s) <==> #[trigger] in_names(broken@, s) by {
                lemma_in_names_push(before, mods[index as int].name, s);
            };
            assert(diagnostics@.take(old_diags.len() as int) =~= old_diags);
            assert forall|i: int|
                0 <= i < index + 1 && #[trigger] next[i] implies diagnostics@[old_diags.len() + count_set(
                    blocked_flags(mods, i as nat),
                ) as int].module == mods[i].name by {
                if i < index {
                    assert(next[i] == flags[i]);
                    assert(diagnostics@[old_diags.len() + count_set(blocked_flags(mods, i as nat)) as int]
                        == diags_before[old_diags.len() + count_set(blocked_flags(mods, i as nat)) as int]);
                }
            };
            assert forall|i: int|
                0 <= i < index + 1 && #[trigger] next[i] implies diagnostics@[old_diags.len() + count_set(
                    blocked_flags(mods, i as nat),
                ) as int].span == Some(blocking_span(mods, i)) by {
                if i < index {
                    assert(next[i] == flags[i]);
                    assert(diagnostics@[old_diags.len() + count_set(blocked_flags(mods, i as nat)) as int]
                        == diags_before[old_diags.len() + count_set(blocked_flags(mods, i as nat)) as int]);
                }
            };
        }
        index = index + 1;
    }
}

/// After one round of propagation no module is left to block: every
/// prefix of the next round's flags is unset.
proof fn lemma_nothing_left_to_block(m0: Seq<LoadedModule>, m1: Seq<LoadedModule>, k: nat)
    requires
        propagated(m0, m1),
        k <= m1.len(),
    ensures
        blocked_flags(m1, k).len() == k,
        forall|i: int| 0 <= i < k ==> !(#[trigger] blocked_flags(m1, k)[i]),
        count_set(blocked_flags(m1, k)) == 0,
    decreases k,
{
    lemma_blocked_flags_len(m1, k);
    if k > 0 {
        let j = (k - 1) as nat;
        lemma_nothing_left_to_block(m0, m1, j);
        let prev = blocked_flags(m1, j);
        let nb = newly_blocked(m1, prev, j as int);
        if nb {
            let t = choose|t: int|
                0 <= t < m1[j as int].imports@.len() && is_broken(m1, prev, (#[trigger] m1[j as int].imports@[t]).0@);
            let x = m1[j as int].imports@[t].0@;
            let w = choose|w: int|
                0 <= w < m1.len() && (m1[w].failed || (w < prev.len() && prev[w])) && (#[trigger] m1[w]).name@ == x;
            assert(same_but_blocked(m1[w], m0[w]));
            assert(same_but_blocked(m1[j as int], m0[j as int]));
            let f0 = blocked_flags(m0, j);
            assert(is_broken(m0, f0, x));
            assert(m0[j as int].imports@[t] == m1[j as int].imports@[t]);
            assert(newly_blocked(m0, f0, j as int));
            lemma_blocked_flags_prefix(m0, k, m0.len() as nat);
            lemma_blocked_flags_len(m0, k);
            assert(blocked_flags(m0, k) == f0.push(newly_blocked(m0, f0, j as int)));
            lemma_blocked_flags_len(m0, j);
            lemma_blocked_flags_len(m0, m0.len() as nat);
            assert(blocked_flags(m0, k)[j as int]);
            assert(blocked_flags(m0, m0.len() as nat).take(k as int)[j as int] == blocked_flags(
                m0,
                m0.len() as nat,
            )[j as int]);
            assert(m1[j as int].blocked);
        }
        lemma_count_set_push(prev, nb);
    }
}

/// Propagation is safe to repeat: once a round has run, a second round
/// blocks no further module and reports nothing, so it changes nothing.
pub proof fn lemma_propagate_blocked_settles(
    m0: Seq<LoadedModule>,
    m1: Seq<LoadedModule>,
    m2: Seq<LoadedModule>,
)
    requires
        propagated(m0, m1),
        propagated(m1, m2),
    ensures
        m2 == m1,
        count_set(blocked_flags(m1, m1.len() as nat)) == 0,
{
    lemma_nothing_left_to_block(m0, m1, m1.len() as nat);
    assert forall|i: int| 0 <= i < m1.len() implies #[trigger] m2[i] == m1[i] by {
        assert(same_but_blocked(m2[i], m1[i]));
        assert(!blocked_flags(m1, m1.len() as nat)[i]);
    };
    assert(m2 =~= m1);
}

/// Module `j` is named by import `t` of module `i`, and failed or was
/// blocked before `i`.
pub open spec fn broken_import(mods: Seq<LoadedModule>, i: int, t: int, j: int) -> bool {
    &&& 0 <= t < mods[i].imports@.len()
    &&& 0 <= j < mods.len()
    &&& mods[j].name@ == mods[i].imports@[t].0@
    &&& (mods[j].failed || (j < i && mods[j].blocked))
}

/// A module is blocked exactly when it did not fail itself and one of its
/// imports names a module that failed or that was blocked before it.
pub open spec fn blocked_exactly_downstream(mods: Seq<LoadedModule>) -> bool {
    forall|i: int|
        0 <= i < mods.len() ==> ((#[trigger] mods[i]).blocked <==> (!mods[i].failed && exists|t: int, j: int|
            broken_import(mods, i, t, j)))
}

/// One round of propagation over modules that are not blocked yet blocks
/// exactly the modules downstream of a failure.
pub proof fn lemma_propagation_blocks_exactly_downstream(m0: Seq<LoadedModule>, m1: Seq<LoadedModule>)
    requires
        propagated(m0, m1),
        forall|k: int| 0 <= k < m0.len() ==> !(#[trigger] m0[k]).blocked,
    ensures
        blocked_exactly_downstream(m1),
{
    let n = m0.len() as nat;
    lemma_blocked_flags_len(m0, n);
    assert forall|i: int| 0 <= i < m1.len() implies ((#[trigger] m1[i]).blocked <==> (!m1[i].failed
        && exists|t: int, j: int| broken_import(m1, i, t, j))) by {
        let f = blocked_flags(m0, i as nat);
        lemma_blocked_flags_prefix(m0, i as nat + 1, n);
        lemma_blocked_flags_prefix(m0, i as nat, n);
        lemma_blocked_flags_len(m0, i as nat);
        lemma_blocked_flags_len(m0, i as nat + 1);
        assert(blocked_flags(m0, i as nat + 1) == f.push(newly_blocked(m0, f, i)));
        assert(blocked_flags(m0, n)[i] == blocked_flags(m0, n).take(i + 1)[i]);
        assert(same_but_blocked(m1[i], m0[i]));
        assert(m1[i].blocked == newly_blocked(m0, f, i));
        if m1[i].blocked {
            let t = choose|t: int| 0 <= t < m0[i].imports@.len() && is_broken(m0, f, (#[trigger] m0[i].imports@[t]).0@);
            let x = m0[i].imports@[t].0@;
            let j = choose|j: int| 0 <= j < m0.len() && (m0[j].failed || (j < f.len() && f[j])) && (#[trigger] m0[j]).name@ == x;
            assert(same_but_blocked(m1[j], m0[j]));
            if !m0[j].failed {
                assert(f[j] == blocked_flags(m0, n).take(i)[j]);
                assert(m1[j].blocked == blocked_flags(m0, n)[j]);
            }
            assert(broken_import(m1, i, t, j));
        }
        if !m1[i].failed && exists|t: int, j: int| broken_import(m1, i, t, j) {
            let (t, j) = choose|t: int, j: int| broken_import(m1, i, t, j);
            assert(same_but_blocked(m1[j], m0[j]));
            if !m1[j].failed {
                assert(j < i && m1[j].blocked);
                assert(m1[j].blocked == blocked_flags(m0, n)[j]);
                assert(f[j] == blocked_flags(m0, n).take(i)[j]);
            }
            assert(is_broken(m0, f, m0[i].imports@[t].0@));
            assert(newly_blocked(m0, f, i));
        }
    };
}

proof fn lemma_count_set_push(flags: Seq<bool>, b: bool)
    ensures
        count_set(flags.push(b)) == count_set(flags) + if b {
            1nat
        } else {
            0nat
        },
{
    assert(flags.push(b).drop_last() =~= flags);
}

/// The number of blocked modules among a prefix grows with the prefix.
proof fn lemma_blocked_flags_count_grows(mods: Seq<LoadedModule>, i: nat, j: nat)
    requires
        i <= j,
    ensures
        count_set(blocked_flags(mods, i)) <= count_set(blocked_flags(mods, j)),
    decreases j - i,
{
    if i < j {
        lemma_blocked_flags_count_grows(mods, i, (j - 1) as nat);
        let prev = blocked_flags(mods, (j - 1) as nat);
        lemma_count_set_push(prev, newly_blocked(mods, prev, j - 1));
    }
}

proof fn lemma_in_names_push(v: Seq<String>, x: String, s: Seq<char>)
    ensures
        in_names(v.push(x), s) <==> (in_names(v, s) || x@ == s),
{
    if in_names(v.push(x), s) {
        let q = choose|q: int| 0 <= q < v.push(x).len() && (#[trigger] v.push(x)[q])@ == s;
        if q < v.len() {
            assert(v[q] == v.push(x)[q]);
        }
    }
    if in_names(v, s) {
        let q = choose|q: int| 0 <= q < v.len() && (#[trigger] v[q])@ == s;
        assert(v.push(x)[q] == v[q]);
    }
    if x@ == s {
        assert(v.push(x)[v.len() as int] == x);
    }
}

proof fn lemma_is_broken_push(mods: Seq<LoadedModule>, flags: Seq<bool>, b: bool)
    requires
        flags.len() < mods.len(),
    ensures
        forall|s: Seq<char>|
            #[trigger] is_broken(mods, flags.push(b), s) <==> (is_broken(mods, flags, s) || (b
                && mods[flags.len() as int].name@ == s)),
{
    assert forall|s: Seq<char>|
        #[trigger] is_broken(mods, flags.push(b), s) <==> (is_broken(mods, flags, s) || (b
            && mods[flags.len() as int].name@ == s)) by {
        let next = flags.push(b);
        if is_broken(mods, next, s) {
            let j = choose|j: int|
                0 <= j < mods.len() && (mods[j].failed || (j < next.len() && next[j])) && (#[trigger] mods[j]).name@ == s;
            if j < flags.len() {
                assert(next[j] == flags[j]);
            }
        }
        if is_broken(mods, flags, s) {
            let j = choose|j: int|
                0 <= j < mods.len() && (mods[j].failed || (j < flags.len() && flags[j])) && (#[trigger] mods[j]).name@ == s;
            if j < flags.len() {
                assert(next[j] == flags[j]);
            }
        }
        if b && mods[flags.len() as int].name@ == s {
            assert(next[flags.len() as int] == b);
        }
    };
}

/// The first import whose module is one of `names`.
fn first_listed_import(imports: &Vec<(String, Span)>, names: &Vec<String>) -> (r: Option<usize>)
    ensures
        r matches Some(t) ==> t < imports@.len() && in_names(names@, imports@[t as int].0@),
        r matches Some(t) ==> forall|u: int| 0 <= u < t ==> !in_names(names@, (#[trigger] imports@[u]).0@),
        r is None ==> forall|u: int| 0 <= u < imports@.len() ==> !in_names(names@, (#[trigger] imports@[u]).0@),
{
    let mut t: usize = 0;
    while t < imports.len()
        invariant
            t <= imports@.len(),
            forall|u: int| 0 <= u < t ==> !in_names(names@, (#[trigger] imports@[u]).0@),
        decreases imports.len() - t,
    {
        if contains_string(names, imports[t].0.as_str()) {
            return Some(t);
        }
        t = t + 1;
    }
    None
}

// ---------------------------------------------------------------------------
// The module name of an entry path.
// ---------------------------------------------------------------------------

/// What `Path::strip_prefix` gives for the path `path` and the base `root`
/// (both as text, under the target's path rules): the rest of `path` below
/// `root`, as text, when `root` is a prefix of it.
pub uninterp spec fn stripped_path(path: Seq<char>, root: Seq<char>) -> Option<Seq<char>>;

/// What `Path::with_extension("")` gives for the path `path`, as text.
pub uninterp spec fn path_without_extension(path: Seq<char>) -> Seq<char>;

/// What `Path::file_stem` gives for the path `path`, as text.
pub uninterp spec fn path_stem(path: Seq<char>) -> Option<Seq<char>>;

/// `Path::strip_prefix` on path texts; the result as text (a path made from
/// a `str` converts back to text without loss).
#[verifier::external_body]
fn path_strip_prefix(path: &str, root: &str) -> (r: Option<String>)
    ensures
        r matches Some(t) ==> stripped_path(path@, root@) == Some(t@),
        r is None ==> stripped_path(path@, root@) is None,
{
    Path::new(path).strip_prefix(root).ok().map(|rest| rest.to_string_lossy().into_owned())
}

/// `Path::with_extension("")` on a path text, as text.
#[verifier::external_body]
fn path_text_without_extension(path: &str) -> (r: String)
    ensures
        r@ == path_without_extension(path@),
{
    Path::new(path).with_extension("").to_string_lossy().into_owned()
}

/// `Path::file_stem` on a path text, as text.
#[verifier::external_body]
fn path_file_stem(path: &str) -> (r: Option<String>)
    ensures
        r matches Some(t) ==> path_stem(path@) == Some(t@),
        r is None ==> path_stem(path@) is None,
{
    Path::new(path).file_stem().map(|stem| stem.to_string_lossy().into_owned())
}

/// `t` with every `\` turned into `/`.
pub open spec fn forward_slashes(t: Seq<char>) -> Seq<char> {
    t.map_values(|c: char| if c == '\\' { '/' } else { c })
}

/// `t` without its leading `./` pairs.
pub open spec fn without_leading_dot_slash(t: Seq<char>) -> Seq<char>
    decreases t.len(),
{
    if t.len() >= 2 && t[0] == '.' && t[1] == '/' {
        without_leading_dot_slash(t.subrange(2, t.len() as int))
    } else {
        t
    }
}

/// `t` without its trailing `/`s.
pub open spec fn without_trailing_slashes(t: Seq<char>) -> Seq<char>
    decreases t.len(),
{
    if t.len() > 0 && t.last() == '/' {
        without_trailing_slashes(t.drop_last())
    } else {
        t
    }
}

pub open spec fn has_dot_dot(t: Seq<char>) -> bool {
    exists|i: int| 0 <= i && i + 1 < t.len() && #[trigger] t[i] == '.' && t[i + 1] == '.'
}

/// The dotted module name for the text of a path below the module root
/// (without extension): separators become `.`; an empty text or one with
/// `..` gives `Main`.
pub open spec fn spec_module_name_from_relative(t: Seq<char>) -> Seq<char> {
    let n = without_trailing_slashes(without_leading_dot_slash(forward_slashes(t)));
    if n.len() == 0 || has_dot_dot(n) {
        "Main"@
    } else {
        n.map_values(|c: char| if c == '/' { '.' } else { c })
    }
}

/// The module name for the text of a path below the module root.
#[verifier::spinoff_prover]
#[verifier::rlimit(30)]
pub fn module_name_from_relative(text: &str) -> (r: String)
    ensures
        r@ == spec_module_name_from_relative(text@),
{
    let v = chars_of(text);
    let mut w: Vec<char> = Vec::new();
    let mut i: usize = 0;
    while i < v.len()
        invariant
            v@ == text@,
            i <= v@.len(),
            w@ == forward_slashes(v@.take(i as int)),
        decreases v.len() - i,
    {
        let c = if v[i] == '\\' {
            '/'
        } else {
            v[i]
        };
        w.push(c);
        proof {
            assert(forward_slashes(v@.take(i as int + 1)) =~= forward_slashes(v@.take(i as int)).push(c));
        }
        i = i + 1;
    }
    proof {
        assert(v@.take(v@.len() as int) == v@);
    }
    let mut a: usize = 0;
    proof {
        assert(w@.subrange(0, w@.len() as int) =~= w@);
    }
    while a < w.len() && w.len() - a >= 2 && w[a] == '.' && w[a + 1] == '/'
        invariant
            a <= w@.len(),
            w@ == forward_slashes(text@),
            without_leading_dot_slash(w@) == without_leading_dot_slash(w@.subrange(a as int, w@.len() as int)),
        decreases w.len() - a,
    {
        proof {
            let s = w@.subrange(a as int, w@.len() as int);
            assert(s.subrange(2, s.len() as int) =~= w@.subrange(a + 2, w@.len() as int));
        }
        a = a + 2;
    }
    let mut b: usize = w.len();
    proof {
        let s = w@.subrange(a as int, w@.len() as int);
        assert(without_leading_dot_slash(s) == s);
        assert(w@.subrange(a as int, b as int) == s);
    }
    while b > a && w[b - 1] == '/'
        invariant
            a <= b <= w@.len(),
            w@ == forward_slashes(text@),
            without_trailing_slashes(without_leading_dot_slash(w@)) == without_trailing_slashes(
                w@.subrange(a as int, b as int),
            ),
        decreases b - a,
    {
        proof {
            assert(w@.subrange(a as int, b as int).drop_last() =~= w@.subrange(a as int, b - 1));
        }
        b = b - 1;
    }
    let ghost n = w@.subrange(a as int, b as int);
    proof {
        assert(without_trailing_slashes(n) == n);
    }
    if a == b {
        return String::from_str("Main");
    }
    let mut k: usize = a;
    while k < b && b - k >= 2
        invariant
            a <= k <= b,
            b <= w@.len(),
            n == w@.subrange(a as int, b as int),
            without_trailing_slashes(without_leading_dot_slash(forward_slashes(text@))) == n,
            forall|j: int| a <= j < k ==> !(#[trigger] w@[j] == '.' && w@[j + 1] == '.'),
        decreases b - k,
    {
        if w[k] == '.' && w[k + 1] == '.' {
            proof {
                assert(n[k - a] == '.' && n[k - a + 1] == '.');
            }
            return String::from_str("Main");
        }
        k = k + 1;
    }
    proof {
        assert forall|i: int| !(0 <= i && i + 1 < n.len() && #[trigger] n[i] == '.' && n[i + 1] == '.') by {
            if 0 <= i && i + 1 < n.len() {
                assert(n[i] == w@[a + i]);
                assert(n[i + 1] == w@[a + i + 1]);
            }
        };
    }
    let mut out: Vec<char> = Vec::new();
    let mut k: usize = a;
    while k < b
        invariant
            a <= k <= b,
            b <= w@.len(),
            n == w@.subrange(a as int, b as int),
            without_trailing_slashes(without_leading_dot_slash(forward_slashes(text@))) == n,
            n.len() > 0,
            !has_dot_dot(n),
            out@ == n.take(k - a).map_values(|c: char| if c == '/' { '.' } else { c }),
        decreases b - k,
    {
        let c = if w[k] == '/' {
            '.'
        } else {
            w[k]
        };
        out.push(c);
        proof {
            assert(n.take(k - a + 1) =~= n.take(k - a).push(w@[k as int]));
            assert(n.take(k - a + 1).map_values(|c: char| if c == '/' { '.' } else { c })
                =~= n.take(k - a).map_values(|c: char| if c == '/' { '.' } else { c }).push(c));
        }
        k = k + 1;
    }
    proof {
        assert(n.take(b - a) == n);
    }
    string_from_chars(out.as_slice())
}

/// The entry's module name: its path below the module root without the
/// extension, separators as `.`; a path outside the root (or a placeholder)
/// gives its file stem.
pub fn module_name_of_path(root: &str, path: &str) -> (r: String)
    ensures
        r@ == module_name_choice(
            match stripped_path(path@, root@) {
                Some(rest) => Some(path_without_extension(rest)),
                None => None,
            },
            path_stem(path@),
        ),
{
    let relative = match path_strip_prefix(path, root) {
        Some(relative) => Some(path_text_without_extension(relative.as_str())),
        None => None,
    };
    let stem = match relative {
        Some(_) => None,
        None => path_file_stem(path),
    };
    module_name_from_path_texts(relative, stem)
}

/// The module name from what the paths gave: the text below the module
/// root without its extension, else the file stem, else `Main`.
pub open spec fn module_name_choice(relative: Option<Seq<char>>, stem: Option<Seq<char>>) -> Seq<char> {
    match relative {
        Some(t) => spec_module_name_from_relative(t),
        None => match stem {
            Some(s) => s,
            None => "Main"@,
        },
    }
}

/// The module name from the path texts: `relative` is the entry's path
/// below the module root without its extension (`None` when it is not
/// below the root), `stem` its file stem.
pub fn module_name_from_path_texts(relative: Option<String>, stem: Option<String>) -> (r: String)
    ensures
        r@ == module_name_choice(
            match relative {
                Some(t) => Some(t@),
                None => None,
            },
            match stem {
                Some(s) => Some(s@),
                None => None,
            },
        ),
{
    match relative {
        Some(text) => module_name_from_relative(text.as_str()),
        None => match stem {
            Some(stem) => stem,
            None => String::from_str("Main"),
        },
    }
}


// ---------------------------------------------------------------------------
// Loading the closure.
// ---------------------------------------------------------------------------

/// The `import` lines of `text` found without parsing it: a line whose
/// tokens are exactly `import` and a name. The edges of a module are known
/// before the module itself can be parsed (it may use notations that its
/// dependencies declare).
pub fn scan_import_lines(text: &str) -> (r: Vec<(String, Span)>)
    ensures
        scan_view(r@) == import_lines(text@, 0, 1),
        forall|k: int| 0 <= k < r@.len() ==> (#[trigger] r@[k]).1.end.line == r@[k].1.start.line,
{
    let chars = chars_of(text);
    let mut out: Vec<(String, Span)> = Vec::new();
    let mut start: usize = 0;
    let mut base: usize = 0;
    let mut line: usize = 1;
    proof {
        assert(chars@.take(0) =~= Seq::<char>::empty());
        assert(scan_view(out@) =~= Seq::<(Seq<char>, int, int, int)>::empty());
    }
    while start < chars.len()
        invariant
            start <= chars@.len(),
            chars@ == text@,
            spec_utf8_len_seq(chars@) <= isize::MAX,
            base == spec_utf8_len_seq(chars@.take(start as int)),
            scan_view(out@) + import_lines(chars@, start as int, line as int) == import_lines(chars@, 0, 1),
            forall|k: int| 0 <= k < out@.len() ==> (#[trigger] out@[k]).1.end.line == out@[k].1.start.line,
        decreases chars.len() - start,
    {
        let mut end = start;
        let mut bytes = base;
        while end < chars.len() && chars[end] != '\n'
            invariant
                start <= end <= chars@.len(),
                spec_utf8_len_seq(chars@) <= isize::MAX,
                bytes == spec_utf8_len_seq(chars@.take(end as int)),
                next_newline(chars@, end as int) == next_newline(chars@, start as int),
            decreases chars.len() - end,
        {
            proof {
                lemma_utf8_len_prefix(chars@, end as int);
            }
            bytes = bytes.saturating_add(utf8_len(chars[end]));
            end = end + 1;
        }
        let ghost before = scan_view(out@);
        let ghost ln = line as int;
        let ghost st = start as int;
        let line_text = string_from_chars(vstd::slice::slice_subrange(chars.as_slice(), start, end));
        let ghost here = match line_import(chars@.subrange(st, end as int)) {
            Some((n, a, b)) => seq![(n, sat_add(base as int, a), sat_add(base as int, b), ln)],
            None => Seq::empty(),
        };
        match tokenize(line_text.as_str()) {
            Ok(tokens) => {
                if tokens.len() == 3 {
                    match (&tokens[0].kind, &tokens[1].kind) {
                        (TokenKind::Ident(kw), TokenKind::Ident(name)) => {
                            if str_eq(kw.as_str(), "import") {
                                let a = tokens[0].span.start;
                                let b = tokens[1].span.end;
                                let span = Span::new(
                                    Pos { offset: base.saturating_add(a.offset), line, column: a.column },
                                    Pos { offset: base.saturating_add(b.offset), line, column: b.column },
                                );
                                let ghost o = out@;
                                out.push((name.clone(), span));
                                proof {
                                    reveal_strlit("import");
                                    assert(tok_views(tokens@)[0] == tok_view(tokens@[0]));
                                    assert(tok_views(tokens@)[1] == tok_view(tokens@[1]));
                                    assert(scan_view(out@) =~= scan_view(o).push(here[0]));
                                    assert(scan_view(out@) =~= before + here);
                                }
                            } else {
                                proof {
                                    reveal_strlit("import");
                                    assert(tok_views(tokens@)[0] == tok_view(tokens@[0]));
                                    assert(here =~= Seq::<(Seq<char>, int, int, int)>::empty());
                                    assert(scan_view(out@) =~= before + here);
                                }
                            }
                        },
                        _ => {
                            proof {
                                assert(tok_views(tokens@)[0] == tok_view(tokens@[0]));
                                assert(tok_views(tokens@)[1] == tok_view(tokens@[1]));
                                assert(here =~= Seq::<(Seq<char>, int, int, int)>::empty());
                                assert(scan_view(out@) =~= before + here);
                            }
                        },
                    }
                } else {
                    proof {
                        assert(here =~= Seq::<(Seq<char>, int, int, int)>::empty());
                        assert(scan_view(out@) =~= before + here);
                    }
                }
            },
            Err(_) => {
                proof {
                    assert(here =~= Seq::<(Seq<char>, int, int, int)>::empty());
                    assert(scan_view(out@) =~= before + here);
                }
            },
        }
        // Past the line and its newline.
        if end < chars.len() {
            proof {
                lemma_utf8_len_prefix(chars@, end as int);
            }
            bytes = bytes.saturating_add(1);
            end = end + 1;
        }
        start = end;
        base = bytes;
        line = line.saturating_add(1);
        proof {
            assert(before + here + import_lines(chars@, start as int, line as int) =~= before + (here
                + import_lines(chars@, start as int, line as int)));
        }
    }
    out
}

/// The values that describe an import edge: the module name, the span's
/// byte offsets and its line.
pub open spec fn scan_view(v: Seq<(String, Span)>) -> Seq<(Seq<char>, int, int, int)> {
    v.map_values(|e: (String, Span)| (e.0@, e.1.start.offset as int, e.1.end.offset as int, e.1.start.line as int))
}

/// `a + b`, held at the largest `usize`.
pub open spec fn sat_add(a: int, b: int) -> int {
    if a + b > usize::MAX {
        usize::MAX as int
    } else {
        a + b
    }
}

/// The import that a single line states: it lexes to exactly `import`, a
/// name and the end; the name with the byte offsets of the line's first
/// token start and of the name's end.
pub open spec fn line_import(line: Seq<char>) -> Option<(Seq<char>, int, int)> {
    let syms = file_symbols(line, Seq::empty());
    let t = lex_tokens(line, 0, syms);
    if lex_ok(line, 0, syms) && t.len() == 3 && t[0].0 == LexKind::Ident("import"@) && t[1].0 is Ident {
        Some((t[1].0->Ident_0, t[0].1, t[1].2))
    } else {
        None
    }
}

/// The import lines of `chars` from index `start` on (at line `line_no`):
/// each line's import, its offsets moved to the whole text's.
pub open spec fn import_lines(chars: Seq<char>, start: int, line_no: int) -> Seq<(Seq<char>, int, int, int)>
    decreases chars.len() - start,
{
    if start < 0 || start >= chars.len() {
        Seq::empty()
    } else {
        let end = next_newline(chars, start);
        let base = spec_utf8_len_seq(chars.take(start)) as int;
        let here = match line_import(chars.subrange(start, end)) {
            Some((n, a, b)) => seq![(n, sat_add(base, a), sat_add(base, b), line_no)],
            None => Seq::empty(),
        };
        let next = if end < chars.len() {
            end + 1
        } else {
            end
        };
        if start < next <= chars.len() {
            here + import_lines(chars, next, sat_add(line_no, 1))
        } else {
            here
        }
    }
}

/// The edges with each module name kept once (its first occurrence).
pub open spec fn names_distinct(v: Seq<(String, Span)>) -> bool {
    forall|i: int, j: int| 0 <= i < j < v.len() ==> (#[trigger] v[i]).0@ != (#[trigger] v[j]).0@
}

fn edge_listed(v: &Vec<(String, Span)>, name: &str) -> (r: bool)
    ensures
        r == exists|k: int| 0 <= k < v@.len() && (#[trigger] v@[k]).0@ == name@,
{
    let mut k: usize = 0;
    while k < v.len()
        invariant
            k <= v@.len(),
            forall|m: int| 0 <= m < k ==> (#[trigger] v@[m]).0@ != name@,
        decreases v.len() - k,
    {
        if str_eq(v[k].0.as_str(), name) {
            return true;
        }
        k = k + 1;
    }
    false
}

/// Some edge of `v` names module `s`.
pub open spec fn lists_name(v: Seq<(String, Span)>, s: Seq<char>) -> bool {
    exists|m: int| 0 <= m < v.len() && (#[trigger] v[m]).0@ == s
}

/// Edges as plain values.
pub open spec fn edges_view(v: Seq<(String, Span)>) -> Seq<(Seq<char>, Span)> {
    v.map_values(|e: (String, Span)| (e.0@, e.1))
}

/// Some edge of `v` names module `s`.
pub open spec fn names_module(v: Seq<(Seq<char>, Span)>, s: Seq<char>) -> bool {
    exists|m: int| 0 <= m < v.len() && (#[trigger] v[m]).0 == s
}

/// The edges of `v` in order, each module name at its first occurrence only.
pub open spec fn first_of_each(v: Seq<(Seq<char>, Span)>) -> Seq<(Seq<char>, Span)>
    decreases v.len(),
{
    if v.len() == 0 {
        v
    } else {
        let before = first_of_each(v.drop_last());
        if names_module(before, v.last().0) {
            before
        } else {
            before.push(v.last())
        }
    }
}

/// The names of `v` in order, each at its first occurrence only.
pub open spec fn dedup_names(v: Seq<Seq<char>>) -> Seq<Seq<char>>
    decreases v.len(),
{
    if v.len() == 0 {
        v
    } else {
        let before = dedup_names(v.drop_last());
        if before.contains(v.last()) {
            before
        } else {
            before.push(v.last())
        }
    }
}

/// The module names that the `import` lines of `text` name, each once, in
/// order: the imports the loader follows from a module with this text.
pub open spec fn scanned_names(text: Seq<char>) -> Seq<Seq<char>> {
    dedup_names(import_lines(text, 0, 1).map_values(|e: (Seq<char>, int, int, int)| e.0))
}

pub open spec fn edge_names(v: Seq<(Seq<char>, Span)>) -> Seq<Seq<char>> {
    v.map_values(|e: (Seq<char>, Span)| e.0)
}

proof fn lemma_first_of_each_names(v: Seq<(Seq<char>, Span)>)
    ensures
        edge_names(first_of_each(v)) == dedup_names(edge_names(v)),
    decreases v.len(),
{
    if v.len() > 0 {
        lemma_first_of_each_names(v.drop_last());
        let before = first_of_each(v.drop_last());
        assert(edge_names(v).drop_last() =~= edge_names(v.drop_last()));
        assert(edge_names(v).last() == v.last().0);
        let bn = edge_names(before);
        if names_module(before, v.last().0) {
            let m = choose|m: int| 0 <= m < before.len() && (#[trigger] before[m]).0 == v.last().0;
            assert(bn[m] == v.last().0);
        } else {
            if bn.contains(v.last().0) {
                let m = choose|m: int| 0 <= m < bn.len() && bn[m] == v.last().0;
                assert(before[m].0 == v.last().0);
            }
            assert(edge_names(before.push(v.last())) =~= bn.push(v.last().0));
        }
    }
}

/// The import names of the edges that `first_occurrences` keeps from a scan
/// of `text` are the scanned names of `text`.
proof fn lemma_scanned_names(text: Seq<char>, v: Seq<(String, Span)>, r: Seq<(String, Span)>)
    requires
        scan_view(v) == import_lines(text, 0, 1),
        edges_view(r) == first_of_each(edges_view(v)),
    ensures
        import_names(r) == scanned_names(text),
{
    lemma_first_of_each_names(edges_view(v));
    assert(import_names(r) =~= edge_names(edges_view(r)));
    assert(edge_names(edges_view(v)) =~= import_lines(text, 0, 1).map_values(
        |e: (Seq<char>, int, int, int)| e.0,
    ));
}

/// The modules that the `import` commands among `cmds` name, each with the
/// command's span, in source order.
pub open spec fn command_imports(cmds: Seq<Command>) -> Seq<(Seq<char>, Span)>
    decreases cmds.len(),
{
    if cmds.len() == 0 {
        Seq::empty()
    } else {
        let before = command_imports(cmds.drop_last());
        match cmds.last() {
            Command::Import { module, .. } => before.push((module@, cmds.last().spec_span())),
            _ => before,
        }
    }
}

/// `v` without later repetitions of a module name.
fn first_occurrences(v: Vec<(String, Span)>) -> (r: Vec<(String, Span)>)
    ensures
        names_distinct(r@),
        edges_view(r@) == first_of_each(edges_view(v@)),
        forall|k: int| 0 <= k < r@.len() ==> v@.contains(#[trigger] r@[k]),
        forall|k: int| 0 <= k < v@.len() ==> lists_name(r@, (#[trigger] v@[k]).0@),
{
    let mut out: Vec<(String, Span)> = Vec::new();
    let mut i: usize = 0;
    while i < v.len()
        invariant
            i <= v@.len(),
            names_distinct(out@),
            forall|k: int| 0 <= k < out@.len() ==> v@.contains(#[trigger] out@[k]),
            forall|k: int| 0 <= k < i ==> lists_name(out@, (#[trigger] v@[k]).0@),
            edges_view(out@) == first_of_each(edges_view(v@.take(i as int))),
        decreases v.len() - i,
    {
        proof {
            assert(edges_view(v@.take(i as int + 1)).drop_last() =~= edges_view(v@.take(i as int)));
            assert(edges_view(v@.take(i as int + 1)).last() == (v@[i as int].0@, v@[i as int].1));
            let ev = edges_view(out@);
            if names_module(ev, v@[i as int].0@) {
                let m = choose|m: int| 0 <= m < ev.len() && (#[trigger] ev[m]).0 == v@[i as int].0@;
                assert(out@[m].0@ == v@[i as int].0@);
            }
            if lists_name(out@, v@[i as int].0@) {
                let m = choose|m: int| 0 <= m < out@.len() && (#[trigger] out@[m]).0@ == v@[i as int].0@;
                assert(ev[m].0 == v@[i as int].0@);
            }
        }
        if !edge_listed(&out, v[i].0.as_str()) {
            let ghost before = out@;
            out.push((v[i].0.clone(), v[i].1));
            proof {
                assert(out@[out@.len() - 1] == v@[i as int]);
                assert(v@.contains(v@[i as int]));
                assert forall|k: int| 0 <= k < i + 1 implies lists_name(out@, (#[trigger] v@[k]).0@) by {
                    if k < i {
                        assert(lists_name(before, v@[k].0@));
                        let m = choose|m: int| 0 <= m < before.len() && (#[trigger] before[m]).0@ == v@[k].0@;
                        assert(out@[m] == before[m]);
                    } else {
                        assert(out@[out@.len() - 1].0@ == v@[k].0@);
                    }
                };
                assert forall|k: int| 0 <= k < out@.len() implies v@.contains(#[trigger] out@[k]) by {
                    if k < before.len() {
                        assert(out@[k] == before[k]);
                    }
                };
                assert(edges_view(out@) =~= edges_view(before).push((v@[i as int].0@, v@[i as int].1)));
            }
        }
        i = i + 1;
    }
    proof {
        assert(v@.take(v@.len() as int) == v@);
    }
    out
}

/// The message for a module file that could not be read.
pub open spec fn unreadable_text(shown: Seq<char>, error: Seq<char>) -> Seq<char> {
    "读不到模块文件 "@ + shown + "："@ + error
}

/// `b` starts with the diagnostics of `a`.
pub open spec fn diag_prefix(a: Seq<ProjectDiagnostic>, b: Seq<ProjectDiagnostic>) -> bool {
    a.len() <= b.len() && b.subrange(0, a.len() as int) == a
}

proof fn lemma_diag_prefix_trans(a: Seq<ProjectDiagnostic>, b: Seq<ProjectDiagnostic>, c: Seq<ProjectDiagnostic>)
    requires
        diag_prefix(a, b),
        diag_prefix(b, c),
    ensures
        diag_prefix(a, c),
{
    assert(c.subrange(0, a.len() as int) =~= b.subrange(0, a.len() as int));
}

proof fn lemma_diag_prefix_push(a: Seq<ProjectDiagnostic>, b: Seq<ProjectDiagnostic>)
    requires
        b.drop_last() == a,
        b.len() == a.len() + 1,
    ensures
        diag_prefix(a, b),
{
    assert(b.subrange(0, a.len() as int) =~= b.drop_last());
}

/// Every notation declaration has a usable precedence.
pub open spec fn decls_prec_ok(v: Seq<NotationDecl>) -> bool {
    forall|k: int| 0 <= k < v.len() ==> prec_ok((#[trigger] v[k]).precedence)
}

/// A notation declaration as plain values: symbol, precedence,
/// associativity, target, scope, span and declaring module.
pub type NotationView = (
    Seq<char>,
    Option<u16>,
    crate::ast::NotationAssoc,
    Seq<char>,
    Option<Seq<char>>,
    Span,
    Option<Seq<char>>,
);

pub open spec fn notation_view(d: NotationDecl) -> NotationView {
    (
        d.symbol@,
        d.precedence,
        d.assoc,
        d.target@,
        match d.scope {
            Some(s) => Some(s@),
            None => None,
        },
        d.span,
        match d.module {
            Some(m) => Some(m@),
            None => None,
        },
    )
}

pub open spec fn table_view(t: Seq<NotationDecl>) -> Seq<NotationView> {
    t.map_values(|d: NotationDecl| notation_view(d))
}

/// The first index from `k` on whose entry declares `symbol`.
pub open spec fn symbol_index(t: Seq<NotationView>, symbol: Seq<char>, k: int) -> Option<int>
    decreases t.len() - k,
{
    if k < 0 || k >= t.len() {
        None
    } else if t[k].0 == symbol {
        Some(k)
    } else {
        symbol_index(t, symbol, k + 1)
    }
}

/// The table after adding `d`: it takes the place of the first entry of its
/// symbol, or comes last.
pub open spec fn shadowed(t: Seq<NotationView>, d: NotationView) -> Seq<NotationView> {
    match symbol_index(t, d.0, 0) {
        Some(k) => t.update(k, d),
        None => t.push(d),
    }
}

/// The notation that a command declares, as declared by `module`.
pub open spec fn command_notation(c: Command, module: Seq<char>) -> Option<NotationView> {
    match c {
        Command::Notation { symbol, precedence, assoc, target, scope, span } => Some(
            (
                symbol@,
                precedence,
                assoc,
                target@,
                match scope {
                    Some(s) => Some(s@),
                    None => None,
                },
                span,
                Some(module),
            ),
        ),
        _ => None,
    }
}

/// The table after adding, in order, the notations that `cmds` declare.
pub open spec fn absorbed(t: Seq<NotationView>, cmds: Seq<Command>, module: Seq<char>) -> Seq<NotationView>
    decreases cmds.len(),
{
    if cmds.len() == 0 {
        t
    } else {
        let before = absorbed(t, cmds.drop_last(), module);
        match command_notation(cmds.last(), module) {
            Some(d) => shadowed(before, d),
            None => before,
        }
    }
}

/// Add `decl` to a notation table: it replaces the entry of the same
/// symbol (shadowing), or comes last.
fn shadow_notation(table: &mut Vec<NotationDecl>, decl: NotationDecl)
    requires
        decls_prec_ok(old(table)@),
        prec_ok(decl.precedence),
    ensures
        decls_prec_ok(final(table)@),
        table_view(final(table)@) == shadowed(table_view(old(table)@), notation_view(decl)),
{
    let mut k: usize = 0;
    while k < table.len()
        invariant
            k <= table@.len(),
            table@ == old(table)@,
            decls_prec_ok(table@),
            prec_ok(decl.precedence),
            symbol_index(table_view(table@), decl.symbol@, k as int) == symbol_index(
                table_view(table@),
                decl.symbol@,
                0,
            ),
        decreases table.len() - k,
    {
        proof {
            assert(table_view(table@)[k as int] == notation_view(table@[k as int]));
        }
        if str_eq(table[k].symbol.as_str(), decl.symbol.as_str()) {
            let ghost p = decl.precedence;
            let ghost before = table@;
            let ghost d = decl;
            table.set(k, decl);
            proof {
                assert(table_view(table@) =~= table_view(before).update(k as int, notation_view(d)));
                assert forall|m: int| 0 <= m < table@.len() implies prec_ok((#[trigger] table@[m]).precedence) by {
                    if m == k {
                        assert(table@[m].precedence == p);
                    } else {
                        assert(table@[m] == before[m]);
                        assert(prec_ok(before[m].precedence));
                    }
                };
            }
            return ;
        }
        k = k + 1;
    }
    let ghost before = table@;
    let ghost d = decl;
    table.push(decl);
    proof {
        assert(table_view(table@) =~= table_view(before).push(notation_view(d)));
    }
}

/// Add the notations that `file` itself declares to `table`, recording
/// `module` as where they are declared.
fn absorb_notations(file: &FolFile, table: &mut Vec<NotationDecl>, module: &str)
    requires
        notations_prec_ok(file.commands@),
        decls_prec_ok(old(table)@),
    ensures
        decls_prec_ok(final(table)@),
        table_view(final(table)@) == absorbed(table_view(old(table)@), file.commands@, module@),
{
    let mut k: usize = 0;
    while k < file.commands.len()
        invariant
            k <= file.commands@.len(),
            notations_prec_ok(file.commands@),
            decls_prec_ok(table@),
            table_view(table@) == absorbed(table_view(old(table)@), file.commands@.take(k as int), module@),
        decreases file.commands.len() - k,
    {
        proof {
            assert(notation_prec_ok(file.commands@[k as int]));
            assert(file.commands@.take(k as int + 1).drop_last() == file.commands@.take(k as int));
            assert(file.commands@.take(k as int + 1).last() == file.commands@[k as int]);
        }
        match file.commands[k].notation_decl() {
            Some(decl) => {
                let mut decl = decl;
                decl.module = Some(String::from_str(module));
                shadow_notation(table, decl);
            },
            None => {},
        }
        k = k + 1;
    }
    proof {
        assert(file.commands@.take(file.commands@.len() as int) == file.commands@);
    }
}

/// The edges that a parsed file's `import` commands give (source order,
/// each name once).
fn import_edges(file: &FolFile) -> (r: Vec<(String, Span)>)
    ensures
        names_distinct(r@),
        edges_view(r@) == first_of_each(command_imports(file.commands@)),
{
    let mut edges: Vec<(String, Span)> = Vec::new();
    let mut k: usize = 0;
    while k < file.commands.len()
        invariant
            k <= file.commands@.len(),
            edges_view(edges@) == command_imports(file.commands@.take(k as int)),
        decreases file.commands.len() - k,
    {
        let command = &file.commands[k];
        proof {
            assert(file.commands@.take(k as int + 1).drop_last() == file.commands@.take(k as int));
            assert(file.commands@.take(k as int + 1).last() == file.commands@[k as int]);
        }
        match command.import_module() {
            Some(raw) => {
                let ghost before = edges@;
                let e = (String::from_str(raw), command.span());
                edges.push(e);
                proof {
                    assert(edges_view(edges@) =~= edges_view(before).push((e.0@, e.1)));
                }
            },
            None => {},
        }
        k = k + 1;
    }
    proof {
        assert(file.commands@.take(file.commands@.len() as int) == file.commands@);
    }
    first_occurrences(edges)
}

/// `Path::display`, as text.
#[verifier::external_body]
fn path_display(path: &PathBuf) -> String {
    path.display().to_string()
}

/// `Path::file_name`, as (lossy) text.
#[verifier::external_body]
fn path_file_name(path: &PathBuf) -> Option<String> {
    path.file_name().map(|name| name.to_string_lossy().into_owned())
}

/// The message for a module that was not found, with the clues.
fn missing_message(missing: &MissingModule) -> (r: String)
    ensures
        exists|expected: Seq<char>, case_name: Seq<char>, dash_names: Seq<char>|
            r@ == #[trigger] missing_text(
                missing.module@,
                expected,
                missing.case_mismatch is Some,
                case_name,
                missing.dash_candidates@.len(),
                dash_names,
            ),
{
    let expected = path_display(&missing.expected);
    let mut message = concat4("找不到模块 `", missing.module.as_str(), "`（期望 ", expected.as_str());
    message.append("）");
    let ghost case_name: Seq<char> = Seq::empty();
    let ghost dash_names: Seq<char> = Seq::empty();
    match &missing.case_mismatch {
        Some(case_hit) => {
            let name = match path_file_name(case_hit) {
                Some(name) => name,
                None => String::new(),
            };
            message.append("；磁盘上是 `");
            message.append(name.as_str());
            message.append("`——模块名大小写必须完全一致");
            proof {
                case_name = name@;
            }
        },
        None => {},
    }
    let ghost with_case = message@;
    if missing.dash_candidates.len() > 0 {
        let mut names = String::new();
        let mut first = true;
        let mut k: usize = 0;
        while k < missing.dash_candidates.len()
            decreases missing.dash_candidates.len() - k,
        {
            match path_file_name(&missing.dash_candidates[k]) {
                Some(name) => {
                    if !first {
                        names.append(" / ");
                    }
                    names.append(name.as_str());
                    first = false;
                },
                None => {},
            }
            k = k + 1;
        }
        message.append("；文件名的 `-` 不是模块名字符，你是不是想 import ");
        message.append(names.as_str());
        message.append("？");
        proof {
            dash_names = names@;
        }
    }
    assert(message@ == missing_text(
        missing.module@,
        expected@,
        missing.case_mismatch is Some,
        case_name,
        missing.dash_candidates@.len(),
        dash_names,
    ));
    message
}

/// The message for a missing module: what was expected where, then (where
/// there is one) the file found in another letter case, then (where there
/// are any) the files whose name has a `-`.
pub open spec fn missing_text(
    module: Seq<char>,
    expected: Seq<char>,
    has_case: bool,
    case_name: Seq<char>,
    dash_count: nat,
    dash_names: Seq<char>,
) -> Seq<char> {
    let head = "找不到模块 `"@ + module + "`（期望 "@ + expected + "）"@;
    let with_case = if has_case {
        head + "；磁盘上是 `"@ + case_name + "`——模块名大小写必须完全一致"@
    } else {
        head
    };
    if dash_count > 0 {
        with_case + "；文件名的 `-` 不是模块名字符，你是不是想 import "@ + dash_names + "？"@
    } else {
        with_case
    }
}


/// A module whose imports are being followed.
struct Frame {
    name: String,
    path: PathBuf,
    text: String,
    /// The edges found by scanning the text (each name once).
    imports: Vec<(String, Span)>,
    /// The next import to follow.
    next: usize,
    /// Something went wrong with one of its imports.
    failed: bool,
}

/// What the loader waits for.
enum Waiting {
    /// The text of the module `name`, at `path`.
    Read { name: String, path: PathBuf },
    /// Where the module named by the current import of the top frame is.
    Resolve { module: ModuleName },
    /// Nothing: the closure is complete.
    Finished,
    /// Between two steps.
    Idle,
}

/// The input the loader needs next.
pub enum LoadRequest<'a> {
    /// The text of the module file at this path.
    Read(&'a PathBuf),
    /// The lookup of this module name below the module root.
    Resolve(&'a ModuleName),
    /// The closure is complete.
    Done,
}

/// Loads the closure of an entry module depth-first: dependencies are
/// entered in `import` order and recorded after their own dependencies
/// (post-order), so the entry comes last. Each module is loaded once; an
/// edge back to a module still being loaded is an import cycle. The
/// loader asks for file texts and module lookups and is given them.
pub struct ClosureLoader {
    entry: String,
    modules: Vec<LoadedModule>,
    diagnostics: Vec<ProjectDiagnostic>,
    /// The notation table each loaded module exports (its own and the
    /// inherited ones).
    exports: Vec<(String, Vec<NotationDecl>)>,
    stack: Vec<Frame>,
    waiting: Waiting,
    /// For each loaded module, the names of the imports that were followed
    /// from it.
    followed: Ghost<Map<Seq<char>, Seq<Seq<char>>>>,
}

/// The names of the modules.
pub open spec fn module_names(mods: Seq<LoadedModule>) -> Seq<Seq<char>> {
    mods.map_values(|m: LoadedModule| m.name@)
}

spec fn frame_names(frames: Seq<Frame>) -> Seq<Seq<char>> {
    frames.map_values(|f: Frame| f.name@)
}

/// No name occurs twice.
pub open spec fn all_distinct(s: Seq<Seq<char>>) -> bool {
    forall|i: int, j: int| 0 <= i < j < s.len() ==> s[i] != s[j]
}

/// Frames have not run past their imports, and every frame below the top
/// is in the middle of following one.
spec fn frames_ok(frames: Seq<Frame>) -> bool {
    &&& forall|k: int| 0 <= k < frames.len() ==> (#[trigger] frames[k]).next <= frames[k].imports@.len()
    &&& forall|k: int| 0 <= k < frames.len() - 1 ==> (#[trigger] frames[k]).next < frames[k].imports@.len()
}

/// A diagnostic of a module that could not be loaded as written: an
/// import not found, an import cycle, or a text that does not parse.
pub open spec fn is_load_error(k: ProjectKind) -> bool {
    k == ProjectKind::Error(ProjectErrorKind::ImportNotFound) || k == ProjectKind::Error(
        ProjectErrorKind::ImportCycle,
    ) || k == ProjectKind::Error(ProjectErrorKind::ImportModuleInvalid)
}

/// The names of import edges.
pub open spec fn import_names(v: Seq<(String, Span)>) -> Seq<Seq<char>> {
    v.map_values(|e: (String, Span)| e.0@)
}

/// `b` keeps every entry of `a`.
pub open spec fn followed_grows(a: Map<Seq<char>, Seq<Seq<char>>>, b: Map<Seq<char>, Seq<Seq<char>>>) -> bool {
    forall|k: Seq<char>| #[trigger] a.contains_key(k) ==> b.contains_key(k) && b[k] == a[k]
}

proof fn lemma_followed_trans(
    a: Map<Seq<char>, Seq<Seq<char>>>,
    b: Map<Seq<char>, Seq<Seq<char>>>,
    c: Map<Seq<char>, Seq<Seq<char>>>,
)
    requires
        followed_grows(a, b),
        followed_grows(b, c),
    ensures
        followed_grows(a, c),
{
    assert forall|k: Seq<char>| a.contains_key(k) implies c.contains_key(k) && c[k] == a[k] by {
        assert(b.contains_key(k));
    };
}

/// Unfinished work: for each frame, its imports still to follow, plus one.
spec fn work(frames: Seq<Frame>) -> nat
    decreases frames.len(),
{
    if frames.len() == 0 {
        0
    } else {
        work(frames.drop_last()) + (frames.last().imports@.len() - frames.last().next) as nat + 1
    }
}

spec fn exports_ok(exports: Seq<(String, Vec<NotationDecl>)>) -> bool {
    forall|k: int| 0 <= k < exports.len() ==> decls_prec_ok((#[trigger] exports[k]).1@)
}

fn find_module(mods: &Vec<LoadedModule>, name: &str) -> (r: bool)
    ensures
        r == module_names(mods@).contains(name@),
{
    let mut k: usize = 0;
    while k < mods.len()
        invariant
            k <= mods@.len(),
            forall|m: int| 0 <= m < k ==> (#[trigger] mods@[m]).name@ != name@,
        decreases mods.len() - k,
    {
        if str_eq(mods[k].name.as_str(), name) {
            proof {
                assert(module_names(mods@)[k as int] == name@);
            }
            return true;
        }
        k = k + 1;
    }
    proof {
        if module_names(mods@).contains(name@) {
            let m = choose|m: int| 0 <= m < module_names(mods@).len() && module_names(mods@)[m] == name@;
            assert(mods@[m].name@ == name@);
        }
    }
    false
}

/// Where a frame named `name` is on the stack.
fn find_frame(frames: &Vec<Frame>, name: &str) -> (r: Option<usize>)
    ensures
        r matches Some(k) ==> k < frames@.len() && frames@[k as int].name@ == name@,
        r is None <==> !frame_names(frames@).contains(name@),
{
    let mut k: usize = 0;
    while k < frames.len()
        invariant
            k <= frames@.len(),
            forall|m: int| 0 <= m < k ==> (#[trigger] frames@[m]).name@ != name@,
        decreases frames.len() - k,
    {
        if str_eq(frames[k].name.as_str(), name) {
            proof {
                assert(frame_names(frames@)[k as int] == name@);
            }
            return Some(k);
        }
        k = k + 1;
    }
    proof {
        if frame_names(frames@).contains(name@) {
            let m = choose|m: int| 0 <= m < frame_names(frames@).len() && frame_names(frames@)[m] == name@;
            assert(frames@[m].name@ == name@);
        }
    }
    None
}

/// The index of the first module's exports under `name`, if any.
fn find_exports(exports: &Vec<(String, Vec<NotationDecl>)>, name: &str) -> (r: Option<usize>)
    ensures
        r matches Some(k) ==> k < exports@.len() && exports@[k as int].0@ == name@ && forall|m: int|
            0 <= m < k ==> (#[trigger] exports@[m]).0@ != name@,
        r is None ==> forall|m: int| 0 <= m < exports@.len() ==> (#[trigger] exports@[m]).0@ != name@,
{
    let mut k: usize = 0;
    while k < exports.len()
        invariant
            k <= exports@.len(),
            forall|m: int| 0 <= m < k ==> (#[trigger] exports@[m]).0@ != name@,
        decreases exports.len() - k,
    {
        if str_eq(exports[k].0.as_str(), name) {
            return Some(k);
        }
        k = k + 1;
    }
    None
}

proof fn lemma_work_top(frames: Seq<Frame>, f: Frame)
    requires
        frames.len() > 0,
        f.imports == frames.last().imports,
        f.next == frames.last().next + 1,
        frames.last().next < frames.last().imports@.len(),
    ensures
        work(frames.drop_last().push(f)) + 1 == work(frames),
{
    assert(frames.drop_last().push(f).drop_last() =~= frames.drop_last());
}

/// A name that is in neither part keeps a distinct list distinct, added at
/// the end of either part.
proof fn lemma_distinct_add(m: Seq<Seq<char>>, f: Seq<Seq<char>>, n: Seq<char>)
    requires
        all_distinct(m + f),
        !m.contains(n),
        !f.contains(n),
    ensures
        all_distinct(m.push(n) + f),
        all_distinct(m + f.push(n)),
{
    let a = m + f;
    let b = m.push(n) + f;
    assert forall|i: int, j: int| 0 <= i < j < b.len() implies b[i] != b[j] by {
        let ii = if i < m.len() { i } else if i == m.len() { -1 } else { i - 1 };
        let jj = if j < m.len() { j } else if j == m.len() { -1 } else { j - 1 };
        if i == m.len() {
            assert(b[i] == n);
            assert(b[j] == f[j - m.len() - 1]);
        } else if j == m.len() {
            assert(b[j] == n);
            assert(b[i] == m[i]);
        } else {
            assert(b[i] == a[ii]);
            assert(b[j] == a[jj]);
        }
    };
    let c = m + f.push(n);
    assert(c =~= a.push(n));
    assert forall|i: int, j: int| 0 <= i < j < c.len() implies c[i] != c[j] by {
        if j == a.len() {
            if i < m.len() {
                assert(c[i] == m[i]);
            } else {
                assert(c[i] == f[i - m.len()]);
            }
        }
    };
}

proof fn lemma_work_pop(frames: Seq<Frame>)
    requires
        frames.len() > 0,
    ensures
        work(frames.drop_last()) < work(frames),
{
}

impl ClosureLoader {
    /// The state is consistent: the frames are well formed, each module
    /// and frame name occurs once, the entry is the bottom frame and, once
    /// finished, the last module.
    pub closed spec fn inv(&self) -> bool {
        &&& frames_ok(self.stack@)
        &&& forall|k: int| 0 <= k < self.modules@.len() ==> !(#[trigger] self.modules@[k]).blocked
        &&& all_distinct(module_names(self.modules@) + frame_names(self.stack@))
        &&& self.stack@.len() > 0 ==> self.stack@[0].name@ == self.entry@
        &&& exports_ok(self.exports@)
        &&& match self.waiting {
            Waiting::Read { name, .. } => {
                &&& !module_names(self.modules@).contains(name@)
                &&& !frame_names(self.stack@).contains(name@)
                &&& (self.stack@.len() == 0 ==> name@ == self.entry@ && self.modules@.len() == 0)
                &&& (self.stack@.len() > 0 ==> self.stack@.last().next < self.stack@.last().imports@.len())
            },
            Waiting::Resolve { .. } => self.stack@.len() > 0 && self.stack@.last().next
                < self.stack@.last().imports@.len(),
            Waiting::Finished => self.stack@.len() == 0 && self.modules@.len() > 0
                && self.modules@.last().name@ == self.entry@,
            Waiting::Idle => false,
        }
    }

    /// The order of loading: each module's followed imports name an
    /// earlier module unless the module failed; each frame's followed
    /// imports are loaded unless it failed; each frame above the bottom is
    /// the current import of the frame below it, as is the module waited
    /// for.
    pub closed spec fn law(&self) -> bool {
        &&& forall|i: int|
            0 <= i < self.modules@.len() ==> self.followed@.contains_key(#[trigger] self.modules@[i].name@)
        &&& forall|k: Seq<char>| #[trigger] self.followed@.contains_key(k) ==> module_names(self.modules@).contains(k)
        &&& forall|i: int|
            0 <= i < self.modules@.len() ==> self.followed@[(#[trigger] self.modules@[i]).name@] == scanned_names(
                self.modules@[i].file.src@,
            )
        &&& forall|k: int|
            0 <= k < self.stack@.len() ==> import_names((#[trigger] self.stack@[k]).imports@) == scanned_names(
                self.stack@[k].text@,
            )
        &&& forall|j: int|
            0 <= j < self.diagnostics@.len() && is_load_error((#[trigger] self.diagnostics@[j]).kind)
                ==> self.marked_failed(self.diagnostics@[j].module@)
        &&& forall|i: int, u: int|
            0 <= i < self.modules@.len() && 0 <= u < self.followed@[self.modules@[i].name@].len()
                ==> #[trigger] self.modules@[i].failed || module_names(self.modules@).take(i).contains(
                #[trigger] self.followed@[self.modules@[i].name@][u],
            )
        &&& forall|k: int, u: int|
            0 <= k < self.stack@.len() && 0 <= u < self.stack@[k].next ==> (#[trigger] self.stack@[k]).failed
                || module_names(self.modules@).contains(#[trigger] self.stack@[k].imports@[u].0@)
        &&& forall|k: int|
            0 <= k < self.stack@.len() - 1 ==> (#[trigger] self.stack@[k + 1]).name@
                == self.stack@[k].imports@[self.stack@[k].next as int].0@
        &&& match self.waiting {
            Waiting::Read { name, .. } => self.stack@.len() > 0 ==> name@ == self.stack@.last().imports@[self.stack@.last().next as int].0@,
            Waiting::Resolve { module } => crate::module_name::join_dot(module.spec_components())
                == self.stack@.last().imports@[self.stack@.last().next as int].0@,
            _ => true,
        }
    }

    /// The module or frame named `name` is marked failed.
    pub closed spec fn marked_failed(&self, name: Seq<char>) -> bool {
        ||| exists|k: int| 0 <= k < self.stack@.len() && (#[trigger] self.stack@[k]).name@ == name && self.stack@[k].failed
        ||| exists|i: int|
            0 <= i < self.modules@.len() && (#[trigger] self.modules@[i]).name@ == name && self.modules@[i].failed
    }

    /// Frames that keep their names and failures, and the same modules,
    /// keep every mark.
    proof fn lemma_marks_kept(a: ClosureLoader, b: ClosureLoader)
        requires
            a.stack@.len() == b.stack@.len(),
            forall|k: int|
                0 <= k < a.stack@.len() ==> (#[trigger] b.stack@[k]).name == a.stack@[k].name && (a.stack@[k].failed
                    ==> b.stack@[k].failed),
            b.modules == a.modules,
        ensures
            forall|name: Seq<char>| #[trigger] a.marked_failed(name) ==> b.marked_failed(name),
    {
        assert forall|name: Seq<char>| #[trigger] a.marked_failed(name) implies b.marked_failed(name) by {
            if exists|k: int| 0 <= k < a.stack@.len() && (#[trigger] a.stack@[k]).name@ == name && a.stack@[k].failed {
                let k = choose|k: int| 0 <= k < a.stack@.len() && (#[trigger] a.stack@[k]).name@ == name && a.stack@[k].failed;
                assert(b.stack@[k].name@ == name);
            }
        };
    }

    /// The top frame become the last module (failed when it had failed):
    /// every mark is kept.
    proof fn lemma_marks_moved(a: ClosureLoader, b: ClosureLoader)
        requires
            a.stack@.len() > 0,
            b.stack@ == a.stack@.drop_last(),
            b.modules@.len() == a.modules@.len() + 1,
            b.modules@.drop_last() == a.modules@,
            b.modules@.last().name == a.stack@.last().name,
            a.stack@.last().failed ==> b.modules@.last().failed,
        ensures
            forall|name: Seq<char>| #[trigger] a.marked_failed(name) ==> b.marked_failed(name),
    {
        assert forall|name: Seq<char>| #[trigger] a.marked_failed(name) implies b.marked_failed(name) by {
            if exists|k: int| 0 <= k < a.stack@.len() && (#[trigger] a.stack@[k]).name@ == name && a.stack@[k].failed {
                let k = choose|k: int| 0 <= k < a.stack@.len() && (#[trigger] a.stack@[k]).name@ == name && a.stack@[k].failed;
                if k < a.stack@.len() - 1 {
                    assert(b.stack@[k] == a.stack@[k]);
                } else {
                    assert(b.modules@[a.modules@.len() as int].name@ == name);
                }
            } else {
                let i = choose|i: int|
                    0 <= i < a.modules@.len() && (#[trigger] a.modules@[i]).name@ == name && a.modules@[i].failed;
                assert(b.modules@[i] == a.modules@[i]);
            }
        };
    }

    /// A frame or a module added: every mark is kept.
    proof fn lemma_marks_grown(a: ClosureLoader, b: ClosureLoader)
        requires
            a.stack@.len() <= b.stack@.len(),
            b.stack@.take(a.stack@.len() as int) == a.stack@,
            a.modules@.len() <= b.modules@.len(),
            b.modules@.take(a.modules@.len() as int) == a.modules@,
        ensures
            forall|name: Seq<char>| #[trigger] a.marked_failed(name) ==> b.marked_failed(name),
    {
        assert forall|name: Seq<char>| #[trigger] a.marked_failed(name) implies b.marked_failed(name) by {
            if exists|k: int| 0 <= k < a.stack@.len() && (#[trigger] a.stack@[k]).name@ == name && a.stack@[k].failed {
                let k = choose|k: int| 0 <= k < a.stack@.len() && (#[trigger] a.stack@[k]).name@ == name && a.stack@[k].failed;
                assert(b.stack@.take(a.stack@.len() as int)[k] == b.stack@[k]);
            } else {
                let i = choose|i: int|
                    0 <= i < a.modules@.len() && (#[trigger] a.modules@[i]).name@ == name && a.modules@[i].failed;
                assert(b.modules@.take(a.modules@.len() as int)[i] == b.modules@[i]);
            }
        };
    }

    /// The followed imports of each loaded module.
    pub closed spec fn spec_followed_map(&self) -> Map<Seq<char>, Seq<Seq<char>>> {
        self.followed@
    }

    /// The names of the imports followed from module `name`.
    pub closed spec fn spec_followed(&self, name: Seq<char>) -> Seq<Seq<char>> {
        self.followed@[name]
    }

    /// The loading is complete.
    pub closed spec fn spec_done(&self) -> bool {
        self.waiting is Finished
    }

    pub closed spec fn spec_entry(&self) -> Seq<char> {
        self.entry@
    }

    /// The modules known so far: loaded, or on the stack being loaded.
    pub closed spec fn spec_known(&self) -> Set<Seq<char>> {
        module_names(self.modules@).to_set().union(frame_names(self.stack@).to_set())
    }

    /// The module whose location is wanted.
    pub closed spec fn spec_wanted(&self) -> Seq<char> {
        match self.waiting {
            Waiting::Resolve { module } => crate::module_name::join_dot(module.spec_components()),
            _ => Seq::empty(),
        }
    }

    /// The diagnostics recorded so far.
    pub closed spec fn spec_diagnostics(&self) -> Seq<ProjectDiagnostic> {
        self.diagnostics@
    }

    /// The module whose current import is being followed.
    pub closed spec fn spec_importer(&self) -> Seq<char> {
        self.stack@.last().name@
    }

    /// The span of the import being followed.
    pub closed spec fn spec_import_span(&self) -> Span {
        self.stack@.last().imports@[self.stack@.last().next as int].1
    }

    /// The module whose text is wanted.
    pub closed spec fn spec_reading(&self) -> Seq<char> {
        match self.waiting {
            Waiting::Read { name, .. } => name@,
            _ => Seq::empty(),
        }
    }

    /// A module text is wanted.
    pub closed spec fn wants_text(&self) -> bool {
        self.waiting is Read
    }

    /// A module lookup is wanted.
    pub closed spec fn wants_lookup(&self) -> bool {
        self.waiting is Resolve
    }

    /// The core of [`ClosureLoader::inv`], between two steps.
    closed spec fn moving(&self) -> bool {
        &&& frames_ok(self.stack@)
        &&& forall|k: int| 0 <= k < self.modules@.len() ==> !(#[trigger] self.modules@[k]).blocked
        &&& all_distinct(module_names(self.modules@) + frame_names(self.stack@))
        &&& self.stack@.len() > 0
        &&& self.stack@[0].name@ == self.entry@
        &&& exports_ok(self.exports@)
        &&& self.waiting is Idle
    }

    /// Start loading the closure of `entry` (the module at `path`); `src` is
    /// its text when the caller has it (an unsaved buffer), else it is read.
    pub fn start(entry: String, path: PathBuf, src: Option<String>) -> (r: Self)
        ensures
            r.inv(),
            r.law(),
            r.spec_entry() == entry@,
    {
        let mut loader = ClosureLoader {
            entry: entry.clone(),
            modules: Vec::new(),
            diagnostics: Vec::new(),
            exports: Vec::new(),
            stack: Vec::new(),
            waiting: Waiting::Read { name: entry, path },
            followed: Ghost(Map::empty()),
        };
        proof {
            assert(module_names(loader.modules@) + frame_names(loader.stack@) =~= Seq::<Seq<char>>::empty());
        }
        match src {
            Some(text) => loader.supply_text(Ok(text)),
            None => {},
        }
        loader
    }

    /// What the loader needs next.
    pub fn request(&self) -> (r: LoadRequest<'_>)
        requires
            self.inv(),
        ensures
            r is Done <==> self.spec_done(),
            r is Read <==> self.wants_text(),
            r is Resolve <==> self.wants_lookup(),
    {
        match &self.waiting {
            Waiting::Read { path, .. } => LoadRequest::Read(path),
            Waiting::Resolve { module } => LoadRequest::Resolve(module),
            Waiting::Finished => LoadRequest::Done,
            Waiting::Idle => LoadRequest::Done,
        }
    }

    /// The top frame goes on with its next import.
    fn step_past_import(&mut self)
        requires
            old(self).stack@.len() > 0,
            old(self).stack@.last().next < old(self).stack@.last().imports@.len(),
            frames_ok(old(self).stack@),
        ensures
            final(self).stack@.len() == old(self).stack@.len(),
            work(final(self).stack@) + 1 == work(old(self).stack@),
            frame_names(final(self).stack@) == frame_names(old(self).stack@),
            frames_ok(final(self).stack@),
            final(self).stack@[0].name == old(self).stack@[0].name,
            final(self).modules == old(self).modules,
            final(self).diagnostics == old(self).diagnostics,
            final(self).exports == old(self).exports,
            final(self).entry == old(self).entry,
            final(self).waiting == old(self).waiting,
            final(self).spec_known() == old(self).spec_known(),
            final(self).followed == old(self).followed,
            old(self).law() && old(self).waiting is Idle && (old(self).stack@.last().failed || module_names(
                old(self).modules@,
            ).contains(old(self).stack@.last().imports@[old(self).stack@.last().next as int].0@)) ==> final(self).law(),
    {
        let top = self.stack.len() - 1;
        let ghost before = self.stack@;
        proof {
            assert(self.stack@[top as int].imports@.len() == self.stack@[top as int].imports.len());
        }
        self.stack[top].next = self.stack[top].next + 1;
        proof {
            assert(self.stack@ =~= before.drop_last().push(self.stack@[top as int]));
            lemma_work_top(before, self.stack@[top as int]);
            assert(frame_names(self.stack@) =~= frame_names(before));
            assert forall|k: int| 0 <= k < before.len() implies (#[trigger] self.stack@[k]).name == before[k].name
                && (before[k].failed ==> self.stack@[k].failed) by {
                if k < top {
                    assert(self.stack@[k] == before[k]);
                }
            };
            Self::lemma_marks_kept(*old(self), *self);
            if old(self).law() && old(self).waiting is Idle && (before.last().failed || module_names(
                self.modules@,
            ).contains(before.last().imports@[before.last().next as int].0@)) {
                assert forall|k: int, u: int|
                    0 <= k < self.stack@.len() && 0 <= u < self.stack@[k].next implies (#[trigger] self.stack@[k]).failed
                        || module_names(self.modules@).contains(#[trigger] self.stack@[k].imports@[u].0@) by {
                    if k < top {
                        assert(self.stack@[k] == before[k]);
                    } else if u < before[k].next {
                        assert(before[k].imports == self.stack@[k].imports);
                    }
                };
                assert forall|k: int| 0 <= k < self.stack@.len() - 1 implies (#[trigger] self.stack@[k + 1]).name@
                    == self.stack@[k].imports@[self.stack@[k].next as int].0@ by {
                    assert(self.stack@[k] == before[k]);
                    if k + 1 < top {
                        assert(self.stack@[k + 1] == before[k + 1]);
                    }
                };
            }
        }
    }

    /// Record a project error of the top frame at its current import.
    fn import_error(&mut self, kind: ProjectErrorKind, message: String)
        requires
            old(self).stack@.len() > 0,
            old(self).stack@.last().next < old(self).stack@.last().imports@.len(),
            frames_ok(old(self).stack@),
        ensures
            final(self).stack@.len() == old(self).stack@.len(),
            work(final(self).stack@) == work(old(self).stack@),
            frame_names(final(self).stack@) == frame_names(old(self).stack@),
            frames_ok(final(self).stack@),
            final(self).stack@.last().next == old(self).stack@.last().next,
            final(self).stack@.last().imports == old(self).stack@.last().imports,
            final(self).stack@[0].name == old(self).stack@[0].name,
            final(self).stack@.drop_last() == old(self).stack@.drop_last(),
            final(self).stack@.last().failed,
            final(self).stack@.last().name == old(self).stack@.last().name,
            final(self).stack@.last().text == old(self).stack@.last().text,
            final(self).diagnostics@.drop_last() == old(self).diagnostics@,
            final(self).diagnostics@.len() == old(self).diagnostics@.len() + 1,
            ({
                let d = final(self).diagnostics@.last();
                &&& d.kind == ProjectKind::Error(kind)
                &&& d.message == message
                &&& d.module == old(self).stack@.last().name
                &&& d.path is Some
                &&& d.span == Some(
                    old(self).stack@.last().imports@[old(self).stack@.last().next as int].1,
                )
            }),
            final(self).modules == old(self).modules,
            final(self).exports == old(self).exports,
            final(self).entry == old(self).entry,
            final(self).waiting == old(self).waiting,
            final(self).spec_known() == old(self).spec_known(),
            final(self).followed == old(self).followed,
            old(self).law() ==> final(self).law(),
            final(self).stack@.last().imports == old(self).stack@.last().imports,
    {
        let top = self.stack.len() - 1;
        let ghost before = self.stack@;
        let ghost diags = self.diagnostics@;
        let span = self.stack[top].imports[self.stack[top].next].1;
        let module = self.stack[top].name.clone();
        let path = self.stack[top].path.clone();
        self.diagnostics.push(
            ProjectDiagnostic {
                kind: ProjectKind::Error(kind),
                message,
                module,
                path: Some(path),
                span: Some(span),
            },
        );
        self.stack[top].failed = true;
        proof {
            assert(self.stack@ =~= before.drop_last().push(self.stack@[top as int]));
            assert(self.stack@.drop_last() =~= before.drop_last());
            assert(frame_names(self.stack@) =~= frame_names(before));
            assert(self.diagnostics@.drop_last() =~= diags);
            assert forall|k: int| 0 <= k < before.len() implies (#[trigger] self.stack@[k]).name == before[k].name
                && (before[k].failed ==> self.stack@[k].failed) by {
                if k < top {
                    assert(self.stack@[k] == before[k]);
                }
            };
            Self::lemma_marks_kept(*old(self), *self);
            if old(self).law() {
                assert forall|j: int|
                    0 <= j < self.diagnostics@.len() && is_load_error((#[trigger] self.diagnostics@[j]).kind)
                        implies self.marked_failed(self.diagnostics@[j].module@) by {
                    if j < diags.len() {
                        assert(self.diagnostics@[j] == diags[j]);
                        assert(old(self).marked_failed(diags[j].module@));
                    } else {
                        assert(self.stack@[top as int].name@ == self.diagnostics@[j].module@);
                    }
                };
                assert forall|k: int, u: int|
                    0 <= k < self.stack@.len() && 0 <= u < self.stack@[k].next implies (#[trigger] self.stack@[k]).failed
                        || module_names(self.modules@).contains(#[trigger] self.stack@[k].imports@[u].0@) by {
                    if k < top {
                        assert(self.stack@[k] == before[k]);
                    }
                };
                assert forall|k: int| 0 <= k < self.stack@.len() - 1 implies (#[trigger] self.stack@[k + 1]).name@
                    == self.stack@[k].imports@[self.stack@[k].next as int].0@ by {
                    assert(self.stack@[k] == before[k]);
                    if k + 1 < top {
                        assert(self.stack@[k + 1] == before[k + 1]);
                    }
                };
            }
        }
    }

    /// Follow imports until a lookup or a text is needed, or the closure is
    /// complete.
    fn advance(&mut self)
        requires
            old(self).moving(),
            old(self).law(),
        ensures
            final(self).inv(),
            final(self).entry == old(self).entry,
            diag_prefix(old(self).diagnostics@, final(self).diagnostics@),
            final(self).spec_known() == old(self).spec_known(),
            final(self).law(),
            followed_grows(old(self).followed@, final(self).followed@),
    {
        proof {
            assert(self.diagnostics@.subrange(0, self.diagnostics@.len() as int) =~= self.diagnostics@);
        }
        loop
            invariant
                self.moving(),
                self.entry == old(self).entry,
                diag_prefix(old(self).diagnostics@, self.diagnostics@),
                self.spec_known() == old(self).spec_known(),
                self.law(),
                followed_grows(old(self).followed@, self.followed@),
            decreases work(self.stack@),
        {
            let ghost d0 = self.diagnostics@;
            let ghost f0 = self.followed@;
            let ghost s0 = *self;
            let top = self.stack.len() - 1;
            if self.stack[top].next < self.stack[top].imports.len() {
                let dep = self.stack[top].imports[self.stack[top].next].0.clone();
                match ModuleName::parse(dep.as_str()) {
                    Err(_) => {
                        let message = concat3("`", dep.as_str(), "` 不是合法的模块名");
                        self.import_error(ProjectErrorKind::ImportNotFound, message);
                        proof {
                            lemma_diag_prefix_push(d0, self.diagnostics@);
                        }
                        self.step_past_import();
                    },
                    Ok(dep_name) => {
                        let dep_text = dep_name.as_str();
                        if str_eq(dep_text.as_str(), self.stack[top].name.as_str()) {
                            let name = self.stack[top].name.clone();
                            let message = concat4("import 成环：", name.as_str(), " → ", name.as_str());
                            self.import_error(ProjectErrorKind::ImportCycle, message);
                            proof {
                                lemma_diag_prefix_push(d0, self.diagnostics@);
                            }
                            self.step_past_import();
                        } else {
                            proof {
                                crate::module_name::lemma_parse_round_trips(dep@);
                            }
                            self.waiting = Waiting::Resolve { module: dep_name };
                            proof {
                                assert forall|k: int| 0 <= k < s0.stack@.len() implies (#[trigger] self.stack@[k]).name
                                    == s0.stack@[k].name && (s0.stack@[k].failed ==> self.stack@[k].failed) by {};
                                Self::lemma_marks_kept(s0, *self);
                                assert(d0.subrange(0, d0.len() as int) =~= d0);
                                lemma_diag_prefix_trans(old(self).diagnostics@, d0, self.diagnostics@);
                            }
                            return ;
                        }
                    },
                }
            } else {
                let finished = self.finish_frame();
                if finished {
                    proof {
                        lemma_diag_prefix_trans(old(self).diagnostics@, d0, self.diagnostics@);
                        lemma_followed_trans(old(self).followed@, f0, self.followed@);
                    }
                    return ;
                }
            }
            proof {
                lemma_diag_prefix_trans(old(self).diagnostics@, d0, self.diagnostics@);
                lemma_followed_trans(old(self).followed@, f0, self.followed@);
            }
        }
    }

    /// Done with the top frame: parse it with the notations its imports
    /// export, record its exports and record it as a loaded module; the
    /// frame below (if any) goes on with its next import. `true` when that
    /// was the entry (the closure is complete).
    #[verifier::rlimit(80)]
    fn finish_frame(&mut self) -> (r: bool)
        requires
            old(self).moving(),
            old(self).stack@.last().next == old(self).stack@.last().imports@.len(),
        ensures
            r ==> final(self).inv(),
            !r ==> final(self).moving() && work(final(self).stack@) < work(old(self).stack@),
            final(self).entry == old(self).entry,
            diag_prefix(old(self).diagnostics@, final(self).diagnostics@),
            final(self).spec_known() == old(self).spec_known(),
            old(self).law() ==> final(self).law(),
            old(self).law() ==> followed_grows(old(self).followed@, final(self).followed@),
    {
        let ghost old_diags = self.diagnostics@;
        let ghost old_followed = self.followed@;
        proof {
            assert(old_diags.subrange(0, old_diags.len() as int) =~= old_diags);
        }
        let ghost old_stack = self.stack@;
        let ghost old_modules = self.modules@;
        let frame = match self.stack.pop() {
            Some(frame) => frame,
            None => {
                return false;
            },
        };
        proof {
            assert(frame == old_stack.last());
            assert(self.stack@ == old_stack.drop_last());
            assert(frame_names(old_stack) =~= frame_names(self.stack@).push(frame.name@));
        }
        let ghost fimports = frame.imports@;
        let ghost ffailed = frame.failed;
        // The notations of the imports, later ones shadowing earlier ones.
        let mut inherited: Vec<NotationDecl> = Vec::new();
        let mut k: usize = 0;
        while k < frame.imports.len()
            invariant
                decls_prec_ok(inherited@),
                exports_ok(self.exports@),
            decreases frame.imports.len() - k,
        {
            match find_exports(&self.exports, frame.imports[k].0.as_str()) {
                Some(e) => {
                    let mut d: usize = 0;
                    while d < self.exports[e].1.len()
                        invariant
                            e < self.exports@.len(),
                            decls_prec_ok(inherited@),
                            exports_ok(self.exports@),
                        decreases self.exports[e as int].1@.len() - d,
                    {
                        proof {
                            assert(decls_prec_ok(self.exports@[e as int].1@));
                            assert(prec_ok(self.exports@[e as int].1@[d as int].precedence));
                        }
                        let decl = clone_notation_decl(&self.exports[e].1[d]);
                        shadow_notation(&mut inherited, decl);
                        d = d + 1;
                    }
                },
                None => {},
            }
            k = k + 1;
        }
        let name = frame.name;
        let (file, imports, parsed) = match parse_with_inherited(frame.text.as_str(), inherited.as_slice()) {
            Ok(file) => {
                let edges = import_edges(&file);
                (file, edges, true)
            },
            Err(diagnostic) => {
                let head = concat3(diagnostic.message.as_str(), "（", name.as_str());
                let message = concat2(head.as_str(), "）");
                self.diagnostics.push(
                    ProjectDiagnostic {
                        kind: ProjectKind::Error(ProjectErrorKind::ImportModuleInvalid),
                        message,
                        module: name.clone(),
                        path: Some(frame.path.clone()),
                        span: Some(diagnostic.span),
                    },
                );
                proof {
                    assert(self.diagnostics@.subrange(0, old_diags.len() as int) =~= old_diags);
                }
                (FolFile { commands: Vec::new(), src: frame.text.clone() }, frame.imports, false)
            },
        };
        let mut table = inherited;
        proof {
            if !parsed {
                assert(file.commands@.len() == 0);
            }
            assert(notations_prec_ok(file.commands@));
        }
        absorb_notations(&file, &mut table, name.as_str());
        let ghost before_exports = self.exports@;
        self.exports.push((name.clone(), table));
        proof {
            assert forall|q: int| 0 <= q < self.exports@.len() implies decls_prec_ok((#[trigger] self.exports@[q]).1@) by {
                if q < before_exports.len() {
                    assert(self.exports@[q] == before_exports[q]);
                }
            };
        }
        let ghost n = name@;
        self.modules.push(
            LoadedModule {
                name,
                path: frame.path,
                file,
                imports,
                failed: frame.failed || !parsed,
                blocked: false,
            },
        );
        proof {
            assert(module_names(self.modules@) =~= module_names(old_modules).push(n));
            let a = module_names(old_modules) + frame_names(old_stack);
            let b = module_names(self.modules@) + frame_names(self.stack@);
            let m = old_modules.len() as int;
            let f = self.stack@.len() as int;
            assert(a.len() == b.len());
            assert forall|i: int| 0 <= i < b.len() implies #[trigger] b[i] == a[if i < m { i } else if i == m { m + f } else { i - 1 }] by {
                if i < m {
                } else if i == m {
                    assert(b[i] == n);
                    assert(a[m + f] == frame_names(old_stack)[f]);
                } else {
                    assert(b[i] == frame_names(self.stack@)[i - m - 1]);
                    assert(a[i - 1] == frame_names(old_stack)[i - 1 - m]);
                }
            };
            assert forall|i: int, j: int| 0 <= i < j < b.len() implies b[i] != b[j] by {
                let ii = if i < m { i } else if i == m { m + f } else { i - 1 };
                let jj = if j < m { j } else if j == m { m + f } else { j - 1 };
                assert(b[i] == a[ii]);
                assert(b[j] == a[jj]);
                assert(ii != jj);
                if ii < jj {
                    assert(a[ii] != a[jj]);
                } else {
                    assert(a[jj] != a[ii]);
                }
            };
        }
        proof {
            module_names(old_modules).lemma_push_to_set_commute(n);
            frame_names(self.stack@).lemma_push_to_set_commute(n);
            assert(self.spec_known() =~= old(self).spec_known());
        }
        self.followed = Ghost(self.followed@.insert(n, import_names(fimports)));
        proof {
            let m = old_modules.len() as int;
            // `n` was no module's name.
            assert forall|i: int| 0 <= i < m implies old_modules[i].name@ != n by {
                let a = module_names(old_modules) + frame_names(old_stack);
                assert(a[i] == old_modules[i].name@);
                assert(a[m + old_stack.len() - 1] == n);
            };
            assert forall|i: int| 0 <= i <= m implies #[trigger] module_names(self.modules@).take(i)
                == module_names(old_modules).take(i) by {
                assert(module_names(self.modules@).take(i) =~= module_names(old_modules).take(i));
            };
            assert(module_names(old_modules).take(m) =~= module_names(old_modules));
            if old(self).law() {
                assert forall|k: Seq<char>| old_followed.contains_key(k) implies self.followed@.contains_key(k)
                    && self.followed@[k] == old_followed[k] by {
                    if k == n {
                        let w = choose|w: int| 0 <= w < module_names(old_modules).len() && module_names(old_modules)[w] == k;
                        assert(old_modules[w].name@ == n);
                    }
                };
                assert forall|k: Seq<char>| self.followed@.contains_key(k) implies module_names(self.modules@).contains(k) by {
                    if k == n {
                        assert(module_names(self.modules@)[m] == n);
                    } else {
                        let w = choose|w: int| 0 <= w < module_names(old_modules).len() && module_names(old_modules)[w] == k;
                        assert(module_names(self.modules@)[w] == k);
                    }
                };
                assert forall|i: int|
                    0 <= i < self.modules@.len() implies self.followed@.contains_key(
                    #[trigger] self.modules@[i].name@,
                ) by {
                    if i < m {
                        assert(self.modules@[i] == old_modules[i]);
                    }
                };
                assert forall|i: int, u: int|
                    0 <= i < self.modules@.len() && 0 <= u < self.followed@[self.modules@[i].name@].len()
                        implies #[trigger] self.modules@[i].failed || module_names(self.modules@).take(i).contains(
                    #[trigger] self.followed@[self.modules@[i].name@][u],
                ) by {
                    if i < m {
                        assert(self.modules@[i] == old_modules[i]);
                        assert(old_modules[i].name@ != n);
                    } else {
                        assert(self.modules@[i].name@ == n);
                        assert(self.followed@[n] == import_names(fimports));
                        assert(import_names(fimports)[u] == fimports[u].0@);
                        assert(old_stack[old_stack.len() - 1].next == fimports.len());
                        assert(old_stack[old_stack.len() - 1].imports@ == fimports);
                        if !ffailed {
                            assert(module_names(old_modules).contains(old_stack[old_stack.len() - 1].imports@[u].0@));
                        }
                    }
                };
                assert forall|k: int, u: int|
                    0 <= k < self.stack@.len() && 0 <= u < self.stack@[k].next implies (#[trigger] self.stack@[k]).failed
                        || module_names(self.modules@).contains(#[trigger] self.stack@[k].imports@[u].0@) by {
                    assert(self.stack@[k] == old_stack[k]);
                    if !self.stack@[k].failed {
                        let w = choose|w: int| 0 <= w < module_names(old_modules).len() && module_names(old_modules)[w]
                            == self.stack@[k].imports@[u].0@;
                        assert(module_names(self.modules@)[w] == module_names(old_modules)[w]);
                    }
                };
                assert forall|k: int| 0 <= k < self.stack@.len() - 1 implies (#[trigger] self.stack@[k + 1]).name@
                    == self.stack@[k].imports@[self.stack@[k].next as int].0@ by {
                    assert(self.stack@[k] == old_stack[k]);
                    assert(self.stack@[k + 1] == old_stack[k + 1]);
                };
                if self.stack@.len() > 0 {
                    let t = self.stack@.len() - 1;
                    assert(old_stack[t + 1].name@ == n);
                    assert(old_stack[t].imports@[old_stack[t].next as int].0@ == n);
                    assert(module_names(self.modules@)[m] == n);
                }
                assert(self.modules@.drop_last() =~= old_modules);
                Self::lemma_marks_moved(*old(self), *self);
                assert forall|j: int|
                    0 <= j < self.diagnostics@.len() && is_load_error((#[trigger] self.diagnostics@[j]).kind)
                        implies self.marked_failed(self.diagnostics@[j].module@) by {
                    if j < old_diags.len() {
                        assert(self.diagnostics@[j] == old_diags[j]);
                        assert(old(self).marked_failed(old_diags[j].module@));
                    } else {
                        assert(self.modules@[m].name@ == self.diagnostics@[j].module@);
                        assert(self.modules@[m].failed);
                    }
                };
            }
        }
        if self.stack.len() == 0 {
            self.waiting = Waiting::Finished;
            proof {
                assert(n == old_stack[0].name@);
                assert(self.modules@.last().name@ == n);
            }
            return true;
        }
        proof {
            assert(self.stack@[0] == old_stack[0]);
            lemma_work_pop(old_stack);
            assert(self.stack@.last() == old_stack[old_stack.len() - 2]);
        }
        self.step_past_import();
        false
    }

    /// Go on with the current import of the top frame after it was entered
    /// or given up.
    fn go_on(&mut self)
        requires
            old(self).moving(),
            old(self).stack@.last().next < old(self).stack@.last().imports@.len(),
            old(self).law(),
            old(self).stack@.last().failed || module_names(old(self).modules@).contains(
                old(self).stack@.last().imports@[old(self).stack@.last().next as int].0@,
            ),
        ensures
            final(self).inv(),
            final(self).entry == old(self).entry,
            diag_prefix(old(self).diagnostics@, final(self).diagnostics@),
            final(self).spec_known() == old(self).spec_known(),
            final(self).law(),
            followed_grows(old(self).followed@, final(self).followed@),
    {
        self.step_past_import();
        let ghost d0 = self.diagnostics@;
        self.advance();
        proof {
            assert(d0.subrange(0, d0.len() as int) =~= d0);
        }
    }

    /// Enter the module `name` found at `path` for the current import of
    /// the top frame: a module already loaded is reused, one still being
    /// loaded closes a cycle, any other one is read next.
    fn enter(&mut self, name: String, path: PathBuf)
        requires
            old(self).moving(),
            old(self).stack@.last().next < old(self).stack@.last().imports@.len(),
            old(self).law(),
            name@ == old(self).stack@.last().imports@[old(self).stack@.last().next as int].0@,
        ensures
            final(self).law(),
            followed_grows(old(self).followed@, final(self).followed@),
            final(self).inv(),
            final(self).entry == old(self).entry,
            diag_prefix(old(self).diagnostics@, final(self).diagnostics@),
            final(self).spec_known() == old(self).spec_known(),
            old(self).spec_known().contains(name@) || (final(self).wants_text() && final(self).spec_reading()
                == name@),
    {
        proof {
            assert(self.diagnostics@.subrange(0, self.diagnostics@.len() as int) =~= self.diagnostics@);
        }
        if find_module(&self.modules, name.as_str()) {
            self.go_on();
            return ;
        }
        match find_frame(&self.stack, name.as_str()) {
            Some(from) => {
                // The cycle: the frames from `name` up, then `name` again.
                let mut text = String::new();
                let mut k: usize = from;
                while k < self.stack.len()
                    decreases self.stack.len() - k,
                {
                    text.append(self.stack[k].name.as_str());
                    text.append(" → ");
                    k = k + 1;
                }
                text.append(name.as_str());
                let message = concat2("import 成环：", text.as_str());
                let ghost d0 = self.diagnostics@;
                self.import_error(ProjectErrorKind::ImportCycle, message);
                let ghost d1 = self.diagnostics@;
                proof {
                    lemma_diag_prefix_push(d0, d1);
                }
                self.go_on();
                proof {
                    lemma_diag_prefix_trans(d0, d1, self.diagnostics@);
                }
            },
            None => {
                self.waiting = Waiting::Read { name, path };
            },
        }
    }

    /// The lookup for the current import: enter the module found, or
    /// record what is missing.
    pub fn supply_lookup(&mut self, lookup: Lookup)
        requires
            old(self).inv(),
            old(self).wants_lookup(),
            old(self).law(),
        ensures
            final(self).inv(),
            final(self).law(),
            followed_grows(old(self).spec_followed_map(), final(self).spec_followed_map()),
            final(self).spec_entry() == old(self).spec_entry(),
            diag_prefix(old(self).spec_diagnostics(), final(self).spec_diagnostics()),
            final(self).spec_known() == old(self).spec_known(),
            lookup is Found ==> old(self).spec_known().contains(old(self).spec_wanted()) || (final(self).wants_text()
                && final(self).spec_reading() == old(self).spec_wanted()),
            lookup matches Lookup::Missing(m) ==> final(self).spec_diagnostics().len() > old(
                self,
            ).spec_diagnostics().len() && ({
                let d = final(self).spec_diagnostics()[old(self).spec_diagnostics().len() as int];
                &&& d.kind == ProjectKind::Error(ProjectErrorKind::ImportNotFound)
                &&& d.module@ == old(self).spec_importer()
                &&& d.span == Some(old(self).spec_import_span())
                &&& exists|expected: Seq<char>, case_name: Seq<char>, dash_names: Seq<char>|
                    d.message@ == #[trigger] missing_text(
                        m.module@,
                        expected,
                        m.case_mismatch is Some,
                        case_name,
                        m.dash_candidates@.len(),
                        dash_names,
                    )
            }),
    {
        let mut waiting = Waiting::Idle;
        std::mem::swap(&mut waiting, &mut self.waiting);
        let module = match waiting {
            Waiting::Resolve { module } => module,
            _ => {
                return ;
            },
        };
        match lookup {
            Lookup::Found(path) => self.enter(module.as_str(), path),
            Lookup::Missing(missing) => {
                let message = missing_message(&missing);
                let ghost d0 = self.diagnostics@;
                self.import_error(ProjectErrorKind::ImportNotFound, message);
                let ghost d1 = self.diagnostics@;
                proof {
                    lemma_diag_prefix_push(d0, d1);
                }
                self.go_on();
                proof {
                    lemma_diag_prefix_trans(d0, d1, self.diagnostics@);
                    assert(self.diagnostics@[d0.len() as int] == self.diagnostics@.subrange(0, d1.len() as int)[d0.len() as int]);
                }
            },
        }
    }

    /// The text of the module that was asked for, or why it could not be
    /// read.
    pub fn supply_text(&mut self, text: Result<String, String>)
        requires
            old(self).inv(),
            old(self).wants_text(),
            old(self).law(),
        ensures
            final(self).inv(),
            final(self).law(),
            final(self).spec_entry() == old(self).spec_entry(),
            diag_prefix(old(self).spec_diagnostics(), final(self).spec_diagnostics()),
            final(self).spec_known() == old(self).spec_known().insert(old(self).spec_reading()),
            text matches Err(e) ==> final(self).spec_diagnostics().len() > old(self).spec_diagnostics().len()
                && ({
                let d = final(self).spec_diagnostics()[old(self).spec_diagnostics().len() as int];
                &&& d.kind == ProjectKind::Error(ProjectErrorKind::ImportNotFound)
                &&& d.module@ == old(self).spec_reading()
                &&& d.span is None
                &&& exists|shown: Seq<char>| d.message@ == #[trigger] unreadable_text(shown, e@)
            }),
    {
        let mut waiting = Waiting::Idle;
        std::mem::swap(&mut waiting, &mut self.waiting);
        let (name, path) = match waiting {
            Waiting::Read { name, path } => (name, path),
            _ => {
                return ;
            },
        };
        match text {
            Ok(text) => {
                let scanned = scan_import_lines(text.as_str());
                let ghost sv = scanned@;
                let imports = first_occurrences(scanned);
                proof {
                    lemma_scanned_names(text@, sv, imports@);
                }
                let ghost before = self.stack@;
                let ghost n = name@;
                self.stack.push(Frame { name, path, text, imports, next: 0, failed: false });
                proof {
                    assert(frame_names(self.stack@) =~= frame_names(before).push(n));
                    frame_names(before).lemma_push_to_set_commute(n);
                    assert(self.spec_known() =~= old(self).spec_known().insert(n));
                    lemma_distinct_add(module_names(self.modules@), frame_names(before), n);
                    if before.len() > 0 {
                        assert(self.stack@[0] == before[0]);
                    }
                    assert forall|k: int| 0 <= k < self.stack@.len() - 1 implies (#[trigger] self.stack@[k]).next < self.stack@[k].imports@.len() by {
                        assert(self.stack@[k] == before[k]);
                    };
                    assert forall|k: int, u: int|
                        0 <= k < self.stack@.len() && 0 <= u < self.stack@[k].next implies (#[trigger] self.stack@[k]).failed
                            || module_names(self.modules@).contains(#[trigger] self.stack@[k].imports@[u].0@) by {
                        assert(self.stack@[k] == before[k]);
                    };
                    assert forall|k: int| 0 <= k < self.stack@.len() - 1 implies (#[trigger] self.stack@[k + 1]).name@
                        == self.stack@[k].imports@[self.stack@[k].next as int].0@ by {
                        assert(self.stack@[k] == before[k]);
                        if k + 1 < before.len() {
                            assert(self.stack@[k + 1] == before[k + 1]);
                        }
                    };
                    assert forall|k: int| 0 <= k < self.stack@.len() implies import_names(
                        (#[trigger] self.stack@[k]).imports@,
                    ) == scanned_names(self.stack@[k].text@) by {
                        if k < before.len() {
                            assert(self.stack@[k] == before[k]);
                        }
                    };
                    assert(self.stack@.take(before.len() as int) =~= before);
                    assert(self.modules@.take(self.modules@.len() as int) =~= self.modules@);
                    Self::lemma_marks_grown(*old(self), *self);
                    assert(self.law());
                }
                self.advance();
            },
            Err(error) => {
                let shown = path_display(&path);
                let message = concat4("读不到模块文件 ", shown.as_str(), "：", error.as_str());
                proof {
                    assert(message@ == unreadable_text(shown@, error@));
                }
                let ghost d0 = self.diagnostics@;
                self.diagnostics.push(
                    ProjectDiagnostic {
                        kind: ProjectKind::Error(ProjectErrorKind::ImportNotFound),
                        message,
                        module: name.clone(),
                        path: Some(path.clone()),
                        span: None,
                    },
                );
                let ghost n = name@;
                let ghost old_modules = self.modules@;
                let ghost old_followed = self.followed@;
                self.modules.push(
                    LoadedModule {
                        name,
                        path,
                        file: FolFile { commands: Vec::new(), src: String::new() },
                        imports: Vec::new(),
                        failed: true,
                        blocked: false,
                    },
                );
                proof {
                    assert(module_names(self.modules@) =~= module_names(old_modules).push(n));
                    lemma_distinct_add(module_names(old_modules), frame_names(self.stack@), n);
                    module_names(old_modules).lemma_push_to_set_commute(n);
                    assert(self.spec_known() =~= old(self).spec_known().insert(n));
                }
                self.followed = Ghost(self.followed@.insert(n, Seq::empty()));
                proof {
                    let m = old_modules.len() as int;
                    assert(import_lines(Seq::<char>::empty(), 0, 1) =~= Seq::<(Seq<char>, int, int, int)>::empty());
                    assert(import_lines(Seq::<char>::empty(), 0, 1).map_values(|e: (Seq<char>, int, int, int)| e.0)
                        =~= Seq::<Seq<char>>::empty());
                    assert(scanned_names(self.modules@[m].file.src@) =~= Seq::<Seq<char>>::empty());
                    assert forall|i: int| 0 <= i < self.modules@.len() implies self.followed@[(#[trigger] self.modules@[i]).name@]
                        == scanned_names(self.modules@[i].file.src@) by {
                        if i < m {
                            assert(self.modules@[i] == old_modules[i]);
                            assert(old_modules[i].name@ != n);
                        }
                    };
                    assert forall|i: int| 0 <= i <= m implies #[trigger] module_names(self.modules@).take(i)
                        == module_names(old_modules).take(i) by {
                        assert(module_names(self.modules@).take(i) =~= module_names(old_modules).take(i));
                    };
                    assert(!module_names(old_modules).contains(n));
                    assert forall|i: int|
                        0 <= i < self.modules@.len() implies self.followed@.contains_key(
                        #[trigger] self.modules@[i].name@,
                    ) by {
                        if i < m {
                            assert(self.modules@[i] == old_modules[i]);
                        }
                    };
                    assert forall|k: Seq<char>| #[trigger] self.followed@.contains_key(k) implies module_names(
                        self.modules@,
                    ).contains(k) by {
                        if k == n {
                            assert(module_names(self.modules@)[m] == n);
                        } else {
                            let w = choose|w: int| 0 <= w < module_names(old_modules).len() && module_names(old_modules)[w] == k;
                            assert(module_names(self.modules@)[w] == k);
                        }
                    };
                    assert forall|i: int, u: int|
                        0 <= i < self.modules@.len() && 0 <= u < self.followed@[self.modules@[i].name@].len()
                            implies #[trigger] self.modules@[i].failed || module_names(self.modules@).take(i).contains(
                        #[trigger] self.followed@[self.modules@[i].name@][u],
                    ) by {
                        if i < m {
                            assert(self.modules@[i] == old_modules[i]);
                            assert(old_modules[i].name@ != n);
                        }
                    };
                    assert forall|k: int, u: int|
                        0 <= k < self.stack@.len() && 0 <= u < self.stack@[k].next implies (#[trigger] self.stack@[k]).failed
                            || module_names(self.modules@).contains(#[trigger] self.stack@[k].imports@[u].0@) by {
                        if !self.stack@[k].failed {
                            let w = choose|w: int| 0 <= w < module_names(old_modules).len() && module_names(old_modules)[w]
                                == self.stack@[k].imports@[u].0@;
                            assert(module_names(self.modules@)[w] == module_names(old_modules)[w]);
                        }
                    };
                    if self.stack@.len() > 0 {
                        assert(module_names(self.modules@)[m] == n);
                    }
                    assert(self.stack@.take(self.stack@.len() as int) =~= self.stack@);
                    assert(self.modules@.take(m) =~= old_modules);
                    Self::lemma_marks_grown(*old(self), *self);
                    assert forall|j: int|
                        0 <= j < self.diagnostics@.len() && is_load_error((#[trigger] self.diagnostics@[j]).kind)
                            implies self.marked_failed(self.diagnostics@[j].module@) by {
                        if j < d0.len() {
                            assert(self.diagnostics@[j] == d0[j]);
                            assert(old(self).marked_failed(d0[j].module@));
                        } else {
                            assert(self.modules@[m].name@ == self.diagnostics@[j].module@);
                        }
                    };
                }
                let ghost d1 = self.diagnostics@;
                proof {
                    assert(d1.drop_last() =~= d0);
                    lemma_diag_prefix_push(d0, d1);
                }
                if self.stack.len() == 0 {
                    self.waiting = Waiting::Finished;
                } else {
                    self.go_on();
                }
                proof {
                    if self.diagnostics@ == d1 {
                        assert(d1.subrange(0, d1.len() as int) =~= d1);
                    }
                    lemma_diag_prefix_trans(d0, d1, self.diagnostics@);
                    assert(self.diagnostics@[d0.len() as int] == self.diagnostics@.subrange(0, d1.len() as int)[d0.len() as int]);
                }
            },
        }
    }

    /// The loaded closure, with blocking propagated: the modules in
    /// topological order (the entry last, each name once).
    pub fn finish(self) -> (r: Closure)
        requires
            self.inv(),
            self.spec_done(),
            self.law(),
        ensures
            forall|i: int, u: int|
                0 <= i < r.modules@.len() && 0 <= u < scanned_names(r.modules@[i].file.src@).len()
                    ==> #[trigger] r.modules@[i].failed || module_names(r.modules@).take(i).contains(
                    #[trigger] scanned_names(r.modules@[i].file.src@)[u],
                ),
            forall|j: int, i: int|
                0 <= j < r.diagnostics@.len() && is_load_error((#[trigger] r.diagnostics@[j]).kind) && 0 <= i
                    < r.modules@.len() && (#[trigger] r.modules@[i]).name@ == r.diagnostics@[j].module@
                    ==> r.modules@[i].failed,
            all_distinct(module_names(r.modules@)),
            r.modules@.len() > 0,
            r.modules@.last().name@ == self.spec_entry(),
            r.entry@ == self.spec_entry(),
            blocked_exactly_downstream(r.modules@),
    {
        let notations = match find_exports(&self.exports, self.entry.as_str()) {
            Some(e) => {
                let mut out: Vec<NotationDecl> = Vec::new();
                let mut d: usize = 0;
                while d < self.exports[e].1.len()
                    invariant
                        e < self.exports@.len(),
                    decreases self.exports[e as int].1@.len() - d,
                {
                    out.push(clone_notation_decl(&self.exports[e].1[d]));
                    d = d + 1;
                }
                out
            },
            None => Vec::new(),
        };
        let ghost mods = self.modules@;
        proof {
            assert(module_names(mods) + frame_names(self.stack@) =~= module_names(mods));
        }
        let mut closure = Closure {
            modules: self.modules,
            diagnostics: self.diagnostics,
            entry: self.entry,
            notations,
        };
        let mut extra: Vec<ProjectDiagnostic> = Vec::new();
        let ghost diags = closure.diagnostics@;
        propagate_blocked(&mut closure, &mut extra);
        let ghost added = extra@;
        closure.diagnostics.append(&mut extra);
        proof {
            assert forall|j: int, i: int|
                0 <= j < closure.diagnostics@.len() && is_load_error((#[trigger] closure.diagnostics@[j]).kind) && 0
                    <= i < closure.modules@.len() && (#[trigger] closure.modules@[i]).name@
                    == closure.diagnostics@[j].module@ implies closure.modules@[i].failed by {
                if j < diags.len() {
                    assert(closure.diagnostics@[j] == diags[j]);
                    assert(self.marked_failed(diags[j].module@));
                    let w = choose|w: int|
                        0 <= w < mods.len() && (#[trigger] mods[w]).name@ == diags[j].module@ && mods[w].failed;
                    assert(same_but_blocked(closure.modules@[i], mods[i]));
                    assert(module_names(mods)[w] == module_names(mods)[i]);
                } else {
                    assert(closure.diagnostics@[j] == added[j - diags.len()]);
                }
            };
        }
        proof {
            lemma_propagation_blocks_exactly_downstream(mods, closure.modules@);
            assert(module_names(closure.modules@) =~= module_names(mods)) by {
                assert forall|i: int| 0 <= i < mods.len() implies #[trigger] closure.modules@[i].name == mods[i].name by {
                    assert(same_but_blocked(closure.modules@[i], mods[i]));
                };
            }
            assert(closure.modules@.last().name == mods.last().name) by {
                assert(same_but_blocked(closure.modules@[mods.len() - 1], mods[mods.len() - 1]));
            }
        }
        closure
    }
}

} // verus!
