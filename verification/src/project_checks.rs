//! Closure-level rules applied once the modules are checked: a warning on
//! each `import` of a module that still has open exercises, and the
//! blocking of modules downstream of a module whose check failed.
use crate::graph::{Closure, LoadedModule};
use crate::report::{ModuleReport, ProjectDiagnostic, ProjectErrorKind, ProjectKind, ProjectWarningKind};
use crate::span::Span;
use crate::text::{concat3, str_eq};
use crate::token::contains_string;
use vstd::prelude::*;

verus! {

/// An import edge: the importing module, the imported module, and the
/// span of the `import` line.
pub type Edge = (Seq<char>, Seq<char>, Span);

// ---------------------------------------------------------------------------
// Open exercises.
// ---------------------------------------------------------------------------

/// Some module named `n` still has open exercises.
pub open spec fn has_open_exercises(reports: Seq<ModuleReport>, n: Seq<char>) -> bool {
    exists|i: int| 0 <= i < reports.len() && (#[trigger] reports[i]).open_exercises > 0 && reports[i].name@ == n
}

/// The edges among `imports` (of module `importer`) to a module with open
/// exercises, in order.
pub open spec fn open_edges_of(importer: Seq<char>, imports: Seq<(String, Span)>, reports: Seq<ModuleReport>) -> Seq<
    Edge,
>
    decreases imports.len(),
{
    if imports.len() == 0 {
        Seq::empty()
    } else {
        let prev = open_edges_of(importer, imports.drop_last(), reports);
        if has_open_exercises(reports, imports.last().0@) {
            prev.push((importer, imports.last().0@, imports.last().1))
        } else {
            prev
        }
    }
}

/// The edges of all modules to a module with open exercises, module by
/// module in topological order.
pub open spec fn open_edges(mods: Seq<LoadedModule>, reports: Seq<ModuleReport>) -> Seq<Edge>
    decreases mods.len(),
{
    if mods.len() == 0 {
        Seq::empty()
    } else {
        open_edges(mods.drop_last(), reports) + open_edges_of(mods.last().name@, mods.last().imports@, reports)
    }
}

/// `d` is the warning for edge `e`.
pub open spec fn open_warning(e: Edge, d: ProjectDiagnostic) -> bool {
    &&& d.kind == ProjectKind::Warning(ProjectWarningKind::ImportHasOpenExercises)
    &&& d.module@ == e.0
    &&& d.message@ == "`"@ + e.1 + "` 里还有未完成的练习（`sorry`）：它们对下游不可见"@
    &&& d.span == Some(e.2)
}

/// The names of the modules with open exercises.
fn open_module_names(modules: &[ModuleReport]) -> (r: Vec<String>)
    ensures
        forall|n: Seq<char>| #[trigger] in_list(r@, n) <==> has_open_exercises(modules@, n),
{
    let mut out: Vec<String> = Vec::new();
    let mut i: usize = 0;
    while i < modules.len()
        invariant
            i <= modules@.len(),
            forall|n: Seq<char>| #[trigger] in_list(out@, n) <==> has_open_exercises(modules@.take(i as int), n),
        decreases modules.len() - i,
    {
        let ghost before = out@;
        if modules[i].open_exercises > 0 {
            out.push(modules[i].name.clone());
        }
        proof {
            let t = modules@.take(i + 1);
            assert forall|n: Seq<char>| #[trigger] in_list(out@, n) <==> has_open_exercises(t, n) by {
                lemma_in_list_push(before, modules@[i as int].name, n);
                if has_open_exercises(t, n) {
                    let w = choose|w: int| 0 <= w < t.len() && (#[trigger] t[w]).open_exercises > 0 && t[w].name@ == n;
                    if w < i {
                        assert(modules@.take(i as int)[w] == t[w]);
                    }
                }
                if has_open_exercises(modules@.take(i as int), n) {
                    let w = choose|w: int|
                        0 <= w < i && (#[trigger] modules@.take(i as int)[w]).open_exercises > 0 && modules@.take(
                            i as int,
                        )[w].name@ == n;
                    assert(t[w] == modules@.take(i as int)[w]);
                }
                if out@.len() > before.len() && n == modules@[i as int].name@ {
                    assert(t[i as int] == modules@[i as int]);
                }
            };
        }
        i = i + 1;
    }
    proof {
        assert(modules@.take(modules@.len() as int) =~= modules@);
    }
    out
}

/// `n` is one of the names in `v`.
pub open spec fn in_list(v: Seq<String>, n: Seq<char>) -> bool {
    exists|k: int| 0 <= k < v.len() && (#[trigger] v[k])@ == n
}

proof fn lemma_in_list_push(v: Seq<String>, x: String, n: Seq<char>)
    ensures
        in_list(v.push(x), n) <==> (in_list(v, n) || x@ == n),
{
    if in_list(v.push(x), n) {
        let k = choose|k: int| 0 <= k < v.push(x).len() && (#[trigger] v.push(x)[k])@ == n;
        if k < v.len() {
            assert(v[k] == v.push(x)[k]);
        }
    }
    if in_list(v, n) {
        let k = choose|k: int| 0 <= k < v.len() && (#[trigger] v[k])@ == n;
        assert(v.push(x)[k] == v[k]);
    }
    if x@ == n {
        assert(v.push(x)[v.len() as int] == x);
    }
}

/// A warning on every `import` line that imports a module with open
/// exercises: those holes are not visible downstream.
pub fn collect_open_exercise_warnings(
    closure: &Closure,
    modules: &[ModuleReport],
    diagnostics: &mut Vec<ProjectDiagnostic>,
)
    ensures
        final(diagnostics)@.len() == old(diagnostics)@.len() + open_edges(closure.modules@, modules@).len(),
        final(diagnostics)@.take(old(diagnostics)@.len() as int) == old(diagnostics)@,
        forall|k: int|
            0 <= k < open_edges(closure.modules@, modules@).len() ==> open_warning(
                open_edges(closure.modules@, modules@)[k],
                #[trigger] final(diagnostics)@[old(diagnostics)@.len() + k],
            ),
{
    let ghost old_diags = diagnostics@;
    let ghost mods = closure.modules@;
    let open = open_module_names(modules);
    let mut i: usize = 0;
    proof {
        assert(mods.take(0) =~= Seq::<LoadedModule>::empty());
        assert(diagnostics@.take(old_diags.len() as int) =~= old_diags);
    }
    while i < closure.modules.len()
        invariant
            mods == closure.modules@,
            i <= mods.len(),
            forall|n: Seq<char>| #[trigger] in_list(open@, n) <==> has_open_exercises(modules@, n),
            diagnostics@.len() == old_diags.len() + open_edges(mods.take(i as int), modules@).len(),
            diagnostics@.take(old_diags.len() as int) == old_diags,
            forall|k: int|
                0 <= k < open_edges(mods.take(i as int), modules@).len() ==> open_warning(
                    open_edges(mods.take(i as int), modules@)[k],
                    #[trigger] diagnostics@[old_diags.len() + k],
                ),
        decreases closure.modules.len() - i,
    {
        let module = &closure.modules[i];
        let ghost done_edges = open_edges(mods.take(i as int), modules@);
        let ghost name = module.name@;
        let mut j: usize = 0;
        proof {
            assert(module.imports@.take(0) =~= Seq::<(String, Span)>::empty());
        }
        while j < module.imports.len()
            invariant
                mods == closure.modules@,
                i < mods.len(),
                *module == mods[i as int],
                name == module.name@,
                j <= module.imports@.len(),
                forall|n: Seq<char>| #[trigger] in_list(open@, n) <==> has_open_exercises(modules@, n),
                diagnostics@.len() == old_diags.len() + done_edges.len() + open_edges_of(
                    name,
                    module.imports@.take(j as int),
                    modules@,
                ).len(),
                diagnostics@.take(old_diags.len() as int) == old_diags,
                forall|k: int|
                    0 <= k < (done_edges + open_edges_of(name, module.imports@.take(j as int), modules@)).len()
                        ==> open_warning(
                        (done_edges + open_edges_of(name, module.imports@.take(j as int), modules@))[k],
                        #[trigger] diagnostics@[old_diags.len() + k],
                    ),
            decreases module.imports.len() - j,
        {
            let dep = &module.imports[j].0;
            let span = module.imports[j].1;
            let ghost before = diagnostics@;
            let ghost prefix = open_edges_of(name, module.imports@.take(j as int), modules@);
            proof {
                let t = module.imports@.take(j + 1);
                assert(t.drop_last() =~= module.imports@.take(j as int));
                assert(t.last() == module.imports@[j as int]);
            }
            if contains_string(&open, dep.as_str()) {
                proof {
                    assert(in_list(open@, dep@));
                }
                let message = concat3("`", dep.as_str(), "` 里还有未完成的练习（`sorry`）：它们对下游不可见");
                diagnostics.push(
                    ProjectDiagnostic {
                        kind: ProjectKind::Warning(ProjectWarningKind::ImportHasOpenExercises),
                        message,
                        module: module.name.clone(),
                        path: Some(module.path.clone()),
                        span: Some(span),
                    },
                );
                proof {
                    let all = done_edges + open_edges_of(name, module.imports@.take(j + 1), modules@);
                    assert(all =~= (done_edges + prefix).push((name, dep@, span)));
                    assert forall|k: int| 0 <= k < all.len() implies open_warning(
                        all[k],
                        #[trigger] diagnostics@[old_diags.len() + k],
                    ) by {
                        if k < all.len() - 1 {
                            assert(diagnostics@[old_diags.len() + k] == before[old_diags.len() + k]);
                        }
                    };
                    assert(diagnostics@.take(old_diags.len() as int) =~= old_diags);
                }
            } else {
                proof {
                    if has_open_exercises(modules@, dep@) {
                        assert(in_list(open@, dep@));
                        let k = choose|k: int| 0 <= k < open@.len() && (#[trigger] open@[k])@ == dep@;
                        assert(false);
                    }
                }
            }
            j = j + 1;
        }
        proof {
            assert(module.imports@.take(module.imports@.len() as int) =~= module.imports@);
            let t = mods.take(i + 1);
            assert(t.drop_last() =~= mods.take(i as int));
            assert(t.last() == mods[i as int]);
        }
        i = i + 1;
    }
    proof {
        assert(mods.take(mods.len() as int) =~= mods);
    }
}

// ---------------------------------------------------------------------------
// Modules downstream of a module whose check failed.
// ---------------------------------------------------------------------------

/// A module other than the entry, named `n`, has errors in its report.
pub open spec fn check_failed(reports: Seq<ModuleReport>, entry: Seq<char>, n: Seq<char>) -> bool {
    exists|i: int| 0 <= i < reports.len() && (#[trigger] reports[i]).name@ == n && n != entry && reports[i].errors > 0
}

/// `n` failed its check, or is among the `blocked` names.
pub open spec fn unusable(reports: Seq<ModuleReport>, entry: Seq<char>, blocked: Seq<Seq<char>>, n: Seq<char>) -> bool {
    check_failed(reports, entry, n) || blocked.contains(n)
}

/// The edges among `imports` (of `importer`) to an unusable module.
pub open spec fn failed_edges_of(
    importer: Seq<char>,
    imports: Seq<(String, Span)>,
    reports: Seq<ModuleReport>,
    entry: Seq<char>,
    blocked: Seq<Seq<char>>,
) -> Seq<Edge>
    decreases imports.len(),
{
    if imports.len() == 0 {
        Seq::empty()
    } else {
        let prev = failed_edges_of(importer, imports.drop_last(), reports, entry, blocked);
        if unusable(reports, entry, blocked, imports.last().0@) {
            prev.push((importer, imports.last().0@, imports.last().1))
        } else {
            prev
        }
    }
}

/// Module `m` is passed over: it failed its check itself or is blocked
/// already.
pub open spec fn passed_over(m: LoadedModule, reports: Seq<ModuleReport>, entry: Seq<char>, blocked: Seq<Seq<char>>) -> bool {
    check_failed(reports, entry, m.name@) || blocked.contains(m.name@)
}

/// The names blocked after deciding the first `k` modules, in order: a
/// module that is not passed over and imports an unusable module is
/// blocked (the topological order decides upstream first).
pub open spec fn blocked_after(mods: Seq<LoadedModule>, reports: Seq<ModuleReport>, entry: Seq<char>, k: nat) -> Seq<
    Seq<char>,
>
    decreases k,
{
    if k == 0 || k > mods.len() {
        Seq::empty()
    } else {
        let prev = blocked_after(mods, reports, entry, (k - 1) as nat);
        let m = mods[k - 1];
        if !passed_over(m, reports, entry, prev) && failed_edges_of(m.name@, m.imports@, reports, entry, prev).len()
            > 0 {
            prev.push(m.name@)
        } else {
            prev
        }
    }
}

/// The `import-dependency-failed` edges found while deciding the first `k`
/// modules.
pub open spec fn dependency_failed_edges(
    mods: Seq<LoadedModule>,
    reports: Seq<ModuleReport>,
    entry: Seq<char>,
    k: nat,
) -> Seq<Edge>
    decreases k,
{
    if k == 0 || k > mods.len() {
        Seq::empty()
    } else {
        let prev = blocked_after(mods, reports, entry, (k - 1) as nat);
        let m = mods[k - 1];
        dependency_failed_edges(mods, reports, entry, (k - 1) as nat) + if passed_over(m, reports, entry, prev) {
            Seq::empty()
        } else {
            failed_edges_of(m.name@, m.imports@, reports, entry, prev)
        }
    }
}

/// `d` is the `import-dependency-failed` error for edge `e`.
pub open spec fn dependency_failed(e: Edge, d: ProjectDiagnostic) -> bool {
    &&& d.kind == ProjectKind::Error(ProjectErrorKind::ImportDependencyFailed)
    &&& d.module@ == e.0
    &&& d.message@ == "`"@ + e.1 + "` 没有编译成功，所以这里先不编译——先修好它的第一条错误"@
    &&& d.span == Some(e.2)
}

/// The names of the modules other than the entry whose reports hold errors.
fn failed_module_names(modules: &[ModuleReport], entry: &str) -> (r: Vec<String>)
    ensures
        forall|n: Seq<char>| #[trigger] in_list(r@, n) <==> check_failed(modules@, entry@, n),
{
    let mut out: Vec<String> = Vec::new();
    let mut i: usize = 0;
    while i < modules.len()
        invariant
            i <= modules@.len(),
            forall|n: Seq<char>| #[trigger] in_list(out@, n) <==> check_failed(modules@.take(i as int), entry@, n),
        decreases modules.len() - i,
    {
        let ghost before = out@;
        if modules[i].errors > 0 && !str_eq(modules[i].name.as_str(), entry) {
            out.push(modules[i].name.clone());
        }
        proof {
            let t = modules@.take(i + 1);
            assert forall|n: Seq<char>| #[trigger] in_list(out@, n) <==> check_failed(t, entry@, n) by {
                lemma_in_list_push(before, modules@[i as int].name, n);
                if check_failed(t, entry@, n) {
                    let w = choose|w: int| 0 <= w < t.len() && (#[trigger] t[w]).name@ == n && n != entry@ && t[w].errors > 0;
                    if w < i {
                        assert(modules@.take(i as int)[w] == t[w]);
                    }
                }
                if check_failed(modules@.take(i as int), entry@, n) {
                    let w = choose|w: int|
                        0 <= w < i && (#[trigger] modules@.take(i as int)[w]).name@ == n && n != entry@
                            && modules@.take(i as int)[w].errors > 0;
                    assert(t[w] == modules@.take(i as int)[w]);
                }
                if out@.len() > before.len() && n == modules@[i as int].name@ {
                    assert(t[i as int] == modules@[i as int]);
                }
            };
        }
        i = i + 1;
    }
    proof {
        assert(modules@.take(modules@.len() as int) =~= modules@);
    }
    out
}

/// `v` holds the names `s`, in order.
pub open spec fn names_are(v: Seq<String>, s: Seq<Seq<char>>) -> bool {
    &&& v.len() == s.len()
    &&& forall|k: int| 0 <= k < v.len() ==> (#[trigger] v[k])@ == s[k]
}

proof fn lemma_names_contains(v: Seq<String>, s: Seq<Seq<char>>, n: Seq<char>)
    requires
        names_are(v, s),
    ensures
        in_list(v, n) <==> s.contains(n),
{
    if in_list(v, n) {
        let k = choose|k: int| 0 <= k < v.len() && (#[trigger] v[k])@ == n;
        assert(s[k] == n);
    }
    if s.contains(n) {
        let k = choose|k: int| 0 <= k < s.len() && s[k] == n;
        assert(v[k]@ == n);
    }
}

/// A module downstream of a module (other than the entry) whose check
/// failed keeps no results: every `import` line of it that names a failed
/// or blocked module gets an `import-dependency-failed`. The topological
/// order decides upstream first. The blocked module names, in order.
pub fn block_on_compile_failures(
    closure: &Closure,
    modules: &[ModuleReport],
    diagnostics: &mut Vec<ProjectDiagnostic>,
) -> (r: Vec<String>)
    ensures
        names_are(r@, blocked_after(closure.modules@, modules@, closure.entry@, closure.modules@.len() as nat)),
        final(diagnostics)@.len() == old(diagnostics)@.len() + dependency_failed_edges(
            closure.modules@,
            modules@,
            closure.entry@,
            closure.modules@.len() as nat,
        ).len(),
        final(diagnostics)@.take(old(diagnostics)@.len() as int) == old(diagnostics)@,
        forall|k: int|
            0 <= k < dependency_failed_edges(
                closure.modules@,
                modules@,
                closure.entry@,
                closure.modules@.len() as nat,
            ).len() ==> dependency_failed(
                dependency_failed_edges(closure.modules@, modules@, closure.entry@, closure.modules@.len() as nat)[k],
                #[trigger] final(diagnostics)@[old(diagnostics)@.len() + k],
            ),
{
    let ghost old_diags = diagnostics@;
    let ghost mods = closure.modules@;
    let ghost entry = closure.entry@;
    let broken = failed_module_names(modules, closure.entry.as_str());
    let mut blocked: Vec<String> = Vec::new();
    let mut i: usize = 0;
    proof {
        assert(diagnostics@.take(old_diags.len() as int) =~= old_diags);
    }
    while i < closure.modules.len()
        invariant
            mods == closure.modules@,
            entry == closure.entry@,
            i <= mods.len(),
            forall|n: Seq<char>| #[trigger] in_list(broken@, n) <==> check_failed(modules@, entry, n),
            names_are(blocked@, blocked_after(mods, modules@, entry, i as nat)),
            diagnostics@.len() == old_diags.len() + dependency_failed_edges(mods, modules@, entry, i as nat).len(),
            diagnostics@.take(old_diags.len() as int) == old_diags,
            forall|k: int|
                0 <= k < dependency_failed_edges(mods, modules@, entry, i as nat).len() ==> dependency_failed(
                    dependency_failed_edges(mods, modules@, entry, i as nat)[k],
                    #[trigger] diagnostics@[old_diags.len() + k],
                ),
        decreases closure.modules.len() - i,
    {
        let module = &closure.modules[i];
        let ghost prev = blocked_after(mods, modules@, entry, i as nat);
        let ghost done_edges = dependency_failed_edges(mods, modules@, entry, i as nat);
        let ghost name = module.name@;
        proof {
            lemma_names_contains(blocked@, prev, name);
        }
        if contains_string(&broken, module.name.as_str()) || contains_string(&blocked, module.name.as_str()) {
            proof {
                assert(in_list(broken@, name) || in_list(blocked@, name));
                assert(passed_over(mods[i as int], modules@, entry, prev));
                assert(blocked_after(mods, modules@, entry, i as nat + 1) == prev);
                assert(dependency_failed_edges(mods, modules@, entry, i as nat + 1) =~= done_edges);
            }
            i = i + 1;
            continue;
        }
        proof {
            if passed_over(mods[i as int], modules@, entry, prev) {
                if check_failed(modules@, entry, name) {
                    assert(in_list(broken@, name));
                } else {
                    assert(in_list(blocked@, name));
                }
            }
        }
        let mut hit = false;
        let mut j: usize = 0;
        proof {
            assert(module.imports@.take(0) =~= Seq::<(String, Span)>::empty());
            assert(done_edges + failed_edges_of(name, module.imports@.take(0), modules@, entry, prev) =~= done_edges);
        }
        while j < module.imports.len()
            invariant
                mods == closure.modules@,
                entry == closure.entry@,
                i < mods.len(),
                *module == mods[i as int],
                name == module.name@,
                j <= module.imports@.len(),
                forall|n: Seq<char>| #[trigger] in_list(broken@, n) <==> check_failed(modules@, entry, n),
                names_are(blocked@, prev),
                hit == (failed_edges_of(name, module.imports@.take(j as int), modules@, entry, prev).len() > 0),
                diagnostics@.len() == old_diags.len() + (done_edges + failed_edges_of(
                    name,
                    module.imports@.take(j as int),
                    modules@,
                    entry,
                    prev,
                )).len(),
                diagnostics@.take(old_diags.len() as int) == old_diags,
                forall|k: int|
                    0 <= k < (done_edges + failed_edges_of(name, module.imports@.take(j as int), modules@, entry, prev)).len()
                        ==> dependency_failed(
                        (done_edges + failed_edges_of(name, module.imports@.take(j as int), modules@, entry, prev))[k],
                        #[trigger] diagnostics@[old_diags.len() + k],
                    ),
            decreases module.imports.len() - j,
        {
            let dep = &module.imports[j].0;
            let span = module.imports[j].1;
            let ghost before = diagnostics@;
            let ghost prefix = failed_edges_of(name, module.imports@.take(j as int), modules@, entry, prev);
            proof {
                let t = module.imports@.take(j + 1);
                assert(t.drop_last() =~= module.imports@.take(j as int));
                assert(t.last() == module.imports@[j as int]);
                lemma_names_contains(blocked@, prev, dep@);
            }
            if contains_string(&broken, dep.as_str()) || contains_string(&blocked, dep.as_str()) {
                proof {
                    assert(in_list(broken@, dep@) || in_list(blocked@, dep@));
                    assert(unusable(modules@, entry, prev, dep@));
                }
                let message = concat3(
                    "`",
                    dep.as_str(),
                    "` 没有编译成功，所以这里先不编译——先修好它的第一条错误",
                );
                diagnostics.push(
                    ProjectDiagnostic {
                        kind: ProjectKind::Error(ProjectErrorKind::ImportDependencyFailed),
                        message,
                        module: module.name.clone(),
                        path: Some(module.path.clone()),
                        span: Some(span),
                    },
                );
                hit = true;
                proof {
                    let all = done_edges + failed_edges_of(name, module.imports@.take(j + 1), modules@, entry, prev);
                    assert(all =~= (done_edges + prefix).push((name, dep@, span)));
                    assert forall|k: int| 0 <= k < all.len() implies dependency_failed(
                        all[k],
                        #[trigger] diagnostics@[old_diags.len() + k],
                    ) by {
                        if k < all.len() - 1 {
                            assert(diagnostics@[old_diags.len() + k] == before[old_diags.len() + k]);
                        }
                    };
                    assert(diagnostics@.take(old_diags.len() as int) =~= old_diags);
                }
            } else {
                proof {
                    if unusable(modules@, entry, prev, dep@) {
                        if check_failed(modules@, entry, dep@) {
                            assert(in_list(broken@, dep@));
                        } else {
                            assert(in_list(blocked@, dep@));
                        }
                        assert(false);
                    }
                }
            }
            j = j + 1;
        }
        proof {
            assert(module.imports@.take(module.imports@.len() as int) =~= module.imports@);
        }
        if hit {
            blocked.push(module.name.clone());
        }
        proof {
            let next = blocked_after(mods, modules@, entry, i as nat + 1);
            assert(!passed_over(mods[i as int], modules@, entry, prev));
            if hit {
                assert(next == prev.push(name));
            } else {
                assert(next == prev);
            }
            assert(names_are(blocked@, next));
            assert(dependency_failed_edges(mods, modules@, entry, i as nat + 1) == done_edges + failed_edges_of(
                name,
                module.imports@,
                modules@,
                entry,
                prev,
            ));
        }
        i = i + 1;
    }
    blocked
}

} // verus!
