//! The project view: a read-only summary of one project compilation (the
//! closure's modules with their states and counts, and the project-level
//! diagnostics), assembled from what the compilation reported.
use crate::query::{ProjectCounts, ProjectDiagnosticInfo, ProjectModule, ProjectView};
use crate::report::{ModuleReport, ModuleStatus, ProjectDiagnostic, ProjectReport};
use crate::ast::clone_strings;
use crate::text::str_eq;
use vstd::prelude::*;

verus! {

pub open spec fn total_decls(s: Seq<ModuleReport>) -> nat
    decreases s.len(),
{
    if s.len() == 0 {
        0
    } else {
        total_decls(s.drop_last()) + s.last().decls as nat
    }
}

pub open spec fn total_errors(s: Seq<ModuleReport>) -> nat
    decreases s.len(),
{
    if s.len() == 0 {
        0
    } else {
        total_errors(s.drop_last()) + s.last().errors as nat
    }
}

pub open spec fn total_warnings(s: Seq<ModuleReport>) -> nat
    decreases s.len(),
{
    if s.len() == 0 {
        0
    } else {
        total_warnings(s.drop_last()) + s.last().warnings as nat
    }
}

pub open spec fn total_open_exercises(s: Seq<ModuleReport>) -> nat
    decreases s.len(),
{
    if s.len() == 0 {
        0
    } else {
        total_open_exercises(s.drop_last()) + s.last().open_exercises as nat
    }
}

/// How many modules of `s` are in state `st`.
pub open spec fn count_status(s: Seq<ModuleReport>, st: ModuleStatus) -> nat
    decreases s.len(),
{
    if s.len() == 0 {
        0
    } else {
        count_status(s.drop_last(), st) + if s.last().status == st {
            1nat
        } else {
            0nat
        }
    }
}

/// The message of the first diagnostic from index `k` on that belongs to
/// module `name`.
pub open spec fn first_message_from(d: Seq<ProjectDiagnostic>, name: Seq<char>, k: int) -> Option<
    Seq<char>,
>
    decreases d.len() - k,
{
    if k < 0 || k >= d.len() {
        None
    } else if d[k].module@ == name {
        Some(d[k].message@)
    } else {
        first_message_from(d, name, k + 1)
    }
}

/// The text of an optional string.
pub open spec fn opt_text(o: Option<String>) -> Option<Seq<char>> {
    match o {
        Some(s) => Some(s@),
        None => None,
    }
}

/// The entry module's name: the last module's (empty without modules).
pub open spec fn entry_name(s: Seq<ModuleReport>) -> Seq<char> {
    if s.len() == 0 {
        Seq::empty()
    } else {
        s.last().name@
    }
}

/// `row` shows module `m`; the first diagnostic of the module explains a
/// module that did not compile.
pub open spec fn module_row(
    m: ModuleReport,
    entry: Seq<char>,
    d: Seq<ProjectDiagnostic>,
    row: ProjectModule,
) -> bool {
    &&& row.name@ == m.name@
    &&& row.path@ == m.path@
    &&& row.status@ == m.status.spec_code()@
    &&& row.entry == (m.name@ == entry)
    &&& row.imports@ == m.imports@
    &&& row.decls == m.decls
    &&& row.errors == m.errors
    &&& row.warnings == m.warnings
    &&& row.open_exercises == m.open_exercises
    &&& opt_text(row.message) == if m.status == ModuleStatus::Compiled {
        None
    } else {
        first_message_from(d, m.name@, 0)
    }
}

/// `row` shows diagnostic `d`: its code, text, module, severity and byte
/// range (0..0 without a span).
pub open spec fn diagnostic_row(d: ProjectDiagnostic, row: ProjectDiagnosticInfo) -> bool {
    &&& row.code@ == d.kind.spec_code()@
    &&& row.message@ == d.message@
    &&& row.module@ == d.module@
    &&& row.severity@ == if d.kind is Error {
        "error"@
    } else {
        "warning"@
    }
    &&& row.start == match d.span {
        Some(s) => s.start.offset,
        None => 0,
    }
    &&& row.end == match d.span {
        Some(s) => s.end.offset,
        None => 0,
    }
}

proof fn lemma_totals_grow(s: Seq<ModuleReport>, i: int, j: int)
    requires
        0 <= i <= j <= s.len(),
    ensures
        total_decls(s.take(i)) <= total_decls(s.take(j)),
        total_errors(s.take(i)) <= total_errors(s.take(j)),
        total_warnings(s.take(i)) <= total_warnings(s.take(j)),
        total_open_exercises(s.take(i)) <= total_open_exercises(s.take(j)),
    decreases j - i,
{
    if i < j {
        assert(s.take(j).drop_last() =~= s.take(j - 1));
        lemma_totals_grow(s, i, j - 1);
    }
}

proof fn lemma_count_status_bound(s: Seq<ModuleReport>, st: ModuleStatus)
    ensures
        count_status(s, st) <= s.len(),
    decreases s.len(),
{
    if s.len() > 0 {
        lemma_count_status_bound(s.drop_last(), st);
    }
}

/// The message of the first diagnostic that belongs to module `name`.
fn first_message_for(diagnostics: &Vec<ProjectDiagnostic>, name: &str) -> (r: Option<String>)
    ensures
        opt_text(r) == first_message_from(diagnostics@, name@, 0),
{
    let mut k: usize = 0;
    while k < diagnostics.len()
        invariant
            k <= diagnostics@.len(),
            first_message_from(diagnostics@, name@, k as int) == first_message_from(diagnostics@, name@, 0),
        decreases diagnostics.len() - k,
    {
        if str_eq(diagnostics[k].module.as_str(), name) {
            return Some(diagnostics[k].message.clone());
        }
        k = k + 1;
    }
    None
}

fn clone_opt_string(o: &Option<String>) -> (r: Option<String>)
    ensures
        opt_text(r) == opt_text(*o),
{
    match o {
        Some(s) => Some(s.clone()),
        None => None,
    }
}

impl ProjectView {
    /// The view of a project compilation: the entry is the last module in
    /// topological order; each module's row carries its counts, and a module
    /// that did not compile is explained by its first diagnostic; the
    /// counts add up over the modules.
    pub fn from_report(report: &ProjectReport) -> (r: ProjectView)
        requires
            total_decls(report.modules@) <= usize::MAX,
            total_errors(report.modules@) <= usize::MAX,
            total_warnings(report.modules@) <= usize::MAX,
            total_open_exercises(report.modules@) <= usize::MAX,
        ensures
            r.entry@ == entry_name(report.modules@),
            r.root@ == report.root@,
            opt_text(r.manifest) == opt_text(report.manifest),
            opt_text(r.requires_warning) == opt_text(report.requires_warning),
            r.modules@.len() == report.modules@.len(),
            forall|i: int|
                0 <= i < report.modules@.len() ==> module_row(
                    report.modules@[i],
                    entry_name(report.modules@),
                    report.diagnostics@,
                    #[trigger] r.modules@[i],
                ),
            r.diagnostics@.len() == report.diagnostics@.len(),
            forall|k: int|
                0 <= k < report.diagnostics@.len() ==> diagnostic_row(
                    report.diagnostics@[k],
                    #[trigger] r.diagnostics@[k],
                ),
            r.counts.modules == report.modules@.len(),
            r.counts.compiled == count_status(report.modules@, ModuleStatus::Compiled),
            r.counts.failed == count_status(report.modules@, ModuleStatus::LoadFailed),
            r.counts.blocked == count_status(report.modules@, ModuleStatus::Blocked),
            r.counts.decls == total_decls(report.modules@),
            r.counts.errors == total_errors(report.modules@),
            r.counts.warnings == total_warnings(report.modules@),
            r.counts.open_exercises == total_open_exercises(report.modules@),
    {
        let ghost mods = report.modules@;
        let n = report.modules.len();
        let entry = if n == 0 {
            String::new()
        } else {
            report.modules[n - 1].name.clone()
        };
        let mut counts = ProjectCounts {
            modules: n,
            compiled: 0,
            failed: 0,
            blocked: 0,
            decls: 0,
            errors: 0,
            warnings: 0,
            open_exercises: 0,
        };
        let mut modules: Vec<ProjectModule> = Vec::new();
        let mut i: usize = 0;
        proof {
            assert(mods.take(0) =~= Seq::<ModuleReport>::empty());
        }
        while i < n
            invariant
                n == mods.len(),
                mods == report.modules@,
                i <= n,
                entry@ == entry_name(mods),
                total_decls(mods) <= usize::MAX,
                total_errors(mods) <= usize::MAX,
                total_warnings(mods) <= usize::MAX,
                total_open_exercises(mods) <= usize::MAX,
                modules@.len() == i,
                forall|j: int|
                    0 <= j < i ==> module_row(mods[j], entry@, report.diagnostics@, #[trigger] modules@[j]),
                counts.modules == n,
                counts.compiled == count_status(mods.take(i as int), ModuleStatus::Compiled),
                counts.failed == count_status(mods.take(i as int), ModuleStatus::LoadFailed),
                counts.blocked == count_status(mods.take(i as int), ModuleStatus::Blocked),
                counts.decls == total_decls(mods.take(i as int)),
                counts.errors == total_errors(mods.take(i as int)),
                counts.warnings == total_warnings(mods.take(i as int)),
                counts.open_exercises == total_open_exercises(mods.take(i as int)),
            decreases n - i,
        {
            let module = &report.modules[i];
            proof {
                assert(mods.take(i + 1).drop_last() =~= mods.take(i as int));
                assert(mods.take(i + 1).last() == mods[i as int]);
                assert(mods.take(n as int) =~= mods);
                lemma_totals_grow(mods, i + 1, n as int);
                lemma_count_status_bound(mods.take(i as int), ModuleStatus::Compiled);
                lemma_count_status_bound(mods.take(i as int), ModuleStatus::LoadFailed);
                lemma_count_status_bound(mods.take(i as int), ModuleStatus::Blocked);
            }
            counts.decls = counts.decls + module.decls;
            counts.errors = counts.errors + module.errors;
            counts.warnings = counts.warnings + module.warnings;
            counts.open_exercises = counts.open_exercises + module.open_exercises;
            match module.status {
                ModuleStatus::Compiled => counts.compiled = counts.compiled + 1,
                ModuleStatus::LoadFailed => counts.failed = counts.failed + 1,
                ModuleStatus::Blocked => counts.blocked = counts.blocked + 1,
            }
            let message = match module.status {
                ModuleStatus::Compiled => None,
                _ => first_message_for(&report.diagnostics, module.name.as_str()),
            };
            let row = ProjectModule {
                name: module.name.clone(),
                path: module.path.clone(),
                status: String::from_str(module.status.code()),
                entry: str_eq(module.name.as_str(), entry.as_str()),
                imports: clone_strings(&module.imports),
                decls: module.decls,
                errors: module.errors,
                warnings: module.warnings,
                open_exercises: module.open_exercises,
                message,
            };
            modules.push(row);
            i = i + 1;
        }
        proof {
            assert(mods.take(n as int) =~= mods);
        }
        let mut diagnostics: Vec<ProjectDiagnosticInfo> = Vec::new();
        let mut k: usize = 0;
        while k < report.diagnostics.len()
            invariant
                k <= report.diagnostics@.len(),
                diagnostics@.len() == k,
                forall|j: int|
                    0 <= j < k ==> diagnostic_row(report.diagnostics@[j], #[trigger] diagnostics@[j]),
            decreases report.diagnostics.len() - k,
        {
            let d = &report.diagnostics[k];
            let (start, end) = match d.span {
                Some(s) => (s.start.offset, s.end.offset),
                None => (0, 0),
            };
            let severity = if d.kind.is_error() {
                String::from_str("error")
            } else {
                String::from_str("warning")
            };
            diagnostics.push(
                ProjectDiagnosticInfo {
                    code: String::from_str(d.code()),
                    message: d.message.clone(),
                    module: d.module.clone(),
                    severity,
                    start,
                    end,
                },
            );
            k = k + 1;
        }
        ProjectView {
            entry,
            root: report.root.clone(),
            manifest: clone_opt_string(&report.manifest),
            requires_warning: clone_opt_string(&report.requires_warning),
            modules,
            diagnostics,
            counts,
        }
    }
}

} // verus!
