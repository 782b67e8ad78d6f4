//! Project-level diagnostics and the state of a module within one project
//! compilation.
use crate::span::Span;
use crate::text::str_eq;
use std::path::PathBuf;
use vstd::prelude::*;

verus! {

/// A module's state in a project compilation. `Blocked` (an upstream
/// module did not compile) and an empty module are different things.
#[derive(Debug, Clone, Copy, PartialEq, Eq, Structural)]
pub enum ModuleStatus {
    /// Took part in the compilation (its report may still hold errors).
    Compiled,
    /// Failed while loading the closure: file not found, parse error or
    /// `import` cycle.
    LoadFailed,
    /// Not compiled because an upstream module failed.
    Blocked,
}

impl ModuleStatus {
    pub open spec fn spec_code(self) -> &'static str {
        match self {
            ModuleStatus::Compiled => "compiled",
            ModuleStatus::LoadFailed => "load-failed",
            ModuleStatus::Blocked => "blocked",
        }
    }

    /// The stable machine code of the protocol.
    pub fn code(self) -> (r: &'static str)
        ensures
            r == self.spec_code(),
    {
        match self {
            ModuleStatus::Compiled => "compiled",
            ModuleStatus::LoadFailed => "load-failed",
            ModuleStatus::Blocked => "blocked",
        }
    }
}


/// The project-level error kinds (problems of the import graph).
#[derive(Debug, Clone, Copy, PartialEq, Eq, Structural)]
pub enum ProjectErrorKind {
    ImportNotFound,
    ImportCycle,
    ImportModuleInvalid,
    ImportDependencyFailed,
    ImportNameCollision,
    ImportPreludeConflict,
    /// The project manifest could not be read or checked.
    ManifestInvalid,
}

/// The project-level warning kinds.
#[derive(Debug, Clone, Copy, PartialEq, Eq, Structural)]
pub enum ProjectWarningKind {
    ImportHasOpenExercises,
}

impl ProjectErrorKind {
    pub open spec fn spec_code(self) -> &'static str {
        match self {
            ProjectErrorKind::ImportNotFound => "import-not-found",
            ProjectErrorKind::ImportCycle => "import-cycle",
            ProjectErrorKind::ImportModuleInvalid => "import-module-invalid",
            ProjectErrorKind::ImportDependencyFailed => "import-dependency-failed",
            ProjectErrorKind::ImportNameCollision => "import-name-collision",
            ProjectErrorKind::ImportPreludeConflict => "import-prelude-conflict",
            ProjectErrorKind::ManifestInvalid => "manifest-invalid",
        }
    }

    pub fn code(self) -> (r: &'static str)
        ensures
            r == self.spec_code(),
    {
        match self {
            ProjectErrorKind::ImportNotFound => "import-not-found",
            ProjectErrorKind::ImportCycle => "import-cycle",
            ProjectErrorKind::ImportModuleInvalid => "import-module-invalid",
            ProjectErrorKind::ImportDependencyFailed => "import-dependency-failed",
            ProjectErrorKind::ImportNameCollision => "import-name-collision",
            ProjectErrorKind::ImportPreludeConflict => "import-prelude-conflict",
            ProjectErrorKind::ManifestInvalid => "manifest-invalid",
        }
    }
}

impl ProjectWarningKind {
    pub open spec fn spec_code(self) -> &'static str {
        match self {
            ProjectWarningKind::ImportHasOpenExercises => "import-has-open-exercises",
        }
    }

    pub fn code(self) -> (r: &'static str)
        ensures
            r == self.spec_code(),
    {
        match self {
            ProjectWarningKind::ImportHasOpenExercises => "import-has-open-exercises",
        }
    }
}

/// The kind of a project-level diagnostic: an error or a warning.
#[derive(Debug, Clone, Copy, PartialEq, Eq, Structural)]
pub enum ProjectKind {
    Error(ProjectErrorKind),
    Warning(ProjectWarningKind),
}

impl ProjectKind {
    pub open spec fn spec_code(self) -> &'static str {
        match self {
            ProjectKind::Error(kind) => kind.spec_code(),
            ProjectKind::Warning(kind) => kind.spec_code(),
        }
    }

    /// The stable machine code.
    pub fn code(self) -> (r: &'static str)
        ensures
            r == self.spec_code(),
    {
        match self {
            ProjectKind::Error(kind) => kind.code(),
            ProjectKind::Warning(kind) => kind.code(),
        }
    }

    /// Whether this is an error (a warning is not).
    pub fn is_error(self) -> (r: bool)
        ensures
            r == (self is Error),
    {
        match self {
            ProjectKind::Error(_) => true,
            ProjectKind::Warning(_) => false,
        }
    }
}

/// A project-level diagnostic, attributed to a module (the span of an
/// `import` line belongs to the importer).
#[derive(Debug, Clone, PartialEq)]
pub struct ProjectDiagnostic {
    pub kind: ProjectKind,
    /// The text shown to the user.
    pub message: String,
    /// The module it belongs to (the importer).
    pub module: String,
    /// That module's path (`None` for text that is not on disk).
    pub path: Option<PathBuf>,
    /// The position: the `import` line's span.
    pub span: Option<Span>,
}

impl ProjectDiagnostic {
    pub fn code(&self) -> (r: &'static str)
        ensures
            r == self.kind.spec_code(),
    {
        self.kind.code()
    }
}

/// One module's compilation: its name and file, its state, its imports and
/// the sizes of its report.
pub struct ModuleReport {
    pub name: String,
    /// The module's file, as an absolute path.
    pub path: String,
    pub status: ModuleStatus,
    /// The imported module names, in source order.
    pub imports: Vec<String>,
    pub decls: usize,
    pub errors: usize,
    pub warnings: usize,
    /// Declarations whose proof still holds a `sorry`.
    pub open_exercises: usize,
}

/// A project compilation: the modules in topological order (entry last)
/// and the project-level diagnostics, attributed to modules.
pub struct ProjectReport {
    /// The module root, as an absolute path.
    pub root: String,
    /// The manifest in effect, as an absolute path (`None`: no manifest).
    pub manifest: Option<String>,
    /// The note about a manifest that asks for another version.
    pub requires_warning: Option<String>,
    /// Topological order, the entry last.
    pub modules: Vec<ModuleReport>,
    pub diagnostics: Vec<ProjectDiagnostic>,
}


/// Some diagnostic of `d` is an error.
pub open spec fn has_error(d: Seq<ProjectDiagnostic>) -> bool {
    exists|k: int| 0 <= k < d.len() && (#[trigger] d[k]).kind is Error
}

/// No module's report holds an error or a warning.
pub open spec fn modules_clean(m: Seq<ModuleReport>) -> bool {
    forall|i: int| 0 <= i < m.len() ==> (#[trigger] m[i]).errors == 0 && m[i].warnings == 0
}

impl ProjectReport {
    /// The entry module's report: the last in topological order.
    pub fn entry_module(&self) -> (r: Option<&ModuleReport>)
        ensures
            self.modules@.len() == 0 ==> r is None,
            self.modules@.len() > 0 ==> r == Some(&self.modules@.last()),
    {
        let n = self.modules.len();
        if n == 0 {
            None
        } else {
            Some(&self.modules[n - 1])
        }
    }

    /// The report of the first module named `name`.
    pub fn module(&self, name: &str) -> (r: Option<&ModuleReport>)
        ensures
            r matches Some(m) ==> exists|i: int|
                0 <= i < self.modules@.len() && self.modules@[i] == *m && m.name@ == name@ && forall|j: int|
                    0 <= j < i ==> (#[trigger] self.modules@[j]).name@ != name@,
            r is None ==> forall|i: int| 0 <= i < self.modules@.len() ==> (#[trigger] self.modules@[i]).name@ != name@,
    {
        let mut i: usize = 0;
        while i < self.modules.len()
            invariant
                i <= self.modules@.len(),
                forall|j: int| 0 <= j < i ==> (#[trigger] self.modules@[j]).name@ != name@,
            decreases self.modules.len() - i,
        {
            if str_eq(self.modules[i].name.as_str(), name) {
                return Some(&self.modules[i]);
            }
            i = i + 1;
        }
        None
    }

    /// Whether some project-level diagnostic is an error (warnings do not
    /// count).
    pub fn has_errors(&self) -> (r: bool)
        ensures
            r == has_error(self.diagnostics@),
    {
        let mut k: usize = 0;
        while k < self.diagnostics.len()
            invariant
                k <= self.diagnostics@.len(),
                forall|j: int| 0 <= j < k ==> !((#[trigger] self.diagnostics@[j]).kind is Error),
            decreases self.diagnostics.len() - k,
        {
            if self.diagnostics[k].kind.is_error() {
                return true;
            }
            k = k + 1;
        }
        false
    }

    /// Clean: no project-level diagnostic at all and no error or warning in
    /// any module's report (a note about the manifest's version does not
    /// count). Only a clean project may be replayed from a cache.
    pub fn is_clean(&self) -> (r: bool)
        ensures
            r == (!has_error(self.diagnostics@) && self.diagnostics@.len() == 0 && modules_clean(
                self.modules@,
            )),
    {
        if self.has_errors() || self.diagnostics.len() != 0 {
            return false;
        }
        let mut i: usize = 0;
        while i < self.modules.len()
            invariant
                i <= self.modules@.len(),
                forall|j: int|
                    0 <= j < i ==> (#[trigger] self.modules@[j]).errors == 0 && self.modules@[j].warnings == 0,
            decreases self.modules.len() - i,
        {
            if self.modules[i].errors != 0 || self.modules[i].warnings != 0 {
                return false;
            }
            i = i + 1;
        }
        true
    }
}

} // verus!
