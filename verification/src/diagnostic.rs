//! Front-end diagnostics: a kind (which fixes the stable code and the hint),
//! a span and a message.
use crate::span::Span;
use vstd::prelude::*;

verus! {

/// Why lexing or parsing stopped.
#[derive(Debug, Clone, PartialEq, Eq)]
pub enum DiagnosticKind {
    /// A token (or character) that the grammar does not allow here.
    UnexpectedToken { found: String, expected: String },
    /// `import` after the first non-`import` command.
    ImportMustPrecedeDeclarations,
    /// `import` without a module name, or with more text on its line.
    ImportMalformed { detail: String },
    /// `import X` where `X` is not a valid dotted module name.
    ImportNotAModuleName { module: String, message: String, hint: &'static str },
    /// A notation command of the wrong shape.
    NotationShape { detail: String },
    /// A symbol that no notation declares (yet).
    NotationUnknownSymbol { symbol: String },
    /// `namespace`/`end`/`open`/`export` of the wrong shape.
    NamespaceShape { detail: String },
    /// `end X` that does not close the innermost `namespace`.
    NamespaceMismatch { found: String, expected: Option<String> },
    /// A `namespace` still open at the end of the file.
    NamespaceUnclosed { name: String },
    /// A set literal or anonymous constructor of the wrong shape.
    SetLiteralShape { detail: String },
}

pub type Result<T> = core::result::Result<T, Diagnostic>;

/// A diagnostic: what went wrong, where, and the message for the reader.
#[derive(Debug, Clone, PartialEq, Eq)]
pub struct Diagnostic {
    pub kind: DiagnosticKind,
    pub span: Span,
    pub message: String,
}

/// The stable code of each kind of diagnostic.
pub open spec fn spec_code(kind: DiagnosticKind) -> &'static str {
    match kind {
        DiagnosticKind::UnexpectedToken { .. } => "unexpected-token",
        DiagnosticKind::ImportMustPrecedeDeclarations => "import-must-precede-declarations",
        DiagnosticKind::ImportMalformed { .. } => "import-malformed",
        DiagnosticKind::ImportNotAModuleName { .. } => "import-not-a-valid-module-name",
        DiagnosticKind::NotationShape { .. } => "notation-shape",
        DiagnosticKind::NotationUnknownSymbol { .. } => "notation-unknown-symbol",
        DiagnosticKind::NamespaceShape { .. } => "parse-namespace-shape",
        DiagnosticKind::NamespaceMismatch { .. } => "parse-namespace-mismatch",
        DiagnosticKind::NamespaceUnclosed { .. } => "parse-namespace-unclosed",
        DiagnosticKind::SetLiteralShape { .. } => "set-literal-shape",
    }
}

impl Diagnostic {
    pub fn new(kind: DiagnosticKind, span: Span, message: String) -> (r: Self)
        ensures
            r.kind == kind,
            r.span == span,
            r.message == message,
    {
        Diagnostic { kind, span, message }
    }

    /// The stable code of this diagnostic.
    pub fn code(&self) -> (r: &'static str)
        ensures
            r == spec_code(self.kind),
    {
        match &self.kind {
            DiagnosticKind::UnexpectedToken { .. } => "unexpected-token",
            DiagnosticKind::ImportMustPrecedeDeclarations => "import-must-precede-declarations",
            DiagnosticKind::ImportMalformed { .. } => "import-malformed",
            DiagnosticKind::ImportNotAModuleName { .. } => "import-not-a-valid-module-name",
            DiagnosticKind::NotationShape { .. } => "notation-shape",
            DiagnosticKind::NotationUnknownSymbol { .. } => "notation-unknown-symbol",
            DiagnosticKind::NamespaceShape { .. } => "parse-namespace-shape",
            DiagnosticKind::NamespaceMismatch { .. } => "parse-namespace-mismatch",
            DiagnosticKind::NamespaceUnclosed { .. } => "parse-namespace-unclosed",
            DiagnosticKind::SetLiteralShape { .. } => "set-literal-shape",
        }
    }

    /// The teaching hint of this diagnostic; an invalid module name carries
    /// the hint of the rule it broke.
    pub fn hint(&self) -> (r: &'static str)
        ensures
            self.kind matches DiagnosticKind::ImportNotAModuleName { hint, .. } ==> r == hint,
    {
        match &self.kind {
            DiagnosticKind::UnexpectedToken { .. } => {
                "检查这一处的拼写与括号：表达式、binder 与命令各有自己的写法。"
            },
            DiagnosticKind::ImportMustPrecedeDeclarations => {
                "把所有 `import` 挪到文件开头，写在任何声明之前。"
            },
            DiagnosticKind::ImportMalformed { .. } => {
                "`import` 一行只写一个点分模块名，例如 `import Lesson.Logic`。"
            },
            DiagnosticKind::ImportNotAModuleName { hint, .. } => hint,
            DiagnosticKind::NotationShape { .. } => {
                "记法命令的形状：infix:50 \" ∈ \" => Set.mem（infix/infixl/infixr/prefix/postfix 必须写优先级，N 取 1–1000）；notation \"∅\" => Set.empty 与 binder_notation \"∃\" => Exists 不写优先级。"
            },
            DiagnosticKind::NotationUnknownSymbol { .. } => {
                "先用 infix/prefix/postfix/notation 命令声明这个符号，或者改用点名写法（例如 Set.mem a A）。"
            },
            DiagnosticKind::NamespaceShape { .. } => {
                "作用域命令的形状：namespace A / end A / open A [(a b) | hiding a | renaming a => b] [in <命令>] / export A。"
            },
            DiagnosticKind::NamespaceMismatch { .. } => {
                "`end` 要写最近一个还开着的 `namespace` 的名字。"
            },
            DiagnosticKind::NamespaceUnclosed { .. } => {
                "在文件结束前用 `end <名字>` 闭合每一个 `namespace`。"
            },
            DiagnosticKind::SetLiteralShape { .. } => {
                "集合字面量写成 {a} 或 {a, b}；匿名构造子写成 ⟨a, b⟩。"
            },
        }
    }
}

} // verus!
