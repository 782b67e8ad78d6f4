pub mod ast;
pub mod diagnostic;
pub mod span;
pub mod text;
pub mod token;
pub mod module_name;
pub mod parser;
pub mod semantic;
pub mod query;
pub mod references;
pub mod manifest;
pub mod report;
pub mod resolve;
pub mod draft;
pub mod graph;
pub mod session;
pub mod project_view;
pub mod state;
pub mod plan;
pub mod project_checks;
