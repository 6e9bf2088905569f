//! Lint rules over parsed RPM spec files, each stated as a function from a
//! spec file to the diagnostics it owes and proved to report exactly those.
pub mod ast;
pub mod bcond;
pub mod bodies;
pub mod calendar;
pub mod condition;
pub mod diagnostic;
pub mod dnf;
pub mod expr;
pub mod expr_laws;
pub mod key_laws;
pub mod laws;
pub mod lint;
pub mod message_laws;
pub mod names;
pub mod packages;
pub mod path_cond;
pub mod path_laws;
pub mod profile;
pub mod report_laws;
pub mod rules;
pub mod shell;
pub mod shell_laws;
pub mod source;
pub mod text;
pub mod text_laws;
pub mod walk;
pub mod walk_laws;
pub mod worlds;
