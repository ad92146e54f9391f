//! An interactive shell language: a recursive-descent parser, a tagged AST,
//! and a stack-based virtual machine with a persistent register tree.
//!
//! Programs are parsed into a [`tokens::Suite`] and executed against a
//! long-lived machine.  Host effects (filesystem, console) never happen
//! here: execution pauses with a request and an unverified front end
//! performs the effect and resumes the machine.

pub mod tokens;
pub mod machine;
pub mod render;
pub mod interp;
pub mod parser;
pub mod props;
