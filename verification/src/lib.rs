//! A directive-driven generator of Unicode codepoint ranges.
//!
//! The library interprets a line-oriented configuration language: control
//! directives select an output file, set formatting options and build an
//! optional character filter, while range directives expand an inclusive
//! codepoint span into text destined for the selected output file.
//!
//! The interpreter itself performs no I/O: [`state::apply`] consumes one
//! parsed [`directive::Directive`], mutates the [`state::RunState`] and
//! returns an [`state::Action`] describing what an embedding program must
//! do to the outside world (create a file, append text, expand glob
//! patterns and feed file contents back).

pub mod convert;
pub mod decimal;
pub mod directive;
pub mod escape;
pub mod expand;
pub mod filter;
pub mod state;
pub mod text;
