//! Rewrites `if_chain!` invocations into native `if` / `if let` chains.
//!
//! The crate works on the text of a source file, held as lines of characters,
//! and on the positions at which a parser found the pieces of one invocation.
//! Every edit is made on the text as it was written, so comments and layout
//! outside the edited ranges survive unchanged.
//!
//! A locator built on a parser reads the text and reports the first
//! invocation as a [`driver::Scan`]. [`driver::modify`] asks it and makes a
//! pass with the answer, again and again, until a pass rewrites nothing. In
//! a pass, [`grammar`] reads the items of the body as a chain, [`plan`] lists
//! the edits that collapse it, and [`rewrite`] makes them.
//!
//! [`laws`], [`frame`] and [`progress`] state what holds of every rewrite:
//! how many joins and parentheses it puts in, what it leaves alone, and why
//! passing comes to an end.

pub mod buffer;
pub mod chain;
pub mod driver;
pub mod edit;
pub mod frame;
pub mod grammar;
pub mod laws;
pub mod plan;
pub mod progress;
pub mod rewrite;
