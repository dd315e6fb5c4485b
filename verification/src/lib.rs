//! A parser, printer and evaluator for a plain-text dialog-tree markup.
//!
//! Source text in a small markdown-like grammar (`#` headers for speakers and
//! nesting depth, `-` lines for monologue text or `|`-gated choices, `->` lines
//! for trigger events, `/` as escape character) is parsed into a tree of
//! dialog nodes.  The tree can be printed back to equivalent source text, and
//! choice conditions can be evaluated against a karma value and a set of
//! active named events.

pub mod dialog;
pub mod laws;
pub mod model;
pub mod numbers;
pub mod print;
pub mod roundtrip;
pub mod scan;
pub mod strutil;
