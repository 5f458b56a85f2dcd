//! A Wordle assistant library.
//!
//! The core is a single predicate deciding whether a candidate word is
//! consistent with one guess and its feedback pattern, including Wordle's
//! duplicate-letter semantics; on top of it sits a filter that narrows a
//! dictionary down to the words consistent with all observations so far.

pub mod filter;
pub mod matcher;
pub mod session;
