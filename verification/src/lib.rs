//! A pattern-driven filesystem watch-target compiler.
//!
//! A compact glob-like selection language (braces for alternation, slashes
//! for path segments, `*`/`**` wildcards, `!` negation) is tokenized and
//! parsed into a [`Selector`](selector::Selector) tree, expanded into a set
//! of concrete routes, and matched against a directory tree to produce
//! watch targets.

pub mod cli;
pub mod reduce;
pub mod routes;
pub mod selector;
pub mod shebang;
pub mod selector_tokens;
pub mod walk;

pub use cli::Cli;
pub use selector::{parse_selector, Selector};
pub use selector_tokens::Token;
