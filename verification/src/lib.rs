//! A compiler for a small SCSS-like stylesheet dialect.
//!
//! The pipeline expands `@import` statements into one merged source text,
//! parses it into a tree of declarations, variable declarations, nested
//! rules and opaque at-rule blocks, flattens nested selectors against their
//! ancestors while substituting variable references, and renders plain CSS
//! text.  An independent, idempotent minifier compacts CSS text.
//!
//! The library itself never touches the filesystem: import expansion is
//! driven as a state machine that asks its caller to canonicalize, probe
//! and read files, and decides everything else on its own.

pub mod error;
pub mod expand;
pub mod minify;
pub mod parser;
pub mod render;
pub mod scan;
pub mod selector;
pub mod text;
pub mod value;
