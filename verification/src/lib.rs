//! A compiler for a small HTML-like templating language.
//!
//! Templates arrive as a stream of host tokens ([`tokens::Token`]), are parsed
//! into an abstract syntax tree, classified into static and dynamic parts,
//! grouped into islands of consecutive static siblings, and lowered into an
//! ordered sequence of text-producing operations.  The meaning of a template
//! is fixed by a specification-level rendering function over the tree; the
//! code generator is proved to produce operation sequences with exactly that
//! meaning, for every assignment of runtime values to the opaque host
//! expressions.

pub mod ast;
pub mod code_generation;
pub mod components;
pub mod env;
pub mod i18n;
pub mod i18n_config;
pub mod internals;
pub mod islands;
pub mod ops;
pub mod page;
pub mod page_wrapper;
pub mod parsing;
pub mod semantics;
pub mod tokens;

pub use components::Component;
pub use internals::sanitize;
pub use page::Page;
pub use tokens::{Delim, Spacing, Token};
