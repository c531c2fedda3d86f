//! Document library model for a Markdown and PDF viewer: Markdown block
//! extraction, document discovery rules, PDF preview bookkeeping, the
//! selection state of the library, and the semantic colour themes.

pub mod text;
pub mod markdown;
pub mod sort;
pub mod document;
pub mod library;
pub mod tokens;
pub mod theme;
pub mod components;
