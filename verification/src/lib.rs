//! Component-scoped CSS: a stylesheet text is parsed into blocks and
//! compiled back into a text in which every selector matches only the
//! elements that carry a scope class.
//!
//! [`parser::scope_css`] does both steps. [`parser::StylesheetParser`] reads
//! the blocks of a text, [`stylesheet::Stylesheet::compile`] writes them with
//! the scope class spliced in. [`grammar`] says what is read out of a text,
//! and [`laws`], [`nesting`], [`scan_laws`] and [`normal_form`] state what
//! follows from that.

pub mod grammar;
pub mod laws;
pub mod nesting;
pub mod normal_form;
pub mod parser;
pub mod scan_laws;
pub mod selector;
pub mod stylesheet;
pub mod text;
