//! A DER-encoded ASN.1 buffer as a tree of typed nodes, and the disclosure
//! state of that tree: which rows are shown, and what expanding or collapsing
//! a row does to the rows below it.

pub mod app;
pub mod asn1_der;
pub mod codec;
pub mod input;
pub mod render;
pub mod rows;
pub mod shape;
pub mod tag;
pub mod text;
