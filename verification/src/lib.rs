//! A bit-level binary codec. A writer packs booleans, integers of many
//! widths and strings into a compact stream of bits; a reader, given the
//! same call sequence, yields the values back.
pub mod converter;
pub mod input;
pub mod model;
pub mod output;
pub mod text;
