//! Fortune-cookie corpus handling: discovery of fortune files, parsing of
//! their records, seeded or random selection, and pattern search.

pub mod corpus;
pub mod error;
pub mod lex;
pub mod paths;
pub mod pattern;
pub mod records;
pub mod search;
pub mod select;
pub mod text;
