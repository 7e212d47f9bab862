//! Parsing and enrichment of P2000 pager transmissions.

pub mod clock;
pub mod enrich;
pub mod fields;
pub mod location;
pub mod lookup;
pub mod parser;
pub mod pattern;
pub mod reader;
pub mod table;
pub mod text;
pub mod textmap;
pub mod tui;
