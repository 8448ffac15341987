//! Verified core of the Korean subtitle dictionary tool: subtitle (SRT)
//! parsing and rendering, TSV sentence decks, morpheme post-processing,
//! dictionary-response extraction and flashcard navigation decisions.

pub mod text;
pub mod srt_parser;
pub mod laws_text;
pub mod csv_parser;
pub mod parser;
pub mod search;
pub mod routes;
pub mod parser_kind;
pub mod laws_words;
pub mod laws_srt;
pub mod laws_search;
pub mod frontend;
