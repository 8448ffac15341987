//! The decisions behind the web pages: which rows and words a page shows,
//! how a flashcard scan moves through a deck, and how failures are answered.

pub mod database;
pub mod templates;
pub mod views;
pub mod error;
pub mod csv_processing;
pub mod laws_routes;
