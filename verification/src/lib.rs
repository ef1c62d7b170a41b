//! A verified command-line client for a video-hosting mirror: a quantity
//! formatter for abbreviated counts, an HTML search-result extractor, a
//! renderer, and a session state machine that resolves user commands
//! against the most recently fetched result list.

pub mod command;
pub mod format;
pub mod scrape;
pub mod text;
pub mod youtube;
