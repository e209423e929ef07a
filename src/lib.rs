//! Extraction of paragraph text and image sources from a fetched HTML page.

pub mod cleaner;
pub mod document;
pub mod page;
