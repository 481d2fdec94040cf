//! Searching structured text documents for a pattern and cutting each match
//! out together with a bounded window of context.

pub mod doctree;
pub mod error;
pub mod json;
pub mod matcher;
pub mod pattern;
pub mod reader;
pub mod report;
pub mod selector;
pub mod text;
pub mod ziphandler;
