//! A bilingual dictionary model with English inflection rules, wiki markup
//! extraction and an e-reader package exporter.

pub mod assemble;
pub mod cli_config;
pub mod dictionary;
pub mod inflection;
pub mod kindle;
pub mod meaning;
pub mod pattern;
pub mod reader;
pub mod reverse;
pub mod search;
pub mod term;
pub mod text;
pub mod wiki;
pub mod word_class;
pub mod writer;
