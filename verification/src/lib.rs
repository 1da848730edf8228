//! Verified core of AnyflipDL: URL validation and parsing, document metadata
//! extraction, output naming, the download queue state machine, update
//! comparison and image header inspection.

pub mod text;
pub mod error;
pub mod validator;
pub mod url_parser;
pub mod queue;
pub mod json;
pub mod document;
pub mod metadata;
pub mod probe;
pub mod image_header;
pub mod output;
pub mod paths;
pub mod clock;
pub mod calendar;
pub mod update_checker;
pub mod pages;
pub mod temp;
pub mod config;
pub mod orchestrator;
pub mod commands;
pub mod epub;
pub mod pdf;
