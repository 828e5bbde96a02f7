//! Fetch web pages and turn their main content into clean, token-budgeted
//! Markdown.
//!
//! This crate holds the logic of the pipeline that can be stated and proved:
//! URL pre-flight checks, SPA detection, link and crawl planning, robots.txt
//! decisions, the chunking of scored DOM trees into Markdown, the Markdown
//! washing step, token estimates, result assembly and the layered
//! configuration of the command-line front end.

pub mod cli;
pub mod config;
pub mod crawl;
pub mod error;
pub mod extract;
pub mod fetch;
pub mod order;
pub mod output;
pub mod preflight;
pub mod robots;
pub mod scorer;
pub mod text;
pub mod tokens;
