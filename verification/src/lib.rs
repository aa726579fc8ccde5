//! A Markdown viewer for terminals, as a library: parsing into a document
//! model, layout into styled terminal lines, the pager that scrolls, searches
//! and follows the table of contents, the command line, and update checks.

pub mod document;
pub mod events;
pub mod text;
pub mod parse;
pub mod theme;
pub mod style;
pub mod unicode;
pub mod wrap;
pub mod layout;
pub mod app;
pub mod input;
pub mod args;
pub mod update;
pub mod pager;
pub mod watch;
pub mod syntax;
