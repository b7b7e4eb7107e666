//! A file classification catalogue: files, groups and tags with reference
//! counted associations, condition based queries, the argument parsers and
//! the session language of the command line tool, an expression
//! interpreter, and the menus of the interactive query and update tools.
pub mod cascade;
pub mod context;
pub mod counts;
pub mod errors;
pub mod filters;
pub mod interpreter;
pub mod laws;
pub mod load;
pub mod menus;
pub mod models;
pub mod parsers;
pub mod query;
pub mod rows;
pub mod service;
pub mod shell;
pub mod sorting;
pub mod store;
pub mod text;
