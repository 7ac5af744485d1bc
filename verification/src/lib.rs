//! Imports the rows of a table of SQL Server into an index of ElasticSearch.

pub mod config;
pub mod dates;
pub mod document;
pub mod elastic;
pub mod import;
pub mod json;
pub mod layout;
pub mod mapping;
pub mod query;
pub mod record;
pub mod selection;
pub mod text;
