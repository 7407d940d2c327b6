//! The rules and formats of brokkr, the development tool: benchmark records,
//! reports, the lock file, manual sections, project commands.

pub mod commands;
pub mod db;
pub mod error;
pub mod harness;
pub mod header;
pub mod history;
pub mod hold;
pub mod hotpath_fmt;
pub mod invalidate;
pub mod json;
pub mod lex;
pub mod litehtml;
pub mod lockfile;
pub mod man;
pub mod manifest;
pub mod measure;
pub mod mogwai;
pub mod nidhogg;
pub mod number;
pub mod numeral;
pub mod output;
pub mod path;
pub mod project;
pub mod table;
pub mod text;
