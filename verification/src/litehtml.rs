//! The project litehtml: renderings compared with a reference.

pub mod boxes;
pub mod cmd;
pub mod compare;
pub mod fixtures;
pub mod manifest;
pub mod names;
pub mod pixels;
pub mod report;
pub mod screens;
pub mod scripts;
pub mod store;
