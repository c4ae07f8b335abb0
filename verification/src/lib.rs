//! Core logic of a command-line client for a bucket-based object store.

pub mod errors;
pub mod settings;
pub mod text;
pub mod order;
pub mod calendar;
pub mod file;
pub mod classify;
pub mod grid;
pub mod render;
pub mod paging;
pub mod app;
pub mod upload;
