//! Workshop records: the rules behind a small garage's cars, jobs, stock,
//! staff, chat and handheld scanners.
pub mod autofill;
pub mod cars;
pub mod chat;
pub mod digits;
pub mod divisions;
pub mod engine;
pub mod failure;
pub mod files;
pub mod jobs;
pub mod json;
pub mod lists;
pub mod migrate;
pub mod names;
pub mod oil;
pub mod order;
pub mod outside;
pub mod photos;
pub mod proxy;
pub mod records;
pub mod scanner;
pub mod settings;
pub mod stocktake;
pub mod store;
pub mod text;
pub mod workers;
