//! strex: declarative HTTP collection runner — verified core logic.

pub mod text;
pub mod strmap;
pub mod error;
pub mod script;
pub mod interpolation;
pub mod yaml;
pub mod collection;
pub mod context;
pub mod parser;
pub mod http;
pub mod json;
pub mod assertions;
pub mod runner;
pub mod data;
pub mod perf;
pub mod import;
pub mod ui;
pub mod validate;
pub mod report;
pub mod cli;
pub mod history;
