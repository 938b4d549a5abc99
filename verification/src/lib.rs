//! The decision logic of the karakuri coding agent: what a command may be, what a model reply
//! means, how a tool call unfolds, how text is drawn. Everything in this crate is pure; the
//! program around it performs the input and output that it asks for.

pub mod agent;
pub mod base64;
pub mod capabilities;
pub mod cli;
pub mod config;
pub mod error;
pub mod exec;
pub mod json;
pub mod listing;
pub mod markdown;
pub mod message;
pub mod model;
pub mod nix_runtime;
pub mod number;
pub mod path;
pub mod prompt;
pub mod runtime;
pub mod sandbox;
pub mod session;
pub mod ssh_runtime;
pub mod text;
pub mod tool;
pub mod tool_run;
pub mod ui;
pub mod world;
