pub mod accounting;
pub mod cli;
pub mod codex;
pub mod config;
pub mod domain;
pub mod environment;
pub mod json;
pub mod linear;
pub mod orchestrator;
pub mod ordered;
pub mod path_safety;
pub mod prompt;
pub mod runner;
pub mod schedule;
pub mod service;
pub mod ssh;
pub mod text;
pub mod timestamp;
pub mod tracker;
pub mod workflow;
pub mod workspace;
