//! The verified core of a polyglot monorepo orchestrator.

pub mod artifacts;
pub mod cascade;
pub mod client;
pub mod cloud;
pub mod command;
pub mod config;
pub mod deep;
pub mod deploy_state;
pub mod diagnostic_parsers;
pub mod diff;
pub mod digest;
pub mod discovery;
pub mod doctor;
pub mod excerpt;
pub mod execute;
pub mod framing;
pub mod globs;
pub mod graph;
pub mod inventory;
pub mod json;
pub mod keys;
pub mod notification;
pub mod order;
pub mod path;
pub mod pathset;
pub mod plan;
pub mod prime;
pub mod protocol;
pub mod report;
pub mod run;
pub mod sort;
pub mod strmap;
pub mod tasks;
pub mod text;
pub mod tools;
pub mod unit_run;
pub mod why;
pub mod wire;
pub mod workspace_ctx;
