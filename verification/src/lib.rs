//! Release engineering for multi-package workspaces: manifest model,
//! dependency graph, publish order, version synchronisation and publish
//! planning.

pub mod archive;
pub mod builder;
pub mod check;
pub mod config;
pub mod context;
pub mod crates;
pub mod error;
pub mod graph;
pub mod manifest;
pub mod owner;
pub mod project;
pub mod publish;
pub mod repository;
pub mod run;
pub mod text;
pub mod value;
pub mod version;
pub mod versioner;
