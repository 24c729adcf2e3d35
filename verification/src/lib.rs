//! Requirement traceability engine: requirement models, tag scanning,
//! traceability analysis and audit heuristics.

pub mod models;
pub mod outside;
pub mod text;
pub mod tag_grammar;
pub mod scanner;
pub mod error;
pub mod markdown;
pub mod sorting;
pub mod trace;
pub mod validation;
pub mod impact;
pub mod tree;
pub mod audit;
pub mod triviality;
pub mod coverage_map;
pub mod mutation;
pub mod ai_import;
pub mod engine;
pub mod config;
pub mod provenance;
pub mod independence;
pub mod reqif;
pub mod json;
pub mod hooks;
pub mod display;
pub mod tool_inputs;
pub mod resources;
pub mod report_json;
pub mod laws;
pub mod operation_laws;
