//! Architecture documentation generator for Python projects: the analysis
//! model, configuration rules, dependency-cycle detection, the Python
//! definition/call extractor, the marker-based document writer, the per-file
//! documents and statistics, and the rules of file selection and of the parse cache.

pub mod text;
pub mod errors;
pub mod config;
pub mod strmap;
pub mod model;
pub mod cycle_detector;
pub mod python_ast;
pub mod python_parse;
pub mod python_analyzer;
pub mod writer;
pub mod cache;
pub mod scanner;
pub mod docs;
pub mod stats;
