//! Finds out why Cargo keeps rebuilding a project.
//!
//! [`fingerprint_parser`] reads the lines that cargo logs on dirty units,
//! [`rebuild_graph`] tells which rebuild caused which, and
//! [`root_cause_cluster`] groups them by what was at the bottom of them, with
//! the help of what [`build_script_watches`] finds in the output of build
//! scripts. [`cluster_ascii_dag_renderer`] draws the result.

pub mod analyzer_error;
pub mod build_script_watches;
pub mod cluster_ascii_dag_renderer;
pub mod dag;
pub mod fingerprint_parser;
pub mod laws;
pub mod rebuild_graph;
pub mod rebuild_reason;
pub mod root_cause_cluster;
pub mod text;
pub mod text_order;

pub use analyzer_error::AnalyzerError;
