//! Bounded, coded request handling for the Proofstorm MCP gateway.
pub mod error;
pub mod text;
pub mod cursor;
pub mod limits;
pub mod model;
pub mod requests;
pub mod evidence;
pub mod pointer;
pub mod transfer;
pub mod cell_input;
pub mod by_id;
pub mod submission;
pub mod slices;
pub mod operation_read;
pub mod cell_read;
pub mod pattern;
pub mod cell_search;
pub mod status_search;
pub mod activity_search;
pub mod topology;
pub mod directories;
pub mod session_directory;
pub mod catalog;
pub mod actions;
pub mod status;
pub mod validation;
pub mod resources;
pub mod json;
pub mod schema;
pub mod tool_schema;
pub mod tools;
