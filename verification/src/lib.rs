//! Verified core of a Matrix file-sharing tool: file offers, chunked
//! transfers with SHA-256 verification, and the naming and formatting
//! rules around them.
pub mod text;
pub mod codec;
pub mod table;
pub mod events;
pub mod state;
pub mod paths;
pub mod transfer;
pub mod matrix_client;
pub mod cli;
