//! Core library of the AiSEG2 command-line client.
//!
//! Layers:
//! - [`fetch`]: decisions of the HTTP + Digest authentication exchange.
//! - [`parse`]: interpretation of the controller's pages (HTML / JSON).
//! - [`control`]: control request payloads and response interpretation.
//! - [`command`]: the decisions of the command-line commands.

pub mod command;
pub mod control;
pub mod error;
pub mod fetch;
pub mod html;
pub mod json;
pub mod parse;
pub mod text;
