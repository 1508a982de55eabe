//! Zotero Notebook core logic: collection-path normalization for the
//! classify/audit pipeline, citation matching, abstract clean-up, prompt
//! construction and the decision logic of the Zotero and LLM clients.

pub mod text;
pub mod error;
pub mod models;

pub use error::{Error, Result};
pub mod llm;
pub mod classify;
pub mod citations;
pub mod abstract_lookup;
pub mod zotero;
pub mod synthesis;
pub mod pricing;
pub mod keychain;
pub mod commands;
