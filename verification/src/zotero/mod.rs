//! Logic of the two HTTP surfaces of a locally running Zotero:
//! - `plugin_api`: the Zotero Notebook companion plugin (read + write);
//! - `local_api`: Zotero's built-in read-only local API under
//!   `/api/users/0`, the degraded fallback when the plugin is not installed.

pub mod plugin_api;
pub mod local_api;
