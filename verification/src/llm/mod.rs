//! LLM providers: shared request/response types and prompts, and the
//! wire-independent decision logic of each client.

pub mod provider;
pub mod shared;
pub mod openai_compat;
pub mod sse;
pub mod anthropic;
pub mod gemini;
