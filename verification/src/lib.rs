//! Verified core of a small toolkit: LLM tokenizers, a model loader front end,
//! a visual-novel script engine and a task manager model.
pub mod text;
pub mod strmap;
pub mod merge;
pub mod llm;
pub mod mini;
pub mod vn;
pub mod tasks;
