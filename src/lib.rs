//! Turns a free-text description, in Chinese, English or both, into an
//! identifier in a chosen naming convention. A deterministic rule engine
//! (normalization, segmentation, translation, stop-word filtering and
//! rendering) stands behind an optional remote language-model backend,
//! whose prompt, reply parsing and cache live here too; the orchestrator
//! decides per request which to use and falls back on any remote failure.
pub mod defaults;
pub mod error;
pub mod generator;
pub mod history;
pub mod llm;
pub mod rule;
pub mod settings;
pub mod style;
pub mod text;
pub mod vocabulary;
