pub mod config;
pub mod digest;
pub mod doc;
pub mod export;
pub mod llm;
pub mod mcp;
pub mod model;
pub mod notebooklm;
pub mod numbers;
pub mod obsidian;
pub mod prompts;
pub mod screenshot;
pub mod text;
pub mod tools;
pub mod transcribe;
pub mod transcript;
