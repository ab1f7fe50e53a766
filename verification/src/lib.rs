pub mod agent;
pub mod config;
pub mod extensions;
pub mod extension_api;
pub mod i18n;
pub mod images;
pub mod json;
pub mod llm;
pub mod markdown;
pub mod memory;
pub mod text;
