//! Verified core of the AI career copilot backend.
pub mod text;
pub mod extract;
pub mod config;
pub mod settings;
pub mod error;
pub mod llm;
pub mod sessions;
pub mod chat;
pub mod auth;
pub mod attachments;
pub mod web;
