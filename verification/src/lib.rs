//! Verified core of the Hermes desktop companion: text formats, request
//! building and the decisions behind each command.
pub mod text;
pub mod json;
pub mod sse;
pub mod kv;
pub mod config;
pub mod paths;
pub mod ssh;
pub mod yaml;
pub mod platforms;
pub mod settings;
pub mod memory;
pub mod providers;
pub mod chat;
pub mod cli;
pub mod sessions;
pub mod layout;
pub mod skills;
pub mod soul;
pub mod attachments;
pub mod security;
pub mod discovery;
pub mod claw3d;
pub mod installer;
pub mod profiles;
pub mod cron;
pub mod kanban;
pub mod mcp;
pub mod toolsets;
pub mod desktop;
pub mod sandbox;
pub mod tunnel;
pub mod gateway;
pub mod models;
pub mod runner;
