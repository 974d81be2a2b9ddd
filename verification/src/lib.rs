//! Verified core of the AgentForge desktop interface.
pub mod agents;
pub mod assets;
pub mod clock;
pub mod command_palette;
pub mod export;
pub mod filetree;
pub mod flow;
pub mod history;
pub mod ids;
pub mod json;
pub mod knowledge;
pub mod managers;
pub mod markdown;
pub mod mcp;
pub mod memory;
pub mod monitoring;
pub mod onboarding;
pub mod paths;
pub mod orchestration;
pub mod providers;
pub mod research;
pub mod responsive;
pub mod session;
pub mod settings;
pub mod teams;
pub mod text;
pub mod theme;
