//! Session model and labelling for AI coding agents' hook events.
pub mod text;
pub mod bash;
pub mod json;
pub mod session;
pub mod post;
pub mod events;
pub mod assoc;
pub mod files;
pub mod apply;
pub mod routing;
pub mod procs;
pub mod layout;
pub mod hook_config;
pub mod claude_hooks;
pub mod cursor_hooks;
pub mod codex_hooks;
pub mod relay;
pub mod log_lines;
pub mod ui;
