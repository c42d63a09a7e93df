//! Core rules of Codex++.
use vstd::prelude::*;

pub mod ai_shell;
pub mod app_server;
pub mod codex_auto_update;
pub mod codex_config_reload;
pub mod codex_hooks;
pub mod config_backup;
pub mod config_import;
pub mod embedding_cache;
pub mod embeddings;
pub mod file_name;
pub mod hook_event;
pub mod hook_laws;
pub mod hook_reinstall;
pub mod hook_trust;
pub mod json;
pub mod json_laws;
pub mod json_order;
pub mod login_session;
pub mod memory;
pub mod memory_context;
pub mod memory_rank;
pub mod memory_text;
pub mod number;
pub mod official_remote;
pub mod platform;
pub mod proxy;
pub mod remote_control;
pub mod server_message;
pub mod settings;
pub mod table;
pub mod text;
pub mod text_laws;
pub mod update;
pub mod update_laws;

verus! {

} // verus!
