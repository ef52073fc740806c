pub mod text;
pub mod sorted_map;
pub mod assistant;
pub mod assistant_targets;
pub mod web;
pub mod web_protocol;
pub mod lock_screen;
pub mod sharing;
pub mod store;
pub mod session_write;
pub mod notification;
pub mod right_sidebar;
pub mod keychain;
pub mod terminal_panel;
pub mod shell_integration;
pub mod ssh;
pub mod terminal_env;
pub mod update;
pub mod command_history;
pub mod app_state;
pub mod static_suggestions;
pub mod sessions_sidebar;
pub mod serial;
pub mod footbar;
pub mod cast_player;
