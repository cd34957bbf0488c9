use vstd::prelude::*;

pub mod env_names;
pub mod digest;
pub mod text;
pub mod paths;
pub mod routes;
pub mod terminal_profiles;
pub mod profile_laws;
pub mod update;
pub mod update_flow;
pub mod updater;
pub mod update_laws;
pub mod shell;
pub mod console_sessions;
pub mod live_sessions;
pub mod ipc;
pub mod host_security;
pub mod tray;
pub mod assets;
pub mod panes;
pub mod about;
pub mod keychain;
pub mod credentials;
pub mod relay_secrets;
pub mod store_laws;
pub mod background_service;
pub mod split_tree;
pub mod protocol;
pub mod sas_anchor;
