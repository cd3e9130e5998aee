pub mod api_keys;
pub mod audio_cache;
pub mod escape;
pub mod git;
pub mod keybindings;
pub mod palette;
pub mod ports;
pub mod problems;
pub mod proxy_config;
pub mod replace_case;
pub mod settings;
pub mod store;
pub mod terminal;
pub mod text;
pub mod workspace;
