pub mod adblock;
pub mod address;
pub mod bindings;
pub mod bookmarks;
pub mod cosmetic;
pub mod debounce;
pub mod diagnostics;
pub mod download_state;
pub mod downloads;
pub mod embedding;
pub mod engine;
pub mod error;
pub mod events;
pub mod exceptions;
pub mod filenames;
pub mod filter_update;
pub mod ids;
pub mod keyed;
pub mod media;
pub mod retention;
pub mod servo;
pub mod settings;
pub mod shields;
pub mod tabs;
pub mod text;
pub mod transfer;
pub mod webkit_rules;
