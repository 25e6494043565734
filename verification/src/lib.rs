//! Decisions of a small external downloader for pacman.

pub mod apply_laws;
pub mod bytes;
pub mod cells;
pub mod cli;
pub mod config;
pub mod config_apply;
pub mod config_interaction;
pub mod config_laws;
pub mod contention_laws;
pub mod download;
pub mod download_laws;
pub mod edit_laws;
pub mod figures;
pub mod figures_laws;
pub mod frame_laws;
pub mod frames;
pub mod interaction_laws;
pub mod kind_laws;
pub mod lines;
pub mod lock;
pub mod lock_laws;
pub mod numbers;
pub mod path_laws;
pub mod paths;
pub mod progress;
pub mod render;
pub mod render_laws;
pub mod row_laws;
pub mod signals;
pub mod text;
pub mod text_laws;
pub mod utf8;
pub mod view_laws;
