//! Terminal video player core: colors, text layout on a cell grid, terminal
//! input decoding, playlist and playback-clock state, subtitles, command line
//! editing and escape-sequence encoding.

pub mod text;
pub mod util;
pub mod ui;
pub mod stdin;
pub mod avsync;
pub mod playlist;
pub mod statistics;
pub mod stdout;
pub mod osc8;
pub mod subtitle;
pub mod command;
pub mod render;
pub mod sixel;
pub mod logging;
pub mod error;
pub mod playback;
pub mod config;
pub mod osc1337;
pub mod panels;
pub mod media;
pub mod callbacks;
