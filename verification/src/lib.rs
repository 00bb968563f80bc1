//! The rules of a terminal Space Invaders game: the configuration file's
//! settings, the playing field and its per-frame update, the framebuffer that
//! draws it, and the list of terminal commands that puts a framebuffer on screen.

pub mod config;
pub mod game;
pub mod missiles;
pub mod aliens;
pub mod input;
pub mod frame;
pub mod text;
pub mod banner;
pub mod render;
