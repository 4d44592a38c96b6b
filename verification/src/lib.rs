//! Game rules of a bi-plane versus aliens flying game: the landscape grid,
//! bullets and alien ships, the player's lives, the keyboard controls, the
//! start screen and the text and title rendering plans. Everything that
//! draws, plays sound or does floating-point arithmetic lives in the
//! program around this library.
pub mod bullet;
pub mod common;
pub mod controls;
pub mod draw_text;
pub mod enemy_ship;
pub mod game;
pub mod landscape;
pub mod player_shape;
pub mod start_screen;
