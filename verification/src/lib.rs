//! The simulation core of an arcade survival game. Round bodies move on a
//! plane whose opposite edges meet, grow by eating food, shrink by shooting
//! and by being hit, and push each other apart. The world is advanced one
//! step at a time; between two steps it can be drawn and listened to.
//!
//! All quantities are fixed-point numbers in millionths (`scalar::UNIT` is
//! 1.0): lengths, speeds, times in seconds and colour channels. A mass is
//! the square of a radius. Quotients are rounded toward zero and square
//! roots down.
//!
//! `game::Game` is the world. `waves` holds its step, `Game::update`, whose
//! phases stand in `tick`, `combat` and `feeding`; `render` says what there
//! is to draw and to hear. The rules between two bodies are in `entity`,
//! their application to all pairs in `pairs`, and what holds of them in
//! `laws`, `separation` and `exemption`.

pub mod body;
pub mod bot;
pub mod color;
pub mod combat;
pub mod entity;
pub mod exemption;
pub mod feeding;
pub mod food;
pub mod game;
pub mod keyboard;
pub mod laws;
pub mod pairs;
pub mod player;
pub mod projectile;
pub mod render;
pub mod rng;
pub mod scalar;
pub mod separation;
pub mod sound;
pub mod space;
pub mod tick;
pub mod waves;
