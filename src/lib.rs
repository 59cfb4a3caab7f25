//! Procedural dungeon generation and live tile state for a roguelike.
//!
//! A level is a grid of tiles carved by a structural builder, eroded by
//! drunkard's walks, opened by a structure filter, painted by noise masks and
//! decorated, then given stairs and traps on spawnable cells. The scent field
//! on its tiles is reinforced around the player and fades each turn.

// Data model.
pub mod color;
pub mod pos;
pub mod grid;
pub mod tile;
pub mod object;

// Paths through a map and the lemmas that keep it connected.
pub mod reach;
pub mod count;

// Random draws.
mod rng;

// Generation.
pub mod builder;
pub mod automata;
pub mod filter;
pub mod noise;
pub mod paint;
pub mod dungeon;
pub mod bitmap;

// Play.
pub mod actor;
pub mod ai;
pub mod game;
pub mod config;
