//! A text adventure engine: places joined by exits, objects to take, drop and eat, and
//! critters that can be fought. The library reads a command line and carries it out on the
//! game state; reading files and the terminal is left to the program around it.

pub mod names;
pub mod text;
pub mod dict;
pub mod world;
mod chance;
pub mod command;
pub mod laws;
