//! A terminal fire effect: the fire simulation, its palettes, the frame
//! renderer and the small text formats around them.
pub mod rng;
pub mod text;
pub mod fire;
pub mod render;
pub mod burn;
pub mod color;
pub mod choice;
pub mod config;
pub mod cli;
pub mod picker;
pub mod console;
pub mod banner;
