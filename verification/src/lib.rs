//! A desktop sheep: its animation format, its behaviour and its drawing.
//!
//! Everything here is computed from plain values. Talking to the compositor,
//! reading files and waiting for time to pass is left to the host program.

pub mod anim;
pub mod base64;
pub mod blit;
pub mod climbs;
pub mod config;
pub mod decimals;
pub mod desktop;
pub mod dice;
pub mod expr;
pub mod fixed;
pub mod flock;
pub mod frames;
pub mod grammar;
pub mod ground;
pub mod herding;
pub mod hypr;
pub mod json;
pub mod jsondoc;
pub mod laws;
pub mod manners;
pub mod meetings;
pub mod motion;
pub mod mouse;
pub mod notation;
pub mod number;
pub mod options;
pub mod pace;
pub mod petfile;
pub mod picture;
pub mod placing;
pub mod reading;
pub mod rearing;
pub mod refresh;
pub mod senses;
pub mod sheep;
pub mod sprites;
pub mod step;
pub mod text;
pub mod tossing;
pub mod weights;
pub mod world;
pub mod xml;
