use vstd::prelude::*;

pub mod pow2;
pub mod rng;
pub mod ring;
pub mod fir;
pub mod config;
pub mod routing;
pub mod crossover;
pub mod eq;
pub mod output;
pub mod source;
pub mod names;
pub mod player;
pub mod meters;
pub mod engine;
pub mod bass;
pub mod analyzer;
pub mod text;
pub mod store;
