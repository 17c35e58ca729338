//! Dynamic video stretching: what is decided on the way from a video in 4:3 to
//! one in 16:9, and back.
//!
//! The work itself is done by ffmpeg. This library says which programs to run and
//! with which arguments, reads what they answer, and computes the tables that
//! columns are moved by. It opens no file and starts no program: what it needs
//! from outside is handed to it as plain values.
//!
//! - [`remap`] computes the tables and [`pgm`] writes them as images; [`tables`]
//!   and [`width`] state what holds of them. [`binary64`] is the arithmetic that
//!   they are computed with, and [`specials`] its edges; [`reals`], [`curve`],
//!   [`accuracy`] and [`halving`] lead from there to the laws.
//! - [`encoder`], [`probe`], [`crop`] and [`vaapi`] read what ffmpeg and ffprobe
//!   answer and choose accordingly; [`shapes`] states what [`crop`] tells apart.
//! - [`encode`] puts the command together, and [`progress`] follows it; [`rates`]
//!   states what its numbers come to.
//! - [`job`] takes one input through all of this, and [`batch`] takes all inputs
//!   through, one after the other.
//! - [`paths`], [`args`], [`error`], [`text`], [`bytes`], [`decimal`] and
//!   [`fixed`] are what these are written with.
use vstd::prelude::*;

pub mod accuracy;
pub mod args;
pub mod batch;
pub mod binary64;
pub mod bytes;
pub mod crop;
pub mod curve;
pub mod decimal;
pub mod encode;
pub mod encoder;
pub mod error;
pub mod fixed;
pub mod halving;
pub mod job;
pub mod paths;
pub mod pgm;
pub mod probe;
pub mod progress;
pub mod rates;
pub mod reals;
pub mod remap;
pub mod shapes;
pub mod specials;
pub mod tables;
pub mod text;
pub mod vaapi;
pub mod width;
