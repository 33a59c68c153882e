use vstd::prelude::*;

pub mod bot;
pub mod capture;
pub mod cli;
pub mod config;
pub mod decode;
pub mod framing;
pub mod graphs;
pub mod harmonic;
pub mod input;
pub mod midi;
pub mod notes;
pub mod options;
pub mod paths;
pub mod pcm;
pub mod report;
pub mod ring;
pub mod text;
pub mod voice;

verus! {
} // verus!
