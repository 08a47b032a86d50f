//! A verified Cinepak video codec.
//!
//! The crate holds the bitstream layers of the codec (frame and strip
//! headers, codebook chunks, vector chunks), the decoder that turns a
//! frame into pixels, the encoder that turns pixels into a frame, a reader
//! for the Sega FILM container, and a structural linter. Every function
//! states its behaviour in a contract.

use vstd::prelude::*;

pub mod agreement;
pub mod bargains;
pub mod bits;
pub mod blocks;
pub mod budget;
pub mod clean;
pub mod clustering;
pub mod codebook;
pub mod colours;
pub mod cutting;
pub mod decoder;
pub mod demux;
pub mod drawing;
pub mod encoder;
pub mod error;
pub mod fidelity;
pub mod film;
pub mod fitting;
pub mod framing;
pub mod grid;
pub mod header;
pub mod image;
pub mod inspection;
pub mod knobs;
pub mod lint;
pub mod macroblocks;
pub mod measure;
pub mod median;
pub mod options;
pub mod pacing;
pub mod planning;
pub mod pricing;
pub mod quant;
pub mod rate;
pub mod reading;
pub mod reclaim;
pub mod reels;
pub mod registry;
pub mod renewal;
pub mod resetting;
pub mod rolling;
pub mod roundtrip;
pub mod sampling;
pub mod schooling;
pub mod search;
pub mod seeding;
pub mod session;
pub mod showing;
pub mod sizes;
pub mod splitting;
pub mod stab;
pub mod streaming;
pub mod strips;
pub mod stripwise;
pub mod tally;
pub mod text;
pub mod training;
pub mod variants;
pub mod vector;
pub mod weights;
pub(crate) mod wide;
pub mod window;
pub mod yuv;

pub use crate::decoder::CinepakDecoder;
pub use crate::encoder::{
    encode_gray8, encode_rgb24, encode_rgb24_inter, CinepakEncoder, EncoderOptions, FrameStats,
    RateControlledFrame, TwoPassRateControl,
};
pub use crate::error::{CinepakError, Result};
pub use crate::film::{probe_film, Fdsc, FilmDemuxer, FilmHeader, SampleRecord, StabHeader};
pub use crate::image::{CinepakFrame, CinepakPixelFormat, CinepakPlane};

verus! {

/// Identifier under which codec registries list this codec.
pub const CODEC_ID_STR: &'static str = "cinepak";

} // verus!
