//! Decoding, persistence and denoising for a Mode A/C altitude plotter.
//!
//! The pipeline: a raw text line is decoded into an altitude reading
//! (`adsb`), readings are saved to and loaded from a compact binary
//! format (`data`), and a loaded sequence can be filtered by
//! neighbor consensus before display (`denoise`).

pub mod adsb;
pub mod data;
pub mod denoise;
pub mod settings;
