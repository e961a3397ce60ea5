//! Core analysis-and-render pipeline for audio spectrograms.
//!
//! The library turns a mono sample buffer into the data of a spectrogram
//! image: short-time spectral analysis geometry, adaptive dynamic-range
//! normalization, frequency-axis remapping with bilinear interpolation,
//! spectral-rolloff estimation, and color-gradient mapping.
//!
//! Spectral magnitudes are carried as fixed-point integers (see
//! [`stft::MAG_ONE`]), so every stage downstream of the Fourier transform is
//! exact integer arithmetic with a full functional contract.

pub mod color;
pub mod config;
pub mod errors;
pub mod metadata;
pub mod palette;
pub mod render;
pub mod rolloff;
pub mod stft;
pub mod text;
