//! Parallel-concatenated convolutional (turbo) codes: a recursive systematic
//! convolutional encoder model, an interleaver, the turbo encoder and an
//! iterative soft-decision decoder working on fixed-point log-likelihood ratios.

pub mod common;
pub mod trellis;
pub mod interleaver;
pub mod encoder;
pub mod decoder;

pub use common::{Bit, Error};

pub use decoder::{decoder, DecodingAlgo};
pub use encoder::encoder;
pub use interleaver::Interleaver;
pub use trellis::Trellis;
