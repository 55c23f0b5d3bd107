//! Text to phonemes: the dictionary phonemizers, the ByT5 model's input and
//! output handling, and the strategies that combine them.
pub mod chunks;
pub mod cmudict;
pub mod epitran;
pub mod neural;
pub mod phonemizer;
