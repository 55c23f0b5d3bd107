use vstd::prelude::*;

pub mod text;
pub mod tokenizer;
pub mod phonemizer;
pub mod instance;
pub mod config;
pub mod error;
pub mod audio;

verus! {

} // verus!
