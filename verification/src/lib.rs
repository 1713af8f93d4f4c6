//! Measures how well a 32-bit bit-mixing function scrambles, and searches
//! for mixing constants that scramble better.
//!
//! - `hash_gen`: elementary mixing operations and sequences of them.
//! - `injective`: that a mixing operation loses nothing.
//! - `mixer`: what is measured, a function of an input and a seed.
//! - `measure`: the measurement itself, by random samples in parallel chunks.
//! - `stats`: what a measurement counts, and how counts add up.
//! - `score`: how far a measurement is from that of an ideal scramble.
//! - `optimize`: the search, by mutation and fresh starts.
//! - `tuning`: the search for the constants of one family of functions.
//! - `image`: a measurement as a picture, and pictures as PNG files.
//! - `bits`: single bits, and a word read backwards.
//!
//! Everything is computed in whole numbers: a matrix holds sums of counts
//! beside the number of samples they were counted from, and a score is the
//! numerator of a fraction whose denominator depends on that number alone.
//! Fractions are left to the caller.

pub mod bits;
pub mod hash_gen;
pub mod image;
pub mod injective;
pub mod measure;
pub mod mixer;
pub mod optimize;
mod random;
pub mod score;
pub mod stats;
pub mod tuning;
