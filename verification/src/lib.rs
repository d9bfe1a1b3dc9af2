//! A deterministic expected-value engine for karma-dependent gift draws.
//!
//! For a normalized "karma" input and a chapter configuration, the engine
//! computes the expected number of gifts of each category and quality rank
//! after a fixed, chapter-specific sequence of probabilistic draw attempts.
//! All quantities are exact fixed-point fractions (see [`fx`]); every
//! function's behaviour is stated in its contract and machine-checked.

pub mod capacity;
pub mod fx;
pub mod gift;
pub mod modes;
pub mod rank;
pub mod sequence;
pub mod setup;
pub mod simulate;
pub mod wonder;

pub use fx::SCALE;
