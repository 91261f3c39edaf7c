//! Morphological deinflection: a generic rule-matching search over
//! language descriptors, per-language descriptor constructors, and a
//! Korean phonological codec bridging precomposed syllables and letters.

pub mod api;
pub mod english;
pub mod furigana;
pub mod japanese;
pub mod korean;
pub mod loader;
pub mod lookup;
pub mod spanish;
pub mod text;
pub mod transformer;
