//! Microtonal tuning primitives: integer math, keys and notes, MIDI messages,
//! rank-2 temperament note naming, MOS scales and isomorphic layouts.
pub mod comma;
pub mod generators;
pub mod key;
pub mod layout;
pub mod math;
pub mod midi;
pub mod mts;
pub mod parse;
pub mod note;
pub mod pergen;
pub mod pool;
pub mod routing;
pub mod scala;
pub mod temperament;
pub mod text;
pub mod tuner;
