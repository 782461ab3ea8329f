//! The integer logic of a Monte-Carlo path tracer: the bounce budget that
//! ends each light path, the flip from image rows to camera rows, and the
//! seeds of the per-pixel random generators that make a render reproducible.
pub mod path;
pub mod pixel;
pub mod seed;
