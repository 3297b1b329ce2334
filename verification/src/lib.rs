//! A unit-conversion engine.
//!
//! The engine keeps a registry of unit symbols, each mapped to a linear
//! conversion descriptor (an exact rational scale factor and additive offset)
//! relative to a base unit of its quantity family, together with a table of
//! metric prefixes. A textual expression such as `"10 km to m"` is parsed
//! into a value and unit tokens, the tokens are resolved against the registry
//! (an exact symbol match takes priority over prefix stripping), the value is
//! mapped through the base unit, and the result is rendered with two decimal
//! digits, trailing zeros trimmed.
//!
//! All arithmetic is exact rational arithmetic on machine integers; an input
//! whose exact result (or an intermediate of the fixed evaluation order)
//! leaves the machine range is rejected rather than approximated.

pub mod engine;
pub mod laws;
pub mod rational;
pub mod render;
pub mod text;

pub use engine::ConvError;
pub use engine::Converter;
pub use rational::Rat;
pub use rational::SRat;
