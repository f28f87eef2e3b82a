//! Decoder for the `.radium` scene-asset container format.
//!
//! The format is a stream of tagged, length-prefixed binary records whose
//! grammar is only partly known. [`cursor`] provides bounds-checked primitive
//! reads over a byte slice; [`grammar`] states, as spec functions, what each
//! record decodes to; [`sections`] and [`container`] hold the executable
//! decoders, each proved to agree with the grammar. [`lemmas`] proves
//! properties of the format as a whole: rejection of short or mis-tagged
//! input, the string round trip, and what given streams decode to.
pub mod error;
pub mod cursor;
pub mod grammar;
pub mod sections;
pub mod container;
pub mod lemmas;
