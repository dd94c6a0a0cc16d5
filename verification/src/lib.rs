//! Reads RON, the Rusty Object Notation.
//!
//! [`parse`] reads tokens and [`de`] reads values made of them. [`parse::laws`] and [`de::laws`] state
//! what holds of the two as a whole.
pub mod de;
pub mod error;
pub mod extensions;
pub mod options;
pub mod parse;
pub mod text;
