//! Three small text utilities, as a verified library: a concatenator that can
//! number lines, an echoer, and a truncator that keeps the first lines or
//! bytes of each source.
//!
//! Every function states what it returns over sequences of characters and
//! bytes. Reading files and writing streams is left to the caller, who hands
//! over what was read and prints what comes back.

pub mod catr;
pub mod cli;
pub mod decimal;
pub mod decoding;
pub mod echor;
pub mod headr;
pub mod source;
pub mod text;
