//! A minimalist, self-modifying, word-at-a-time interpreter for a
//! concatenative macro language.
//!
//! Programs are plain text.  Every whitespace-delimited (or single-character
//! "unique") token is looked up in a variable table; a token either names a
//! builtin instruction or resolves to stored text that is pushed back as new
//! source to be tokenized and executed.
//!
//! The crate is organized leaves first: [`strings`] holds the character and
//! word helpers everything else is built on, [`tokenizer`] turns layered text
//! sources into a stream of words, [`variables`] is the name-to-value store
//! with its system-variable layer, and [`interpreter`] drives one instruction
//! per step and leaves the host effects (printing, file reads, fatal stops)
//! to the caller.

pub mod interpreter;
pub mod strings;
pub mod tokenizer;
pub mod variables;
