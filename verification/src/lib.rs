//! An assembler for a small 16-bit register machine.
//!
//! The library turns symbolic assembly text into fixed-width binary machine
//! instructions: a character-level scanner classifies each source line, a
//! symbol table resolves predefined names, labels and variables to addresses,
//! and an encoder maps mnemonic fields to bit patterns.  Text is carried as
//! `Vec<char>` so that every step of the translation is verified.

pub mod commands;
pub mod numeral;
pub mod parser;
pub mod pipeline;
pub mod symbols;
pub mod text;
