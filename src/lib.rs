//! An emulator and assembler for the DCPU-16, a 16-bit word-addressed processor.
//!
//! The library holds the memory, the instruction decoder, the CPU that executes
//! decoded instructions, and the assembler (tokenizer and parser) that turns
//! assembly text into the words the CPU runs.
pub mod alu;
pub mod cpu;
pub mod error;
pub mod instruction;
pub mod memory;
pub mod parser;
pub mod tokenizer;
