//! The Hecate virtual machine: an RV32 machine with cache-aware memory tracking and
//! cycle score reporting, around the `rvsim` interpreter.

pub mod browser;
pub mod cache;
pub mod config;
pub mod control;
pub mod cpu;
pub mod debug_ui;
pub mod disasm;
pub mod elf;
pub mod entry;
pub mod json;
pub mod laws;
pub mod machine;
pub mod memory;
pub mod number;
pub mod report;
pub mod runtime;
pub mod stats;
pub mod text;
pub mod vm;
pub mod wasm;
