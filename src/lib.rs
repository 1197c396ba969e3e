//! A two-stage toolchain for a 16-bit machine: stack-machine intermediate code is translated
//! into symbolic assembly, and assembly is translated into 16-bit machine words.
pub mod assembler;
pub mod codegen;
pub mod error;
pub mod parser;
pub mod text;
pub mod vm;
