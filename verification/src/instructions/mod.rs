//! The assemblers, one module for each instruction family.

pub mod copy;
pub mod run;
