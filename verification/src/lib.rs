//! Span-preserving assembly of build-file instructions from a token tree.
//!
//! A tokenizer hands this library a tree of [`Token`]s, each with the kind of
//! grammar rule it matched, its byte range in the source text and its raw text.
//! The assemblers walk such a tree once and produce typed instruction records
//! in which every part keeps the range it was read from.

pub mod span;
pub mod error;
pub mod token;
pub mod heredoc;
pub mod breakable;
pub mod pair;
pub mod instructions;
pub mod instruction;

pub use breakable::{BreakableString, Fragment, FragmentKind};
pub use error::{Error, InstructionFamily};
pub use heredoc::{Heredoc, HeredocMatcher};
pub use instruction::Instruction;
pub use instructions::copy::{CopyFlag, CopyInstruction, SourceType};
pub use instructions::run::{RunInstruction, RunOption, ShellOrExecExpr, StringArray};
pub use span::{Span, SpannedString};
pub use token::{Rule, Token};
