//! An instruction of any family, and its narrowing to one family.

use vstd::prelude::*;
use vstd::std_specs::convert::{FromSpecImpl, TryFromSpecImpl};
use crate::error::{Error, ErrorView, InstructionFamily};
use crate::instructions::copy::{CopyInstruction, CopyView};
use crate::instructions::run::{RunInstruction, RunView};
use crate::span::result_view;
use crate::token::{Rule, Token, unexpected};

verus! {

/// An assembled instruction.
#[derive(Debug, PartialEq, Eq, Clone)]
pub enum Instruction {
    Copy(CopyInstruction),
    Run(RunInstruction),
}

/// What an [`Instruction`] is to a contract.
pub enum InstructionView {
    Copy(CopyView),
    Run(RunView),
}

impl View for Instruction {
    type V = InstructionView;

    open spec fn view(&self) -> InstructionView {
        match *self {
            Instruction::Copy(copy) => InstructionView::Copy(copy@),
            Instruction::Run(run) => InstructionView::Run(run@),
        }
    }
}

/// The name by which a failed narrowing calls the record of a family.
pub open spec fn shape_name(family: InstructionFamily) -> Seq<char> {
    match family {
        InstructionFamily::Copy => "CopyInstruction"@,
        InstructionFamily::Run => "RunInstruction"@,
    }
}

/// The failure of narrowing an instruction of family `from` to family `to`.
pub open spec fn conversion_error(from: InstructionFamily, to: InstructionFamily) -> ErrorView {
    ErrorView::ConversionError { from: shape_name(from), to: shape_name(to) }
}

impl InstructionFamily {
    /// Computes `shape_name`.
    pub fn shape(self) -> (name: String)
        ensures
            name@ == shape_name(self),
    {
        match self {
            InstructionFamily::Copy => "CopyInstruction".to_owned(),
            InstructionFamily::Run => "RunInstruction".to_owned(),
        }
    }
}

impl Instruction {
    /// The family of this instruction.
    pub open spec fn spec_family(&self) -> InstructionFamily {
        match *self {
            Instruction::Copy(_) => InstructionFamily::Copy,
            Instruction::Run(_) => InstructionFamily::Run,
        }
    }

    /// What assembling the instruction token `record` gives.
    pub open spec fn outcome(record: Token) -> Result<InstructionView, ErrorView> {
        match record.rule {
            Rule::Copy => match CopyInstruction::outcome(record) {
                Err(error) => Err(error),
                Ok(copy) => Ok(InstructionView::Copy(copy)),
            },
            Rule::Run => match RunInstruction::outcome(record) {
                Err(error) => Err(error),
                Ok(run) => Ok(InstructionView::Run(run)),
            },
            _ => Err(unexpected(record)),
        }
    }

    /// Assembles the instruction of the family that the kind of `record`
    /// names.
    pub fn from_record(record: &Token) -> (result: Result<Instruction, Error>)
        ensures
            result_view(result) == Instruction::outcome(*record),
            record.well_formed() ==> match result {
                Ok(Instruction::Copy(copy)) => copy@.spans_contained(),
                Ok(Instruction::Run(run)) => run@.spans_contained(),
                Err(_) => true,
            },
    {
        match record.rule {
            Rule::Copy => match CopyInstruction::from_record(record) {
                Err(error) => Err(error),
                Ok(copy) => Ok(Instruction::Copy(copy)),
            },
            Rule::Run => match RunInstruction::from_record(record) {
                Err(error) => Err(error),
                Ok(run) => Ok(Instruction::Run(run)),
            },
            _ => Err(record.unexpected()),
        }
    }

    #[verifier::when_used_as_spec(spec_family)]
    pub fn family(&self) -> (family: InstructionFamily)
        ensures
            family == self.spec_family(),
    {
        match self {
            Instruction::Copy(_) => InstructionFamily::Copy,
            Instruction::Run(_) => InstructionFamily::Run,
        }
    }

    /// The failure of narrowing this instruction to family `to`.
    pub fn conversion_error(&self, to: InstructionFamily) -> (error: Error)
        ensures
            error@ == conversion_error(self.spec_family(), to),
    {
        Error::ConversionError { from: self.family().shape(), to: to.shape() }
    }

    /// The copy instruction, if this is one.
    pub fn into_copy(self) -> (copy: Option<CopyInstruction>)
        ensures
            copy == match self {
                Instruction::Copy(inner) => Some(inner),
                _ => None,
            },
    {
        match self {
            Instruction::Copy(inner) => Some(inner),
            _ => None,
        }
    }

    /// The copy instruction, if this is one.
    pub fn as_copy(&self) -> (copy: Option<&CopyInstruction>)
        ensures
            copy == match *self {
                Instruction::Copy(inner) => Some(&inner),
                _ => None,
            },
    {
        match self {
            Instruction::Copy(inner) => Some(inner),
            _ => None,
        }
    }

    /// The run instruction, if this is one.
    pub fn into_run(self) -> (run: Option<RunInstruction>)
        ensures
            run == match self {
                Instruction::Run(inner) => Some(inner),
                _ => None,
            },
    {
        match self {
            Instruction::Run(inner) => Some(inner),
            _ => None,
        }
    }

    /// The run instruction, if this is one.
    pub fn as_run(&self) -> (run: Option<&RunInstruction>)
        ensures
            run == match *self {
                Instruction::Run(inner) => Some(&inner),
                _ => None,
            },
    {
        match self {
            Instruction::Run(inner) => Some(inner),
            _ => None,
        }
    }
}

/// Narrows an instruction to a copy instruction. A copy instruction is
/// handed back as it is; any other instruction gives a conversion failure
/// that names its family and this one.
impl<'a> TryFrom<&'a Instruction> for &'a CopyInstruction {
    type Error = Error;

    fn try_from(instruction: &'a Instruction) -> (result: Result<&'a CopyInstruction, Error>)
        ensures
            match *instruction {
                Instruction::Copy(copy) => result == Ok::<&CopyInstruction, Error>(&copy),
                _ => result is Err && result->Err_0@ == conversion_error(
                    instruction.spec_family(),
                    InstructionFamily::Copy,
                ),
            },
    {
        match instruction {
            Instruction::Copy(copy) => Ok(copy),
            _ => Err(instruction.conversion_error(InstructionFamily::Copy)),
        }
    }
}

/// The failure holds strings, which a spec function cannot make, so what
/// `try_from` returns is stated on `try_from` itself and not here.
impl<'a> TryFromSpecImpl<&'a Instruction> for &'a CopyInstruction {
    open spec fn obeys_try_from_spec() -> bool {
        false
    }

    open spec fn try_from_spec(instruction: &'a Instruction) -> Result<&'a CopyInstruction, Error> {
        match *instruction {
            Instruction::Copy(copy) => Ok(&copy),
            _ => Err(arbitrary()),
        }
    }
}

/// Narrows an instruction to a run instruction. A run instruction is
/// handed back as it is; any other instruction gives a conversion failure
/// that names its family and this one.
impl<'a> TryFrom<&'a Instruction> for &'a RunInstruction {
    type Error = Error;

    fn try_from(instruction: &'a Instruction) -> (result: Result<&'a RunInstruction, Error>)
        ensures
            match *instruction {
                Instruction::Run(run) => result == Ok::<&RunInstruction, Error>(&run),
                _ => result is Err && result->Err_0@ == conversion_error(
                    instruction.spec_family(),
                    InstructionFamily::Run,
                ),
            },
    {
        match instruction {
            Instruction::Run(run) => Ok(run),
            _ => Err(instruction.conversion_error(InstructionFamily::Run)),
        }
    }
}

/// As for the copy instruction: `try_from` states its own result.
impl<'a> TryFromSpecImpl<&'a Instruction> for &'a RunInstruction {
    open spec fn obeys_try_from_spec() -> bool {
        false
    }

    open spec fn try_from_spec(instruction: &'a Instruction) -> Result<&'a RunInstruction, Error> {
        match *instruction {
            Instruction::Run(run) => Ok(&run),
            _ => Err(arbitrary()),
        }
    }
}

impl From<CopyInstruction> for Instruction {
    fn from(copy: CopyInstruction) -> (instruction: Instruction) {
        Instruction::Copy(copy)
    }
}

impl FromSpecImpl<CopyInstruction> for Instruction {
    open spec fn obeys_from_spec() -> bool {
        true
    }

    open spec fn from_spec(copy: CopyInstruction) -> Instruction {
        Instruction::Copy(copy)
    }
}

impl From<RunInstruction> for Instruction {
    fn from(run: RunInstruction) -> (instruction: Instruction) {
        Instruction::Run(run)
    }
}

impl FromSpecImpl<RunInstruction> for Instruction {
    open spec fn obeys_from_spec() -> bool {
        true
    }

    open spec fn from_spec(run: RunInstruction) -> Instruction {
        Instruction::Run(run)
    }
}

} // verus!
