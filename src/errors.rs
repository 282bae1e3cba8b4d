//! The three error domains: compilation, the byte codec, and execution.
use vstd::prelude::*;
use crate::tokens::TokenKind;
use crate::values::ComptimeValueType;

verus! {

/// An error found while compiling a syntax tree. The first error wins.
#[allow(inconsistent_fields)]
#[derive(Debug, Clone)]
pub enum CompileError {
    UnknownMacro { name: String },
    CannotInferType { name: String },
    UndefinedType { undefined_type: String },
    TypeMismatch { expected: ComptimeValueType, found: ComptimeValueType },
    InvalidBinaryOp { op: TokenKind, left: ComptimeValueType, right: ComptimeValueType },
    UndefinedVariable { name: String },
    VariableRecreation { name: String },
    ConstantWithoutValue { name: String },
    ConstReassignment { name: String },
    WrongMacroArgCount { expected: usize, found: usize },
    ExpectedPrintable { found: ComptimeValueType },
    FunctionAlreadyExists { name: String },
    /// A variable was given the type `void`, which no variable can hold.
    InvalidVariableType { name: String },
    /// A call of a user-defined function: the instruction set has no call opcode.
    UnsupportedFunctionCall { name: String },
}

/// The stable identifier of each error.
pub open spec fn error_code(e: CompileError) -> Seq<char> {
    match e {
        CompileError::UnknownMacro { .. } => "E0001"@,
        CompileError::CannotInferType { .. } => "E0002"@,
        CompileError::UndefinedType { .. } => "E0003"@,
        CompileError::TypeMismatch { .. } => "E0004"@,
        CompileError::InvalidBinaryOp { .. } => "E0005"@,
        CompileError::UndefinedVariable { .. } => "E0006"@,
        CompileError::VariableRecreation { .. } => "E0007"@,
        CompileError::ConstantWithoutValue { .. } => "E0008"@,
        CompileError::ConstReassignment { .. } => "E0009"@,
        CompileError::WrongMacroArgCount { .. } => "E0010"@,
        CompileError::ExpectedPrintable { .. } => "E0011"@,
        CompileError::FunctionAlreadyExists { .. } => "E0012"@,
        CompileError::InvalidVariableType { .. } => "E0013"@,
        CompileError::UnsupportedFunctionCall { .. } => "E0014"@,
    }
}

impl CompileError {
    /// The stable identifier of the error, as listed by the error explainer.
    pub fn code(&self) -> (r: &'static str)
        ensures
            r@ == error_code(*self),
    {
        match self {
            CompileError::UnknownMacro { .. } => "E0001",
            CompileError::CannotInferType { .. } => "E0002",
            CompileError::UndefinedType { .. } => "E0003",
            CompileError::TypeMismatch { .. } => "E0004",
            CompileError::InvalidBinaryOp { .. } => "E0005",
            CompileError::UndefinedVariable { .. } => "E0006",
            CompileError::VariableRecreation { .. } => "E0007",
            CompileError::ConstantWithoutValue { .. } => "E0008",
            CompileError::ConstReassignment { .. } => "E0009",
            CompileError::WrongMacroArgCount { .. } => "E0010",
            CompileError::ExpectedPrintable { .. } => "E0011",
            CompileError::FunctionAlreadyExists { .. } => "E0012",
            CompileError::InvalidVariableType { .. } => "E0013",
            CompileError::UnsupportedFunctionCall { .. } => "E0014",
        }
    }
}

/// An error of the byte codec.
#[derive(Debug, Clone, Copy, PartialEq, Eq, Structural)]
pub enum CodecError {
    /// A byte that is no opcode, at the given offset.
    UnknownOpcode { opcode: u8, position: usize },
    UnexpectedEndOfStream,
    InvalidUtf8,
    InvalidBoolEncoding,
    /// The stream, a jump target or a string does not fit the wire format.
    ProgramTooLarge,
}

/// An error that stops a run of the virtual machine.
#[derive(Debug, Clone)]
pub enum RuntimeError {
    DivisionByZero,
    UndefinedVariableAtRuntime { name: String },
    StackUnderflow,
    UnexpectedEndOfProgram,
    /// Operands of a kind that the instruction cannot take.
    TypeError { opcode: u8 },
}

/// The model of a [`RuntimeError`].
pub enum RuntimeErrorModel {
    DivisionByZero,
    UndefinedVariableAtRuntime(Seq<char>),
    StackUnderflow,
    UnexpectedEndOfProgram,
    TypeError(u8),
}

impl View for RuntimeError {
    type V = RuntimeErrorModel;

    open spec fn view(&self) -> RuntimeErrorModel {
        match self {
            RuntimeError::DivisionByZero => RuntimeErrorModel::DivisionByZero,
            RuntimeError::UndefinedVariableAtRuntime { name } => RuntimeErrorModel::UndefinedVariableAtRuntime(name@),
            RuntimeError::StackUnderflow => RuntimeErrorModel::StackUnderflow,
            RuntimeError::UnexpectedEndOfProgram => RuntimeErrorModel::UnexpectedEndOfProgram,
            RuntimeError::TypeError { opcode } => RuntimeErrorModel::TypeError(*opcode),
        }
    }
}

} // verus!
