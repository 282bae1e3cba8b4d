//! The instruction set of the stack machine and its wire opcodes.
use vstd::prelude::*;

verus! {

pub const ADD: u8 = 1;
pub const SUB: u8 = 2;
pub const MUL: u8 = 3;
pub const DIV: u8 = 4;
pub const MODULO: u8 = 5;
pub const GREATER: u8 = 6;
pub const LESS: u8 = 7;
pub const EQUAL: u8 = 8;
pub const PUSH_STR: u8 = 20;
pub const PUSH_BOOL: u8 = 21;
pub const PUSH_NUMB: u8 = 22;
pub const WRITE_LN: u8 = 30;
pub const WRITE: u8 = 31;
pub const JUMP: u8 = 40;
pub const JUMP_IF_FALSE: u8 = 41;
pub const JUMP_IF_TRUE: u8 = 42;
pub const STORE_VAR: u8 = 50;
pub const LOAD_VAR: u8 = 51;
pub const READ_INPUT: u8 = 60;
pub const PROCESS_EXIT: u8 = 61;
pub const HALT: u8 = 255;

/// One instruction of the stack machine.
///
/// `PushNumber` carries the bit pattern of an IEEE-754 single-precision float.
/// Jump targets are indices into the instruction stream; the stream's length
/// is a valid target and means "fall off the end".
#[derive(Debug, Clone)]
pub enum Instructions {
    Add,
    Sub,
    Div,
    Mul,
    Modulo,
    GreaterThan,
    LessThan,
    Equal,
    LoadVar(String),
    SaveVar(String),
    PushString(String),
    PushBool(bool),
    PushNumber(u32),
    ReadInput,
    WriteLnLastOnStack,
    WriteLastOnStack,
    ProcessExit,
    Jump(usize),
    JumpIfFalse(usize),
    JumpIfTrue(usize),
    Halt,
}

/// The mathematical model of an instruction: strings as character sequences,
/// jump targets as natural numbers.
pub enum Instr {
    Add,
    Sub,
    Div,
    Mul,
    Modulo,
    GreaterThan,
    LessThan,
    Equal,
    LoadVar(Seq<char>),
    SaveVar(Seq<char>),
    PushString(Seq<char>),
    PushBool(bool),
    PushNumber(u32),
    ReadInput,
    WriteLnLastOnStack,
    WriteLastOnStack,
    ProcessExit,
    Jump(nat),
    JumpIfFalse(nat),
    JumpIfTrue(nat),
    Halt,
}

impl View for Instructions {
    type V = Instr;

    open spec fn view(&self) -> Instr {
        match self {
            Instructions::Add => Instr::Add,
            Instructions::Sub => Instr::Sub,
            Instructions::Div => Instr::Div,
            Instructions::Mul => Instr::Mul,
            Instructions::Modulo => Instr::Modulo,
            Instructions::GreaterThan => Instr::GreaterThan,
            Instructions::LessThan => Instr::LessThan,
            Instructions::Equal => Instr::Equal,
            Instructions::LoadVar(s) => Instr::LoadVar(s@),
            Instructions::SaveVar(s) => Instr::SaveVar(s@),
            Instructions::PushString(s) => Instr::PushString(s@),
            Instructions::PushBool(b) => Instr::PushBool(*b),
            Instructions::PushNumber(n) => Instr::PushNumber(*n),
            Instructions::ReadInput => Instr::ReadInput,
            Instructions::WriteLnLastOnStack => Instr::WriteLnLastOnStack,
            Instructions::WriteLastOnStack => Instr::WriteLastOnStack,
            Instructions::ProcessExit => Instr::ProcessExit,
            Instructions::Jump(k) => Instr::Jump(*k as nat),
            Instructions::JumpIfFalse(k) => Instr::JumpIfFalse(*k as nat),
            Instructions::JumpIfTrue(k) => Instr::JumpIfTrue(*k as nat),
            Instructions::Halt => Instr::Halt,
        }
    }
}

/// The model of an instruction stream.
pub open spec fn code_view(code: Seq<Instructions>) -> Seq<Instr> {
    code.map_values(|i: Instructions| i@)
}

/// The wire opcode of an instruction.
pub open spec fn opcode_of(i: Instr) -> u8 {
    match i {
        Instr::Add => ADD,
        Instr::Sub => SUB,
        Instr::Div => DIV,
        Instr::Mul => MUL,
        Instr::Modulo => MODULO,
        Instr::GreaterThan => GREATER,
        Instr::LessThan => LESS,
        Instr::Equal => EQUAL,
        Instr::LoadVar(_) => LOAD_VAR,
        Instr::SaveVar(_) => STORE_VAR,
        Instr::PushString(_) => PUSH_STR,
        Instr::PushBool(_) => PUSH_BOOL,
        Instr::PushNumber(_) => PUSH_NUMB,
        Instr::ReadInput => READ_INPUT,
        Instr::WriteLnLastOnStack => WRITE_LN,
        Instr::WriteLastOnStack => WRITE,
        Instr::ProcessExit => PROCESS_EXIT,
        Instr::Jump(_) => JUMP,
        Instr::JumpIfFalse(_) => JUMP_IF_FALSE,
        Instr::JumpIfTrue(_) => JUMP_IF_TRUE,
        Instr::Halt => HALT,
    }
}

/// The branch target of a jump instruction, if it is one.
pub open spec fn jump_target(i: Instr) -> Option<nat> {
    match i {
        Instr::Jump(k) => Some(k),
        Instr::JumpIfFalse(k) => Some(k),
        Instr::JumpIfTrue(k) => Some(k),
        _ => None,
    }
}

/// The instruction is no jump, or its target is at most `n`.
pub open spec fn target_within(i: Instr, n: nat) -> bool {
    match jump_target(i) {
        Some(k) => k <= n,
        None => true,
    }
}

/// Every branch target of the stream lies in `[0, code.len()]`.
pub open spec fn targets_in_range(code: Seq<Instr>) -> bool {
    forall|i: int| 0 <= i < code.len() ==> #[trigger] target_within(code[i], code.len())
}

impl Instructions {
    /// The wire opcode of this instruction.
    pub fn opcode(&self) -> (r: u8)
        ensures
            r == opcode_of(self@),
    {
        match self {
            Instructions::Add => ADD,
            Instructions::Sub => SUB,
            Instructions::Div => DIV,
            Instructions::Mul => MUL,
            Instructions::Modulo => MODULO,
            Instructions::GreaterThan => GREATER,
            Instructions::LessThan => LESS,
            Instructions::Equal => EQUAL,
            Instructions::LoadVar(_) => LOAD_VAR,
            Instructions::SaveVar(_) => STORE_VAR,
            Instructions::PushString(_) => PUSH_STR,
            Instructions::PushBool(_) => PUSH_BOOL,
            Instructions::PushNumber(_) => PUSH_NUMB,
            Instructions::ReadInput => READ_INPUT,
            Instructions::WriteLnLastOnStack => WRITE_LN,
            Instructions::WriteLastOnStack => WRITE,
            Instructions::ProcessExit => PROCESS_EXIT,
            Instructions::Jump(_) => JUMP,
            Instructions::JumpIfFalse(_) => JUMP_IF_FALSE,
            Instructions::JumpIfTrue(_) => JUMP_IF_TRUE,
            Instructions::Halt => HALT,
        }
    }

    /// Copies an instruction, keeping its model.
    pub fn copy(&self) -> (r: Instructions)
        ensures
            r@ == self@,
    {
        match self {
            Instructions::LoadVar(s) => Instructions::LoadVar(s.clone()),
            Instructions::SaveVar(s) => Instructions::SaveVar(s.clone()),
            Instructions::PushString(s) => Instructions::PushString(s.clone()),
            Instructions::PushBool(b) => Instructions::PushBool(*b),
            Instructions::PushNumber(n) => Instructions::PushNumber(*n),
            Instructions::Jump(k) => Instructions::Jump(*k),
            Instructions::JumpIfFalse(k) => Instructions::JumpIfFalse(*k),
            Instructions::JumpIfTrue(k) => Instructions::JumpIfTrue(*k),
            Instructions::Add => Instructions::Add,
            Instructions::Sub => Instructions::Sub,
            Instructions::Div => Instructions::Div,
            Instructions::Mul => Instructions::Mul,
            Instructions::Modulo => Instructions::Modulo,
            Instructions::GreaterThan => Instructions::GreaterThan,
            Instructions::LessThan => Instructions::LessThan,
            Instructions::Equal => Instructions::Equal,
            Instructions::ReadInput => Instructions::ReadInput,
            Instructions::WriteLnLastOnStack => Instructions::WriteLnLastOnStack,
            Instructions::WriteLastOnStack => Instructions::WriteLastOnStack,
            Instructions::ProcessExit => Instructions::ProcessExit,
            Instructions::Halt => Instructions::Halt,
        }
    }
}

/// Tells whether every branch target of the stream lies in `[0, code.len()]`.
pub fn targets_valid(code: &Vec<Instructions>) -> (r: bool)
    ensures
        r == targets_in_range(code_view(code@)),
{
    let n = code.len();
    let mut i: usize = 0;
    assert(code_view(code@).len() == n);
    while i < n
        invariant
            n == code@.len(),
            code_view(code@).len() == n,
            i <= n,
            forall|j: int| 0 <= j < i ==> #[trigger] target_within(code_view(code@)[j], n as nat),
        decreases n - i,
    {
        let ok = match &code[i] {
            Instructions::Jump(k) | Instructions::JumpIfFalse(k) | Instructions::JumpIfTrue(k) => *k
                <= n,
            _ => true,
        };
        if !ok {
            assert(!target_within(code_view(code@)[i as int], n as nat));
            return false;
        }
        i = i + 1;
    }
    true
}

} // verus!
