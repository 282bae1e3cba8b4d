//! The syntax tree that the compiler accepts, as the parser hands it over.
use vstd::prelude::*;
use crate::tokens::TokenKind;
use crate::values::ComptimeValueType;

verus! {

/// Whether a call names a built-in macro (`name!(...)`) or a function.
#[derive(Debug, Clone, Copy, PartialEq, Eq, Structural)]
pub enum CallType {
    Macro,
    Fn,
}

/// An integer literal; `number` is the bit pattern of its value as a 32-bit float.
pub struct NumberNode {
    pub number: u32,
}

/// A float literal; `number` is the bit pattern of its value as a 32-bit float.
pub struct FloatNode {
    pub number: u32,
}

pub struct StringNode {
    pub value: String,
}

/// A boolean literal: `TRUE` stands for true, any other kind for false.
pub struct BoolNode {
    pub value: TokenKind,
}

pub struct VariableAccessNode {
    pub variable_name: String,
}

/// `left op_tok right`; the operator is one of `PLUS`, `MINUS`, `TIMES`,
/// `DIVIDE`, `MODULO`, `GREATER`, `LESS`, and `EQUAL` (for `==`).
pub struct BinaryOpNode {
    pub left: Box<Node>,
    pub right: Box<Node>,
    pub op_tok: TokenKind,
}

/// `var name: type = value;` or `const ...`; the type and the value may each be absent.
pub struct VariableDefineNode {
    pub var_name: String,
    pub value_type: Option<String>,
    pub value: Option<Box<Node>>,
    pub is_const: bool,
}

pub struct VariableAssignNode {
    pub name: String,
    pub value: Box<Node>,
}

pub struct FunctionCallNode {
    pub args: Vec<Node>,
    pub name: String,
    pub call_type: CallType,
}

pub struct IfStatement {
    pub then_branch: Vec<Node>,
    pub condition: Box<Node>,
    pub else_branch: Option<Vec<Node>>,
}

pub struct WhileStatement {
    pub condition: Box<Node>,
    pub body: Vec<Node>,
}

/// A parameter of a user-defined function.
pub struct FunctionArgs {
    pub argument_type: ComptimeValueType,
    pub name: String,
}

/// A function definition: its signature is recorded, its body is not emitted.
pub struct FunctionDefineNode {
    pub args: Vec<FunctionArgs>,
    pub id: String,
    pub body: Vec<Node>,
    pub return_type: Option<String>,
}

/// A statement or an expression.
pub enum Node {
    Number(NumberNode),
    Float(FloatNode),
    Str(StringNode),
    Bool(BoolNode),
    BinaryOp(BinaryOpNode),
    VariableAccess(VariableAccessNode),
    VariableDefine(VariableDefineNode),
    VariableAssign(VariableAssignNode),
    Call(FunctionCallNode),
    If(IfStatement),
    While(WhileStatement),
    FunctionDefine(FunctionDefineNode),
}

/// A whole program: its top-level statements in order.
pub struct ProgramNode {
    pub program_nodes: Vec<Node>,
}

impl ProgramNode {
    pub fn new() -> (r: ProgramNode)
        ensures
            r.program_nodes@.len() == 0,
    {
        ProgramNode { program_nodes: Vec::new() }
    }
}

} // verus!
