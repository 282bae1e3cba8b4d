//! The semantic compiler: scoped name resolution, static type checking and
//! lowering of the syntax tree into an instruction stream, in one pass.
//!
//! The spec functions below state, for each kind of node, the code it emits,
//! the context it leaves and its static type, or the first error it meets.
//! Positions are absolute: `base` is the length of the stream before the node.
use vstd::prelude::*;
use crate::ast::{
    BinaryOpNode, CallType, FunctionCallNode, FunctionDefineNode, IfStatement, Node, ProgramNode,
    VariableAssignNode, VariableDefineNode, WhileStatement,
};
use crate::context::{
    find_binding, lookup, registered, resolve_type, CompileContext, CompileTimeFunctionForCheck,
    ComptimeVariable, Frame,
};
use crate::errors::CompileError;
use crate::instructions::{code_view, jump_target, target_within, targets_in_range, Instr, Instructions};
use crate::macros::{builtin_macros, Macro, MacroManager};
use crate::tokens::TokenKind;
use crate::optimizer::{optimize, optimizes_to};
use crate::values::ComptimeValueType;

verus! {

/// The model of a compile context: the scope frames (the global one first)
/// and the registered function signatures.
pub struct CtxModel {
    pub frames: Seq<Frame>,
    pub functions: Seq<(Seq<char>, CompileTimeFunctionForCheck)>,
}

impl CtxModel {
    pub open spec fn enter(self) -> CtxModel {
        CtxModel { frames: self.frames.push(Seq::empty()), ..self }
    }

    pub open spec fn exit(self) -> CtxModel {
        CtxModel { frames: self.frames.drop_last(), ..self }
    }

    pub open spec fn define(self, name: Seq<char>, v: ComptimeVariable) -> CtxModel {
        CtxModel {
            frames: self.frames.drop_last().push(self.frames.last().push((name, v))),
            ..self
        }
    }
}

/// What compiling a node gives: the code, the context after it, and its static type.
pub struct Emitted {
    pub code: Seq<Instr>,
    pub ctx: CtxModel,
    pub ty: ComptimeValueType,
}

/// Static type and opcode of `left op right`, or `None` where the operands do not fit the operator.
pub open spec fn binop_rule(op: TokenKind, l: ComptimeValueType, r: ComptimeValueType) -> Option<
    (ComptimeValueType, Instr),
> {
    let numeric = l == r && (l == ComptimeValueType::Int || l == ComptimeValueType::Float);
    match op {
        TokenKind::PLUS => if numeric || (l == ComptimeValueType::StringValue && r
            == ComptimeValueType::StringValue) {
            Some((l, Instr::Add))
        } else {
            None
        },
        TokenKind::MINUS => if numeric { Some((l, Instr::Sub)) } else { None },
        TokenKind::TIMES => if numeric { Some((l, Instr::Mul)) } else { None },
        TokenKind::DIVIDE => if numeric { Some((l, Instr::Div)) } else { None },
        TokenKind::MODULO => if numeric { Some((l, Instr::Modulo)) } else { None },
        TokenKind::GREATER => if numeric {
            Some((ComptimeValueType::Bool, Instr::GreaterThan))
        } else {
            None
        },
        TokenKind::LESS => if numeric {
            Some((ComptimeValueType::Bool, Instr::LessThan))
        } else {
            None
        },
        TokenKind::EQUAL => if l == r {
            Some((ComptimeValueType::Bool, Instr::Equal))
        } else {
            None
        },
        _ => None,
    }
}

/// Types that the printing macros accept.
pub open spec fn printable(t: ComptimeValueType) -> bool {
    t == ComptimeValueType::StringValue || t == ComptimeValueType::Int || t
        == ComptimeValueType::Float
}

/// The push of a variable's zero value, for a definition with a type and no value.
pub open spec fn zero_value(t: ComptimeValueType) -> Seq<Instr> {
    match t {
        ComptimeValueType::StringValue => seq![Instr::PushString(Seq::empty())],
        ComptimeValueType::Bool => seq![Instr::PushBool(false)],
        ComptimeValueType::Int => seq![Instr::PushNumber(0)],
        ComptimeValueType::Float => seq![Instr::PushNumber(0)],
        ComptimeValueType::Void => Seq::empty(),
    }
}

/// Puts `pre` in front of the code of a successful result.
pub open spec fn prepend(pre: Seq<Instr>, r: Result<(Seq<Instr>, CtxModel), CompileError>) -> Result<
    (Seq<Instr>, CtxModel),
    CompileError,
> {
    match r {
        Ok((code, ctx)) => Ok((pre + code, ctx)),
        Err(e) => Err(e),
    }
}

/// Compiles statements in order; the first error wins.
pub open spec fn compile_block_spec(
    macros: Seq<(Seq<char>, Macro)>,
    ctx: CtxModel,
    base: nat,
    stmts: Seq<Node>,
) -> Result<(Seq<Instr>, CtxModel), CompileError>
    decreases stmts,
{
    if stmts.len() == 0 {
        Ok((Seq::empty(), ctx))
    } else {
        match compile_node_spec(macros, ctx, base, stmts[0]) {
            Err(e) => Err(e),
            Ok(c) => prepend(
                c.code,
                compile_block_spec(
                    macros,
                    c.ctx,
                    base + c.code.len(),
                    stmts.subrange(1, stmts.len() as int),
                ),
            ),
        }
    }
}

/// Compiles the arguments of `writeLn!` or `write!`: each one, checked
/// printable, then followed by the write instruction.
pub open spec fn compile_print_spec(
    macros: Seq<(Seq<char>, Macro)>,
    ctx: CtxModel,
    base: nat,
    args: Seq<Node>,
    newline: bool,
) -> Result<(Seq<Instr>, CtxModel), CompileError>
    decreases args,
{
    if args.len() == 0 {
        Ok((Seq::empty(), ctx))
    } else {
        match compile_node_spec(macros, ctx, base, args[0]) {
            Err(e) => Err(e),
            Ok(c) => if !printable(c.ty) {
                Err(CompileError::ExpectedPrintable { found: c.ty })
            } else {
                let w = if newline {
                    Instr::WriteLnLastOnStack
                } else {
                    Instr::WriteLastOnStack
                };
                prepend(
                    c.code.push(w),
                    compile_print_spec(
                        macros,
                        c.ctx,
                        base + c.code.len() + 1,
                        args.subrange(1, args.len() as int),
                        newline,
                    ),
                )
            },
        }
    }
}

/// Compiles one node.
pub open spec fn compile_node_spec(
    macros: Seq<(Seq<char>, Macro)>,
    ctx: CtxModel,
    base: nat,
    node: Node,
) -> Result<Emitted, CompileError>
    decreases node,
{
    match node {
        Node::Number(n) => Ok(
            Emitted { code: seq![Instr::PushNumber(n.number)], ctx, ty: ComptimeValueType::Int },
        ),
        Node::Float(n) => Ok(
            Emitted { code: seq![Instr::PushNumber(n.number)], ctx, ty: ComptimeValueType::Float },
        ),
        Node::Str(n) => Ok(
            Emitted {
                code: seq![Instr::PushString(n.value@)],
                ctx,
                ty: ComptimeValueType::StringValue,
            },
        ),
        Node::Bool(n) => Ok(
            Emitted {
                code: seq![Instr::PushBool(n.value == TokenKind::TRUE)],
                ctx,
                ty: ComptimeValueType::Bool,
            },
        ),
        Node::BinaryOp(n) => match compile_node_spec(macros, ctx, base, *n.left) {
            Err(e) => Err(e),
            Ok(l) => match compile_node_spec(macros, l.ctx, base + l.code.len(), *n.right) {
                Err(e) => Err(e),
                Ok(r) => match binop_rule(n.op_tok, l.ty, r.ty) {
                    None => Err(CompileError::InvalidBinaryOp { op: n.op_tok, left: l.ty, right: r.ty }),
                    Some((t, op)) => Ok(Emitted { code: l.code + r.code.push(op), ctx: r.ctx, ty: t }),
                },
            },
        },
        Node::VariableAccess(n) => match lookup(ctx.frames, n.variable_name@) {
            None => Err(CompileError::UndefinedVariable { name: n.variable_name }),
            Some(v) => Ok(
                Emitted {
                    code: seq![Instr::LoadVar(n.variable_name@)],
                    ctx,
                    ty: v.value_type,
                },
            ),
        },
        Node::VariableDefine(n) => {
            if find_binding(ctx.frames.last(), n.var_name@) is Some {
                Err(CompileError::VariableRecreation { name: n.var_name })
            } else if n.is_const && n.value is None {
                Err(CompileError::ConstantWithoutValue { name: n.var_name })
            } else {
                let init = match n.value {
                    Some(v) => match compile_node_spec(macros, ctx, base, *v) {
                        Ok(c) => Ok(Some(c)),
                        Err(e) => Err(e),
                    },
                    None => Ok(None),
                };
                match init {
                    Err(e) => Err(e),
                    Ok(init) => {
                        let declared = match n.value_type {
                            Some(t) => match resolve_type(t@) {
                                Some(d) => Ok(Some(d)),
                                None => Err(CompileError::UndefinedType { undefined_type: t }),
                            },
                            None => Ok(None),
                        };
                        match declared {
                            Err(e) => Err(e),
                            Ok(declared) => {
                                let ctx2 = match init {
                                    Some(c) => c.ctx,
                                    None => ctx,
                                };
                                let init_code = match init {
                                    Some(c) => c.code,
                                    None => Seq::empty(),
                                };
                                let reconciled = match (declared, init) {
                                    (Some(d), Some(c)) => if d == c.ty {
                                        Ok((d, Seq::<Instr>::empty()))
                                    } else {
                                        Err(CompileError::TypeMismatch { expected: d, found: c.ty })
                                    },
                                    (Some(d), None) => Ok((d, zero_value(d))),
                                    (None, Some(c)) => Ok((c.ty, Seq::<Instr>::empty())),
                                    (None, None) => Err(
                                        CompileError::CannotInferType { name: n.var_name },
                                    ),
                                };
                                match reconciled {
                                    Err(e) => Err(e),
                                    Ok((t, zero)) => if t == ComptimeValueType::Void {
                                        Err(CompileError::InvalidVariableType { name: n.var_name })
                                    } else if find_binding(ctx2.frames.last(), n.var_name@) is Some {
                                        Err(CompileError::VariableRecreation { name: n.var_name })
                                    } else {
                                        Ok(
                                            Emitted {
                                                code: init_code + zero + seq![
                                                    Instr::SaveVar(n.var_name@),
                                                ],
                                                ctx: ctx2.define(
                                                    n.var_name@,
                                                    ComptimeVariable {
                                                        value_type: t,
                                                        is_const: n.is_const,
                                                    },
                                                ),
                                                ty: ComptimeValueType::Void,
                                            },
                                        )
                                    },
                                }
                            },
                        }
                    },
                }
            }
        },
        Node::VariableAssign(n) => match lookup(ctx.frames, n.name@) {
            None => Err(CompileError::UndefinedVariable { name: n.name }),
            Some(v) => if v.is_const {
                Err(CompileError::ConstReassignment { name: n.name })
            } else {
                match compile_node_spec(macros, ctx, base, *n.value) {
                    Err(e) => Err(e),
                    Ok(c) => if c.ty != v.value_type {
                        Err(CompileError::TypeMismatch { expected: v.value_type, found: c.ty })
                    } else {
                        Ok(
                            Emitted {
                                code: c.code.push(Instr::SaveVar(n.name@)),
                                ctx: c.ctx,
                                ty: ComptimeValueType::Void,
                            },
                        )
                    },
                }
            },
        },
        Node::Call(n) => match n.call_type {
            CallType::Fn => Err(CompileError::UnsupportedFunctionCall { name: n.name }),
            CallType::Macro => match find_binding(macros, n.name@) {
                None => Err(CompileError::UnknownMacro { name: n.name }),
                Some(mac) => match mac {
                    Macro::WriteLn(_) | Macro::Write(_) => if n.args@.len() == 0 {
                        Err(CompileError::WrongMacroArgCount { expected: 1, found: 0 })
                    } else {
                        match compile_print_spec(
                            macros,
                            ctx,
                            base,
                            n.args@,
                            mac is WriteLn,
                        ) {
                            Err(e) => Err(e),
                            Ok((code, ctx2)) => Ok(
                                Emitted { code, ctx: ctx2, ty: ComptimeValueType::Void },
                            ),
                        }
                    },
                    Macro::ProcessExit(_) | Macro::ReadInput(_) => if n.args@.len() != 1 {
                        Err(
                            CompileError::WrongMacroArgCount {
                                expected: 1,
                                found: n.args@.len() as usize,
                            },
                        )
                    } else {
                        match compile_node_spec(macros, ctx, base, n.args@[0]) {
                            Err(e) => Err(e),
                            Ok(c) => if mac is ProcessExit {
                                if c.ty != ComptimeValueType::Int {
                                    Err(
                                        CompileError::TypeMismatch {
                                            expected: ComptimeValueType::Int,
                                            found: c.ty,
                                        },
                                    )
                                } else {
                                    Ok(
                                        Emitted {
                                            code: c.code.push(Instr::ProcessExit),
                                            ctx: c.ctx,
                                            ty: ComptimeValueType::Void,
                                        },
                                    )
                                }
                            } else if c.ty != ComptimeValueType::StringValue {
                                Err(
                                    CompileError::TypeMismatch {
                                        expected: ComptimeValueType::StringValue,
                                        found: c.ty,
                                    },
                                )
                            } else {
                                Ok(
                                    Emitted {
                                        code: c.code + seq![
                                            Instr::WriteLastOnStack,
                                            Instr::ReadInput,
                                        ],
                                        ctx: c.ctx,
                                        ty: ComptimeValueType::StringValue,
                                    },
                                )
                            },
                        }
                    },
                },
            },
        },
        Node::If(n) => match compile_node_spec(macros, ctx, base, *n.condition) {
            Err(e) => Err(e),
            Ok(c) => if c.ty != ComptimeValueType::Bool {
                Err(CompileError::TypeMismatch { expected: ComptimeValueType::Bool, found: c.ty })
            } else {
                let then_base = base + c.code.len() + 1;
                match compile_block_spec(macros, c.ctx.enter(), then_base, n.then_branch@) {
                    Err(e) => Err(e),
                    Ok((tcode, tctx)) => {
                        let else_base = then_base + tcode.len() + 1;
                        let else_result = match n.else_branch {
                            Some(b) => compile_block_spec(macros, tctx.exit().enter(), else_base, b@),
                            None => Ok((Seq::empty(), tctx.exit().enter())),
                        };
                        match else_result {
                            Err(e) => Err(e),
                            Ok((ecode, ectx)) => Ok(
                                Emitted {
                                    code: c.code + seq![Instr::JumpIfFalse(else_base)] + tcode
                                        + seq![Instr::Jump(else_base + ecode.len())] + ecode,
                                    ctx: ectx.exit(),
                                    ty: ComptimeValueType::Void,
                                },
                            ),
                        }
                    },
                }
            },
        },
        Node::While(n) => match compile_node_spec(macros, ctx, base, *n.condition) {
            Err(e) => Err(e),
            Ok(c) => if c.ty != ComptimeValueType::Bool {
                Err(CompileError::TypeMismatch { expected: ComptimeValueType::Bool, found: c.ty })
            } else {
                let body_base = base + c.code.len() + 1;
                match compile_block_spec(macros, c.ctx.enter(), body_base, n.body@) {
                    Err(e) => Err(e),
                    Ok((bcode, bctx)) => Ok(
                        Emitted {
                            code: c.code + seq![Instr::JumpIfFalse(body_base + bcode.len() + 1)]
                                + bcode + seq![Instr::Jump(base)],
                            ctx: bctx.exit(),
                            ty: ComptimeValueType::Void,
                        },
                    ),
                }
            },
        },
        Node::FunctionDefine(n) => {
            let ret = match n.return_type {
                Some(t) => match resolve_type(t@) {
                    Some(ty) => Ok(ty),
                    None => Err(CompileError::UndefinedType { undefined_type: t }),
                },
                None => Ok(ComptimeValueType::Void),
            };
            match ret {
                Err(e) => Err(e),
                Ok(ret) => if registered(ctx.functions, n.id@) {
                    Err(CompileError::FunctionAlreadyExists { name: n.id })
                } else {
                    Ok(
                        Emitted {
                            code: Seq::empty(),
                            ctx: CtxModel {
                                functions: ctx.functions.push(
                                    (n.id@, CompileTimeFunctionForCheck { return_type: ret, is_pub: true }),
                                ),
                                ..ctx
                            },
                            ty: ComptimeValueType::Void,
                        },
                    )
                },
            }
        },
    }
}

/// Compiles a program: its statements in the global frame, then `Halt`.
pub open spec fn compile_program_spec(
    macros: Seq<(Seq<char>, Macro)>,
    ctx: CtxModel,
    base: nat,
    program: Seq<Node>,
) -> Result<(Seq<Instr>, CtxModel), CompileError> {
    match compile_block_spec(macros, ctx, base, program) {
        Ok((code, ctx2)) => Ok((code.push(Instr::Halt), ctx2)),
        Err(e) => Err(e),
    }
}

/// Compiling a node leaves as many frames as it found, and changes none but the top one.
pub proof fn lemma_node_frames(
    macros: Seq<(Seq<char>, Macro)>,
    ctx: CtxModel,
    base: nat,
    node: Node,
)
    requires
        ctx.frames.len() >= 1,
    ensures
        compile_node_spec(macros, ctx, base, node) matches Ok(e) ==> e.ctx.frames.len()
            == ctx.frames.len() && e.ctx.frames.drop_last() == ctx.frames.drop_last(),
    decreases node,
{
    match node {
        Node::BinaryOp(n) => {
            lemma_node_frames(macros, ctx, base, *n.left);
            if let Ok(l) = compile_node_spec(macros, ctx, base, *n.left) {
                lemma_node_frames(macros, l.ctx, base + l.code.len(), *n.right);
            }
        },
        Node::VariableDefine(n) => {
            if let Some(v) = n.value {
                lemma_node_frames(macros, ctx, base, *v);
            }
        },
        Node::VariableAssign(n) => {
            lemma_node_frames(macros, ctx, base, *n.value);
        },
        Node::Call(n) => {
            lemma_print_frames(macros, ctx, base, n.args@, true);
            lemma_print_frames(macros, ctx, base, n.args@, false);
            if n.args@.len() == 1 {
                lemma_node_frames(macros, ctx, base, n.args@[0]);
            }
        },
        Node::If(n) => {
            lemma_node_frames(macros, ctx, base, *n.condition);
            if let Ok(c) = compile_node_spec(macros, ctx, base, *n.condition) {
                let then_base = base + c.code.len() + 1;
                lemma_block_frames(macros, c.ctx.enter(), then_base, n.then_branch@);
                if let Ok((tcode, tctx)) = compile_block_spec(
                    macros,
                    c.ctx.enter(),
                    then_base,
                    n.then_branch@,
                ) {
                    if let Some(b) = n.else_branch {
                        lemma_block_frames(
                            macros,
                            tctx.exit().enter(),
                            then_base + tcode.len() + 1,
                            b@,
                        );
                    }
                }
            }
        },
        Node::While(n) => {
            lemma_node_frames(macros, ctx, base, *n.condition);
            if let Ok(c) = compile_node_spec(macros, ctx, base, *n.condition) {
                lemma_block_frames(macros, c.ctx.enter(), base + c.code.len() + 1, n.body@);
            }
        },
        _ => {},
    }
}

/// Compiling statements leaves as many frames as they found, and changes none but the top one.
pub proof fn lemma_block_frames(
    macros: Seq<(Seq<char>, Macro)>,
    ctx: CtxModel,
    base: nat,
    stmts: Seq<Node>,
)
    requires
        ctx.frames.len() >= 1,
    ensures
        compile_block_spec(macros, ctx, base, stmts) matches Ok((_, c)) ==> c.frames.len()
            == ctx.frames.len() && c.frames.drop_last() == ctx.frames.drop_last(),
    decreases stmts,
{
    if stmts.len() > 0 {
        lemma_node_frames(macros, ctx, base, stmts[0]);
        if let Ok(c) = compile_node_spec(macros, ctx, base, stmts[0]) {
            lemma_block_frames(
                macros,
                c.ctx,
                base + c.code.len(),
                stmts.subrange(1, stmts.len() as int),
            );
        }
    }
}

/// Compiling the arguments of a printing macro leaves as many frames as it found, and
/// changes none but the top one.
pub proof fn lemma_print_frames(
    macros: Seq<(Seq<char>, Macro)>,
    ctx: CtxModel,
    base: nat,
    args: Seq<Node>,
    newline: bool,
)
    requires
        ctx.frames.len() >= 1,
    ensures
        compile_print_spec(macros, ctx, base, args, newline) matches Ok((_, c)) ==> c.frames.len()
            == ctx.frames.len() && c.frames.drop_last() == ctx.frames.drop_last(),
    decreases args,
{
    if args.len() > 0 {
        lemma_node_frames(macros, ctx, base, args[0]);
        if let Ok(c) = compile_node_spec(macros, ctx, base, args[0]) {
            lemma_print_frames(
                macros,
                c.ctx,
                base + c.code.len() + 1,
                args.subrange(1, args.len() as int),
                newline,
            );
        }
    }
}

/// Putting two prefixes in front of a result, one after the other, puts their concatenation.
pub proof fn lemma_prepend_twice(
    a: Seq<Instr>,
    b: Seq<Instr>,
    r: Result<(Seq<Instr>, CtxModel), CompileError>,
)
    ensures
        prepend(a, prepend(b, r)) == prepend(a + b, r),
{
    if let Ok((code, ctx)) = r {
        assert(a + (b + code) =~= (a + b) + code);
    }
}

/// The static type and instruction of `left op right`, or `None` where the
/// operands do not fit the operator.
pub fn binary_op_rule(op: TokenKind, l: ComptimeValueType, r: ComptimeValueType) -> (res: Option<
    (ComptimeValueType, Instructions),
>)
    ensures
        match binop_rule(op, l, r) {
            None => res is None,
            Some((t, i)) => res matches Some((t2, i2)) && t2 == t && i2@ == i,
        },
{
    let numeric = l == r && (l == ComptimeValueType::Int || l == ComptimeValueType::Float);
    match op {
        TokenKind::PLUS => if numeric || (l == ComptimeValueType::StringValue && r
            == ComptimeValueType::StringValue) {
            Some((l, Instructions::Add))
        } else {
            None
        },
        TokenKind::MINUS => if numeric { Some((l, Instructions::Sub)) } else { None },
        TokenKind::TIMES => if numeric { Some((l, Instructions::Mul)) } else { None },
        TokenKind::DIVIDE => if numeric { Some((l, Instructions::Div)) } else { None },
        TokenKind::MODULO => if numeric { Some((l, Instructions::Modulo)) } else { None },
        TokenKind::GREATER => if numeric {
            Some((ComptimeValueType::Bool, Instructions::GreaterThan))
        } else {
            None
        },
        TokenKind::LESS => if numeric {
            Some((ComptimeValueType::Bool, Instructions::LessThan))
        } else {
            None
        },
        TokenKind::EQUAL => if l == r {
            Some((ComptimeValueType::Bool, Instructions::Equal))
        } else {
            None
        },
        _ => None,
    }
}

/// The compiler state: the compile context, the instructions emitted so far,
/// and the macro registry.
pub struct Compiler {
    pub context: CompileContext,
    pub out: Vec<Instructions>,
    pub macros: MacroManager,
}

impl Compiler {
    /// The model of the compile context.
    pub open spec fn model(&self) -> CtxModel {
        CtxModel { frames: self.context.frames(), functions: self.context.registry() }
    }

    pub open spec fn wf(&self) -> bool {
        self.context.wf()
    }

    /// A compiler with an empty global frame, no functions, no code, and the built-in macros.
    pub fn new() -> (r: Compiler)
        ensures
            r.wf(),
            r.model() == (CtxModel { frames: seq![Seq::empty()], functions: Seq::empty() }),
            r.out@.len() == 0,
            r.macros@ == builtin_macros(),
    {
        Compiler { context: CompileContext::new(), out: Vec::new(), macros: MacroManager::new() }
    }

    /// Appends one instruction.
    fn emit(&mut self, i: Instructions)
        ensures
            code_view(final(self).out@) == code_view(old(self).out@) + seq![i@],
            final(self).out@.len() == old(self).out@.len() + 1,
            final(self).context == old(self).context,
            final(self).macros == old(self).macros,
    {
        self.out.push(i);
        assert(code_view(self.out@) =~= code_view(old(self).out@) + seq![i@]);
    }

    /// Overwrites the placeholder at `pos`.
    fn patch(&mut self, pos: usize, i: Instructions)
        requires
            pos < old(self).out@.len(),
        ensures
            code_view(final(self).out@) == code_view(old(self).out@).update(pos as int, i@),
            final(self).out@.len() == old(self).out@.len(),
            final(self).context == old(self).context,
            final(self).macros == old(self).macros,
    {
        self.out.set(pos, i);
        assert(code_view(self.out@) =~= code_view(old(self).out@).update(pos as int, i@));
    }

    /// Appends the push of a type's zero value.
    fn emit_zero_value(&mut self, t: ComptimeValueType)
        ensures
            code_view(final(self).out@) == code_view(old(self).out@) + zero_value(t),
            final(self).context == old(self).context,
            final(self).macros == old(self).macros,
    {
        match t {
            ComptimeValueType::StringValue => self.emit(Instructions::PushString(String::new())),
            ComptimeValueType::Bool => self.emit(Instructions::PushBool(false)),
            ComptimeValueType::Int | ComptimeValueType::Float => self.emit(
                Instructions::PushNumber(0),
            ),
            ComptimeValueType::Void => {
                assert(code_view(self.out@) =~= code_view(old(self).out@) + zero_value(t));
            },
        }
    }

    /// Compiles statements in order.
    pub fn compile_block(&mut self, stmts: &Vec<Node>) -> (r: Result<(), CompileError>)
        requires
            old(self).wf(),
        ensures
            final(self).wf(),
            final(self).macros@ == old(self).macros@,
            match compile_block_spec(old(self).macros@, old(self).model(), old(self).out@.len(), stmts@) {
                Ok((code, ctx)) => r is Ok && code_view(final(self).out@) == code_view(old(self).out@)
                    + code && final(self).model() == ctx,
                Err(e) => r == Err::<(), CompileError>(e),
            },
        decreases stmts,
    {
        let ghost m = self.macros@;
        let ghost ctx0 = self.model();
        let ghost code0 = code_view(self.out@);
        let ghost base0 = self.out@.len();
        let n = stmts.len();
        let mut i: usize = 0;
        assert(stmts@.subrange(0, n as int) =~= stmts@);
        assert(code_view(self.out@).subrange(base0 as int, base0 as int) =~= Seq::<Instr>::empty());
        assert(code_view(self.out@).subrange(0, base0 as int) =~= code0);
        while i < n
            invariant
                self.wf(),
                self.macros@ == m,
                m == old(self).macros@,
                ctx0 == old(self).model(),
                code0 == code_view(old(self).out@),
                base0 == old(self).out@.len(),
                n == stmts@.len(),
                0 <= i <= n,
                self.out@.len() >= base0,
                code_view(self.out@).subrange(0, base0 as int) == code0,
                compile_block_spec(m, ctx0, base0, stmts@) == prepend(
                    code_view(self.out@).subrange(base0 as int, self.out@.len() as int),
                    compile_block_spec(
                        m,
                        self.model(),
                        self.out@.len() as nat,
                        stmts@.subrange(i as int, n as int),
                    ),
                ),
            decreases n - i,
        {
            let ghost before = code_view(self.out@);
            let ghost written = before.subrange(base0 as int, before.len() as int);
            let ghost cur = stmts@.subrange(i as int, n as int);
            let ghost model = self.model();
            assert(cur[0] == stmts@[i as int]);
            assert(cur.subrange(1, cur.len() as int) =~= stmts@.subrange(i + 1, n as int));
            let r = self.compile_node(&stmts[i]);
            match r {
                Err(e) => {
                    return Err(e);
                },
                Ok(_) => {},
            }
            proof {
                let c = compile_node_spec(m, model, before.len(), stmts@[i as int])->Ok_0;
                let after = code_view(self.out@);
                assert(after.subrange(base0 as int, after.len() as int) =~= written + c.code);
                assert(after.subrange(0, base0 as int) =~= code0);
                lemma_prepend_twice(
                    written,
                    c.code,
                    compile_block_spec(
                        m,
                        c.ctx,
                        before.len() + c.code.len(),
                        stmts@.subrange(i + 1, n as int),
                    ),
                );
            }
            i = i + 1;
        }
        proof {
            let after = code_view(self.out@);
            assert(after =~= code0 + after.subrange(base0 as int, after.len() as int));
        }
        Ok(())
    }

    /// Compiles the arguments of a printing macro, each followed by its write instruction.
    fn compile_print(&mut self, args: &Vec<Node>, newline: bool) -> (r: Result<(), CompileError>)
        requires
            old(self).wf(),
        ensures
            final(self).wf(),
            final(self).macros@ == old(self).macros@,
            match compile_print_spec(
                old(self).macros@,
                old(self).model(),
                old(self).out@.len(),
                args@,
                newline,
            ) {
                Ok((code, ctx)) => r is Ok && code_view(final(self).out@) == code_view(old(self).out@)
                    + code && final(self).model() == ctx,
                Err(e) => r == Err::<(), CompileError>(e),
            },
        decreases args,
    {
        let ghost m = self.macros@;
        let ghost ctx0 = self.model();
        let ghost code0 = code_view(self.out@);
        let ghost base0 = self.out@.len();
        let n = args.len();
        let mut i: usize = 0;
        assert(args@.subrange(0, n as int) =~= args@);
        assert(code_view(self.out@).subrange(base0 as int, base0 as int) =~= Seq::<Instr>::empty());
        assert(code_view(self.out@).subrange(0, base0 as int) =~= code0);
        while i < n
            invariant
                self.wf(),
                self.macros@ == m,
                m == old(self).macros@,
                ctx0 == old(self).model(),
                code0 == code_view(old(self).out@),
                base0 == old(self).out@.len(),
                n == args@.len(),
                0 <= i <= n,
                self.out@.len() >= base0,
                code_view(self.out@).subrange(0, base0 as int) == code0,
                compile_print_spec(m, ctx0, base0, args@, newline) == prepend(
                    code_view(self.out@).subrange(base0 as int, self.out@.len() as int),
                    compile_print_spec(
                        m,
                        self.model(),
                        self.out@.len() as nat,
                        args@.subrange(i as int, n as int),
                        newline,
                    ),
                ),
            decreases n - i,
        {
            let ghost before = code_view(self.out@);
            let ghost written = before.subrange(base0 as int, before.len() as int);
            let ghost cur = args@.subrange(i as int, n as int);
            let ghost model = self.model();
            assert(cur[0] == args@[i as int]);
            assert(cur.subrange(1, cur.len() as int) =~= args@.subrange(i + 1, n as int));
            let t = match self.compile_node(&args[i]) {
                Err(e) => {
                    return Err(e);
                },
                Ok(t) => t,
            };
            if !(t == ComptimeValueType::StringValue || t == ComptimeValueType::Int || t
                == ComptimeValueType::Float) {
                return Err(CompileError::ExpectedPrintable { found: t });
            }
            if newline {
                self.emit(Instructions::WriteLnLastOnStack);
            } else {
                self.emit(Instructions::WriteLastOnStack);
            }
            proof {
                let c = compile_node_spec(m, model, before.len(), args@[i as int])->Ok_0;
                let w = if newline {
                    Instr::WriteLnLastOnStack
                } else {
                    Instr::WriteLastOnStack
                };
                let after = code_view(self.out@);
                assert(after.subrange(base0 as int, after.len() as int) =~= written + c.code.push(w));
                assert(after.subrange(0, base0 as int) =~= code0);
                lemma_prepend_twice(
                    written,
                    c.code.push(w),
                    compile_print_spec(
                        m,
                        c.ctx,
                        before.len() + c.code.len() + 1,
                        args@.subrange(i + 1, n as int),
                        newline,
                    ),
                );
            }
            i = i + 1;
        }
        proof {
            let after = code_view(self.out@);
            assert(after =~= code0 + after.subrange(base0 as int, after.len() as int));
        }
        Ok(())
    }

    /// Compiles a macro call; calls of user-defined functions are refused.
    fn compile_call(&mut self, n: &FunctionCallNode) -> (r: Result<ComptimeValueType, CompileError>)
        requires
            old(self).wf(),
        ensures
            final(self).wf(),
            final(self).macros@ == old(self).macros@,
            match compile_node_spec(old(self).macros@, old(self).model(), old(self).out@.len(), Node::Call(*n)) {
                Ok(e) => r == Ok::<ComptimeValueType, CompileError>(e.ty) && code_view(
                    final(self).out@,
                ) == code_view(old(self).out@) + e.code && final(self).model() == e.ctx,
                Err(e) => r == Err::<ComptimeValueType, CompileError>(e),
            },
        decreases n,
    {
        let ghost code0 = code_view(self.out@);
        match n.call_type {
            CallType::Fn => Err(CompileError::UnsupportedFunctionCall { name: n.name.clone() }),
            CallType::Macro => {
                let mac = match self.macros.get_macro(n.name.as_str()) {
                    Some(m) => m,
                    None => return Err(CompileError::UnknownMacro { name: n.name.clone() }),
                };
                match mac {
                    Macro::WriteLn(_) | Macro::Write(_) => {
                        if n.args.len() == 0 {
                            return Err(CompileError::WrongMacroArgCount { expected: 1, found: 0 });
                        }
                        match self.compile_print(&n.args, matches!(mac, Macro::WriteLn(_))) {
                            Ok(()) => Ok(ComptimeValueType::Void),
                            Err(e) => Err(e),
                        }
                    },
                    Macro::ProcessExit(_) | Macro::ReadInput(_) => {
                        if n.args.len() != 1 {
                            return Err(
                                CompileError::WrongMacroArgCount { expected: 1, found: n.args.len() },
                            );
                        }
                        let t = match self.compile_node(&n.args[0]) {
                            Ok(t) => t,
                            Err(e) => return Err(e),
                        };
                        let ghost mid = code_view(self.out@);
                        let ghost arg_code = mid.subrange(code0.len() as int, mid.len() as int);
                        assert(mid =~= code0 + arg_code);
                        if matches!(mac, Macro::ProcessExit(_)) {
                            if t != ComptimeValueType::Int {
                                return Err(
                                    CompileError::TypeMismatch {
                                        expected: ComptimeValueType::Int,
                                        found: t,
                                    },
                                );
                            }
                            self.emit(Instructions::ProcessExit);
                            assert(code_view(self.out@) =~= code0 + arg_code.push(Instr::ProcessExit));
                            Ok(ComptimeValueType::Void)
                        } else {
                            if t != ComptimeValueType::StringValue {
                                return Err(
                                    CompileError::TypeMismatch {
                                        expected: ComptimeValueType::StringValue,
                                        found: t,
                                    },
                                );
                            }
                            self.emit(Instructions::WriteLastOnStack);
                            self.emit(Instructions::ReadInput);
                            assert(code_view(self.out@) =~= code0 + (arg_code + seq![
                                Instr::WriteLastOnStack,
                                Instr::ReadInput,
                            ]));
                            Ok(ComptimeValueType::StringValue)
                        }
                    },
                }
            },
        }
    }

    /// Compiles `if`: the condition, a forward branch over the then-part, and
    /// an unconditional branch over the else-part, both back-patched; each part
    /// in a scope of its own.
    fn compile_if(&mut self, n: &IfStatement) -> (r: Result<ComptimeValueType, CompileError>)
        requires
            old(self).wf(),
        ensures
            final(self).wf(),
            final(self).macros@ == old(self).macros@,
            match compile_node_spec(old(self).macros@, old(self).model(), old(self).out@.len(), Node::If(*n)) {
                Ok(e) => r == Ok::<ComptimeValueType, CompileError>(e.ty) && code_view(
                    final(self).out@,
                ) == code_view(old(self).out@) + e.code && final(self).model() == e.ctx,
                Err(e) => r == Err::<ComptimeValueType, CompileError>(e),
            },
        decreases n,
    {
        let ghost m = self.macros@;
        let ghost code0 = code_view(self.out@);
        let ghost ctx0 = self.model();
        let ghost base = code0.len();
        let ct = match self.compile_node(&n.condition) {
            Ok(t) => t,
            Err(e) => return Err(e),
        };
        if ct != ComptimeValueType::Bool {
            return Err(CompileError::TypeMismatch { expected: ComptimeValueType::Bool, found: ct });
        }
        let ghost c = compile_node_spec(m, ctx0, base, *n.condition)->Ok_0;
        let ghost then_base = base + c.code.len() + 1;
        proof {
            lemma_node_frames(m, ctx0, base, *n.condition);
            lemma_block_frames(m, c.ctx.enter(), then_base, n.then_branch@);
        }
        let p_false = self.out.len();
        self.emit(Instructions::JumpIfFalse(0));
        self.context.enter_scope();
        assert(code_view(self.out@).len() == self.out@.len());
        assert(self.out@.len() == then_base);
        assert(self.model() == c.ctx.enter());
        match self.compile_block(&n.then_branch) {
            Ok(()) => {},
            Err(e) => return Err(e),
        }
        assert(code_view(self.out@).len() == self.out@.len());
        let ghost after_then = code_view(self.out@);
        let ghost tcode = after_then.subrange(then_base as int, after_then.len() as int);
        let ghost tctx = self.model();
        self.context.exit_scope();
        let p_end = self.out.len();
        self.emit(Instructions::Jump(0));
        let else_start = self.out.len();
        self.patch(p_false, Instructions::JumpIfFalse(else_start));
        self.context.enter_scope();
        assert(self.model() == tctx.exit().enter());
        match &n.else_branch {
            Some(b) => {
                proof {
                    lemma_block_frames(m, tctx.exit().enter(), else_start as nat, b@);
                }
                assert(self.out@.len() == else_start);
                match self.compile_block(b) {
                    Ok(()) => {},
                    Err(e) => return Err(e),
                }
            },
            None => {},
        }
        assert(code_view(self.out@).len() == self.out@.len());
        let ghost after_else = code_view(self.out@);
        let ghost ecode = after_else.subrange(else_start as int, after_else.len() as int);
        self.context.exit_scope();
        let end = self.out.len();
        self.patch(p_end, Instructions::Jump(end));
        proof {
            assert(after_then =~= code0 + c.code + seq![Instr::JumpIfFalse(0)] + tcode);
            assert(after_else =~= code0 + c.code + seq![Instr::JumpIfFalse(else_start as nat)]
                + tcode + seq![Instr::Jump(0)] + ecode);
            assert(code_view(self.out@) =~= code0 + (c.code + seq![
                Instr::JumpIfFalse(else_start as nat),
            ] + tcode + seq![Instr::Jump(end as nat)] + ecode));
        }
        Ok(ComptimeValueType::Void)
    }

    /// Compiles `while`: the condition, a forward branch out of the loop
    /// (back-patched), the body in a scope of its own, and a branch back to the condition.
    fn compile_while(&mut self, n: &WhileStatement) -> (r: Result<ComptimeValueType, CompileError>)
        requires
            old(self).wf(),
        ensures
            final(self).wf(),
            final(self).macros@ == old(self).macros@,
            match compile_node_spec(old(self).macros@, old(self).model(), old(self).out@.len(), Node::While(*n)) {
                Ok(e) => r == Ok::<ComptimeValueType, CompileError>(e.ty) && code_view(
                    final(self).out@,
                ) == code_view(old(self).out@) + e.code && final(self).model() == e.ctx,
                Err(e) => r == Err::<ComptimeValueType, CompileError>(e),
            },
        decreases n,
    {
        let ghost m = self.macros@;
        let ghost code0 = code_view(self.out@);
        let ghost ctx0 = self.model();
        let loop_top = self.out.len();
        let ct = match self.compile_node(&n.condition) {
            Ok(t) => t,
            Err(e) => return Err(e),
        };
        if ct != ComptimeValueType::Bool {
            return Err(CompileError::TypeMismatch { expected: ComptimeValueType::Bool, found: ct });
        }
        let ghost c = compile_node_spec(m, ctx0, loop_top as nat, *n.condition)->Ok_0;
        let ghost body_base = (loop_top + c.code.len() + 1) as nat;
        proof {
            lemma_node_frames(m, ctx0, loop_top as nat, *n.condition);
            lemma_block_frames(m, c.ctx.enter(), body_base, n.body@);
        }
        let p_exit = self.out.len();
        self.emit(Instructions::JumpIfFalse(0));
        self.context.enter_scope();
        assert(code_view(self.out@).len() == self.out@.len());
        assert(self.out@.len() == body_base);
        assert(self.model() == c.ctx.enter());
        match self.compile_block(&n.body) {
            Ok(()) => {},
            Err(e) => return Err(e),
        }
        assert(code_view(self.out@).len() == self.out@.len());
        let ghost after_body = code_view(self.out@);
        let ghost bcode = after_body.subrange(body_base as int, after_body.len() as int);
        self.context.exit_scope();
        self.emit(Instructions::Jump(loop_top));
        let exit = self.out.len();
        self.patch(p_exit, Instructions::JumpIfFalse(exit));
        proof {
            assert(after_body =~= code0 + c.code + seq![Instr::JumpIfFalse(0)] + bcode);
            assert(code_view(self.out@) =~= code0 + (c.code + seq![
                Instr::JumpIfFalse(exit as nat),
            ] + bcode + seq![Instr::Jump(loop_top as nat)]));
        }
        Ok(ComptimeValueType::Void)
    }

    /// Compiles `left op right`: left operand first, then the right one, then the operator.
    fn compile_binary(&mut self, n: &BinaryOpNode) -> (r: Result<ComptimeValueType, CompileError>)
        requires
            old(self).wf(),
        ensures
            final(self).wf(),
            final(self).macros@ == old(self).macros@,
            match compile_node_spec(old(self).macros@, old(self).model(), old(self).out@.len(), Node::BinaryOp(*n)) {
                Ok(e) => r == Ok::<ComptimeValueType, CompileError>(e.ty) && code_view(
                    final(self).out@,
                ) == code_view(old(self).out@) + e.code && final(self).model() == e.ctx,
                Err(e) => r == Err::<ComptimeValueType, CompileError>(e),
            },
        decreases n,
    {
        let ghost code0 = code_view(self.out@);
        let left = match self.compile_node(&n.left) {
            Ok(t) => t,
            Err(e) => return Err(e),
        };
        let ghost mid = code_view(self.out@);
        let right = match self.compile_node(&n.right) {
            Ok(t) => t,
            Err(e) => return Err(e),
        };
        match binary_op_rule(n.op_tok, left, right) {
            None => Err(CompileError::InvalidBinaryOp { op: n.op_tok, left, right }),
            Some((t, op)) => {
                let ghost op_v = op@;
                self.emit(op);
                proof {
                    let l = compile_node_spec(old(self).macros@, old(self).model(), code0.len(), *n.left)->Ok_0;
                    let r = compile_node_spec(old(self).macros@, l.ctx, mid.len(), *n.right)->Ok_0;
                    assert(code_view(self.out@) =~= code0 + (l.code + r.code.push(op_v)));
                }
                Ok(t)
            },
        }
    }

    /// Compiles the definition of a variable in the current frame.
    fn compile_define(&mut self, n: &VariableDefineNode) -> (r: Result<ComptimeValueType, CompileError>)
        requires
            old(self).wf(),
        ensures
            final(self).wf(),
            final(self).macros@ == old(self).macros@,
            match compile_node_spec(old(self).macros@, old(self).model(), old(self).out@.len(), Node::VariableDefine(*n)) {
                Ok(e) => r == Ok::<ComptimeValueType, CompileError>(e.ty) && code_view(
                    final(self).out@,
                ) == code_view(old(self).out@) + e.code && final(self).model() == e.ctx,
                Err(e) => r == Err::<ComptimeValueType, CompileError>(e),
            },
        decreases n,
    {
        let ghost code0 = code_view(self.out@);
        if self.context.defined_in_current_scope(n.var_name.as_str()) {
            return Err(CompileError::VariableRecreation { name: n.var_name.clone() });
        }
        if n.is_const && n.value.is_none() {
            return Err(CompileError::ConstantWithoutValue { name: n.var_name.clone() });
        }
        let inferred: Option<ComptimeValueType> = match &n.value {
            Some(v) => match self.compile_node(v) {
                Ok(t) => Some(t),
                Err(e) => return Err(e),
            },
            None => None,
        };
        let ghost after_init = code_view(self.out@);
        let declared: Option<ComptimeValueType> = match &n.value_type {
            Some(t) => match CompileContext::get_type(t.as_str()) {
                Ok(d) => Some(d),
                Err(_) => return Err(CompileError::UndefinedType { undefined_type: t.clone() }),
            },
            None => None,
        };
        let final_type = match (declared, inferred) {
            (Some(d), Some(i)) => {
                if d != i {
                    return Err(CompileError::TypeMismatch { expected: d, found: i });
                }
                d
            },
            (Some(d), None) => {
                self.emit_zero_value(d);
                d
            },
            (None, Some(i)) => i,
            (None, None) => {
                return Err(CompileError::CannotInferType { name: n.var_name.clone() });
            },
        };
        let ghost after_zero = code_view(self.out@);
        if final_type == ComptimeValueType::Void {
            return Err(CompileError::InvalidVariableType { name: n.var_name.clone() });
        }
        let var = ComptimeVariable { value_type: final_type, is_const: n.is_const };
        match self.context.add_variable(n.var_name.clone(), var) {
            Ok(()) => {},
            Err(e) => return Err(e),
        }
        self.emit(Instructions::SaveVar(n.var_name.clone()));
        proof {
            let init_code = after_init.subrange(code0.len() as int, after_init.len() as int);
            let zero = after_zero.subrange(after_init.len() as int, after_zero.len() as int);
            assert(code_view(self.out@) =~= code0 + init_code + zero + seq![Instr::SaveVar(n.var_name@)]);
        }
        Ok(ComptimeValueType::Void)
    }

    /// Compiles an assignment to a variable that is not constant.
    fn compile_assign(&mut self, n: &VariableAssignNode) -> (r: Result<ComptimeValueType, CompileError>)
        requires
            old(self).wf(),
        ensures
            final(self).wf(),
            final(self).macros@ == old(self).macros@,
            match compile_node_spec(old(self).macros@, old(self).model(), old(self).out@.len(), Node::VariableAssign(*n)) {
                Ok(e) => r == Ok::<ComptimeValueType, CompileError>(e.ty) && code_view(
                    final(self).out@,
                ) == code_view(old(self).out@) + e.code && final(self).model() == e.ctx,
                Err(e) => r == Err::<ComptimeValueType, CompileError>(e),
            },
        decreases n,
    {
        let ghost code0 = code_view(self.out@);
        let v = match self.context.get_variable(n.name.as_str()) {
            None => return Err(CompileError::UndefinedVariable { name: n.name.clone() }),
            Some(v) => v,
        };
        if v.is_const {
            return Err(CompileError::ConstReassignment { name: n.name.clone() });
        }
        let t = match self.compile_node(&n.value) {
            Ok(t) => t,
            Err(e) => return Err(e),
        };
        if t != v.value_type {
            return Err(CompileError::TypeMismatch { expected: v.value_type, found: t });
        }
        let ghost mid = code_view(self.out@);
        self.emit(Instructions::SaveVar(n.name.clone()));
        proof {
            assert(code_view(self.out@) =~= code0 + mid.subrange(code0.len() as int, mid.len() as int).push(Instr::SaveVar(n.name@)));
        }
        Ok(ComptimeValueType::Void)
    }

    /// Records the signature of a function definition; no code is emitted.
    fn compile_function_define(&mut self, n: &FunctionDefineNode) -> (r: Result<ComptimeValueType, CompileError>)
        requires
            old(self).wf(),
        ensures
            final(self).wf(),
            final(self).macros@ == old(self).macros@,
            match compile_node_spec(old(self).macros@, old(self).model(), old(self).out@.len(), Node::FunctionDefine(*n)) {
                Ok(e) => r == Ok::<ComptimeValueType, CompileError>(e.ty) && code_view(
                    final(self).out@,
                ) == code_view(old(self).out@) + e.code && final(self).model() == e.ctx,
                Err(e) => r == Err::<ComptimeValueType, CompileError>(e),
            },
    {
        let ghost code0 = code_view(self.out@);
        let ret = match &n.return_type {
            Some(t) => match CompileContext::get_type(t.as_str()) {
                Ok(d) => d,
                Err(_) => return Err(CompileError::UndefinedType { undefined_type: t.clone() }),
            },
            None => ComptimeValueType::Void,
        };
        let sig = CompileTimeFunctionForCheck { return_type: ret, is_pub: true };
        match self.context.add_function(n.id.clone(), sig) {
            Ok(()) => {},
            Err(e) => return Err(e),
        }
        assert(code_view(self.out@) =~= code0 + Seq::<Instr>::empty());
        Ok(ComptimeValueType::Void)
    }

    /// Compiles one node, appending its code, and returns its static type.
    /// On an error the emitted code is to be discarded.
    pub fn compile_node(&mut self, node: &Node) -> (r: Result<ComptimeValueType, CompileError>)
        requires
            old(self).wf(),
        ensures
            final(self).wf(),
            final(self).macros@ == old(self).macros@,
            match compile_node_spec(old(self).macros@, old(self).model(), old(self).out@.len(), *node) {
                Ok(e) => r == Ok::<ComptimeValueType, CompileError>(e.ty) && code_view(
                    final(self).out@,
                ) == code_view(old(self).out@) + e.code && final(self).model() == e.ctx,
                Err(e) => r == Err::<ComptimeValueType, CompileError>(e),
            },
        decreases node,
    {
        match node {
            Node::Number(n) => {
                self.emit(Instructions::PushNumber(n.number));
                Ok(ComptimeValueType::Int)
            },
            Node::Float(n) => {
                self.emit(Instructions::PushNumber(n.number));
                Ok(ComptimeValueType::Float)
            },
            Node::Str(n) => {
                self.emit(Instructions::PushString(n.value.clone()));
                Ok(ComptimeValueType::StringValue)
            },
            Node::Bool(n) => {
                self.emit(Instructions::PushBool(n.value == TokenKind::TRUE));
                Ok(ComptimeValueType::Bool)
            },
            Node::BinaryOp(n) => self.compile_binary(n),
            Node::VariableAccess(n) => {
                match self.context.get_variable(n.variable_name.as_str()) {
                    None => Err(CompileError::UndefinedVariable { name: n.variable_name.clone() }),
                    Some(v) => {
                        self.emit(Instructions::LoadVar(n.variable_name.clone()));
                        Ok(v.value_type)
                    },
                }
            },
            Node::VariableDefine(n) => self.compile_define(n),
            Node::VariableAssign(n) => self.compile_assign(n),
            Node::Call(n) => self.compile_call(n),
            Node::If(n) => self.compile_if(n),
            Node::While(n) => self.compile_while(n),
            Node::FunctionDefine(n) => self.compile_function_define(n),
        }
    }

    /// Runs the optimizer over the emitted code; `sum` adds two numbers.
    pub fn optimize<F: Fn(u32, u32) -> u32>(&mut self, sum: F)
        requires
            targets_in_range(code_view(old(self).out@)),
            forall|a: u32, b: u32| call_requires(sum, (a, b)),
        ensures
            optimizes_to(code_view(old(self).out@), code_view(final(self).out@), sum),
            final(self).context == old(self).context,
            final(self).macros == old(self).macros,
    {
        let mut code: Vec<Instructions> = Vec::new();
        core::mem::swap(&mut code, &mut self.out);
        self.out = optimize(code, sum);
    }

    /// Compiles a program: its statements in the current frame, then `Halt`.
    pub fn compile_program(&mut self, program: &ProgramNode) -> (r: Result<ComptimeValueType, CompileError>)
        requires
            old(self).wf(),
        ensures
            final(self).wf(),
            final(self).macros@ == old(self).macros@,
            match compile_program_spec(
                old(self).macros@,
                old(self).model(),
                old(self).out@.len(),
                program.program_nodes@,
            ) {
                Ok((code, ctx)) => r == Ok::<ComptimeValueType, CompileError>(ComptimeValueType::Void)
                    && code_view(final(self).out@) == code_view(old(self).out@) + code
                    && final(self).model() == ctx,
                Err(e) => r == Err::<ComptimeValueType, CompileError>(e),
            },
    {
        match self.compile_block(&program.program_nodes) {
            Ok(()) => {},
            Err(e) => return Err(e),
        }
        let ghost before = code_view(self.out@);
        self.emit(Instructions::Halt);
        proof {
            let code = before.subrange(code_view(old(self).out@).len() as int, before.len() as int);
            assert(before =~= code_view(old(self).out@) + code);
            assert(code_view(self.out@) =~= code_view(old(self).out@) + code.push(Instr::Halt));
        }
        Ok(ComptimeValueType::Void)
    }
}

/// The context a compilation starts from: an empty global frame and no functions.
pub open spec fn initial_ctx() -> CtxModel {
    CtxModel { frames: seq![Seq::empty()], functions: Seq::empty() }
}

/// Compiles a program with a fresh compiler and returns its instruction stream.
pub fn compile(program: &ProgramNode) -> (r: Result<Vec<Instructions>, CompileError>)
    ensures
        match compile_program_spec(builtin_macros(), initial_ctx(), 0, program.program_nodes@) {
            Ok((code, _)) => r matches Ok(v) && code_view(v@) == code,
            Err(e) => r == Err::<Vec<Instructions>, CompileError>(e),
        },
{
    let mut compiler = Compiler::new();
    assert(code_view(compiler.out@) =~= Seq::<Instr>::empty());
    match compiler.compile_program(program) {
        Ok(_) => {
            assert(code_view(compiler.out@) =~= Seq::<Instr>::empty() + code_view(compiler.out@));
            Ok(compiler.out)
        },
        Err(e) => Err(e),
    }
}

/// No `Halt`, and every branch target in `[lo, hi]`.
pub open spec fn code_within(code: Seq<Instr>, lo: nat, hi: nat) -> bool {
    forall|i: int|
        0 <= i < code.len() ==> !(#[trigger] code[i] is Halt) && match jump_target(code[i]) {
            Some(k) => lo <= k <= hi,
            None => true,
        }
}

proof fn lemma_within_concat(a: Seq<Instr>, b: Seq<Instr>, lo: nat, hi: nat)
    requires
        code_within(a, lo, hi),
        code_within(b, lo, hi),
    ensures
        code_within(a + b, lo, hi),
{
    assert forall|i: int| 0 <= i < (a + b).len() implies !(#[trigger] (a + b)[i] is Halt) && match jump_target((a + b)[i]) {
        Some(k) => lo <= k <= hi,
        None => true,
    } by {
        if i < a.len() {
            assert((a + b)[i] == a[i]);
        } else {
            assert((a + b)[i] == b[i - a.len()]);
        }
    }
}

proof fn lemma_within_widen(a: Seq<Instr>, lo: nat, hi: nat, lo2: nat, hi2: nat)
    requires
        code_within(a, lo, hi),
        lo2 <= lo,
        hi <= hi2,
    ensures
        code_within(a, lo2, hi2),
{
    assert forall|i: int| 0 <= i < a.len() implies !(#[trigger] a[i] is Halt) && match jump_target(a[i]) {
        Some(k) => lo2 <= k <= hi2,
        None => true,
    } by {
        assert(!(a[i] is Halt));
    }
}

/// The code of a node holds no `Halt` and branches only within itself.
pub proof fn lemma_node_within(
    macros: Seq<(Seq<char>, Macro)>,
    ctx: CtxModel,
    base: nat,
    node: Node,
)
    ensures
        compile_node_spec(macros, ctx, base, node) matches Ok(e) ==> code_within(
            e.code,
            base,
            base + e.code.len(),
        ),
    decreases node,
{
    match node {
        Node::BinaryOp(n) => lemma_binary_within(macros, ctx, base, n),
        Node::VariableDefine(n) => lemma_define_within(macros, ctx, base, n),
        Node::VariableAssign(n) => lemma_assign_within(macros, ctx, base, n),
        Node::Call(n) => lemma_call_within(macros, ctx, base, n),
        Node::If(n) => lemma_if_within(macros, ctx, base, n),
        Node::While(n) => lemma_while_within(macros, ctx, base, n),
        _ => {},
    }
}

proof fn lemma_binary_within(macros: Seq<(Seq<char>, Macro)>, ctx: CtxModel, base: nat, n: BinaryOpNode)
    ensures
        compile_node_spec(macros, ctx, base, Node::BinaryOp(n)) matches Ok(e) ==> code_within(
            e.code,
            base,
            base + e.code.len(),
        ),
    decreases n,
{
    if let Ok(e) = compile_node_spec(macros, ctx, base, Node::BinaryOp(n)) {
            let l = compile_node_spec(macros, ctx, base, *n.left)->Ok_0;
            let r = compile_node_spec(macros, l.ctx, base + l.code.len(), *n.right)->Ok_0;
            let op = binop_rule(n.op_tok, l.ty, r.ty)->Some_0.1;
            lemma_node_within(macros, ctx, base, *n.left);
            lemma_node_within(macros, l.ctx, base + l.code.len(), *n.right);
            let hi = base + e.code.len();
            lemma_within_widen(l.code, base, base + l.code.len(), base, hi);
            lemma_within_widen(r.code, base + l.code.len(), base + l.code.len() + r.code.len(), base, hi);
            lemma_within_concat(r.code, seq![op], base, hi);
            lemma_within_concat(l.code, r.code + seq![op], base, hi);
            assert(e.code =~= l.code + (r.code + seq![op]));
    }
}

proof fn lemma_define_within(macros: Seq<(Seq<char>, Macro)>, ctx: CtxModel, base: nat, n: VariableDefineNode)
    ensures
        compile_node_spec(macros, ctx, base, Node::VariableDefine(n)) matches Ok(e) ==> code_within(
            e.code,
            base,
            base + e.code.len(),
        ),
    decreases n,
{
    if let Ok(e) = compile_node_spec(macros, ctx, base, Node::VariableDefine(n)) {
            let hi = base + e.code.len();
            let t = if let Some(v) = n.value {
                let c = compile_node_spec(macros, ctx, base, *v)->Ok_0;
                lemma_node_within(macros, ctx, base, *v);
                lemma_within_widen(c.code, base, base + c.code.len(), base, hi);
                c.code
            } else {
                Seq::empty()
            };
            let zero = e.code.subrange(t.len() as int, e.code.len() - 1);
            assert(e.code =~= t + zero + seq![Instr::SaveVar(n.var_name@)]);
            assert(code_within(zero, base, hi));
            lemma_within_concat(t, zero, base, hi);
            lemma_within_concat(t + zero, seq![Instr::SaveVar(n.var_name@)], base, hi);
    }
}

proof fn lemma_assign_within(macros: Seq<(Seq<char>, Macro)>, ctx: CtxModel, base: nat, n: VariableAssignNode)
    ensures
        compile_node_spec(macros, ctx, base, Node::VariableAssign(n)) matches Ok(e) ==> code_within(
            e.code,
            base,
            base + e.code.len(),
        ),
    decreases n,
{
    if let Ok(e) = compile_node_spec(macros, ctx, base, Node::VariableAssign(n)) {
            let v = lookup(ctx.frames, n.name@)->Some_0;
            let c = compile_node_spec(macros, ctx, base, *n.value)->Ok_0;
            lemma_node_within(macros, ctx, base, *n.value);
            let hi = base + e.code.len();
            lemma_within_widen(c.code, base, base + c.code.len(), base, hi);
            lemma_within_concat(c.code, seq![Instr::SaveVar(n.name@)], base, hi);
            assert(e.code =~= c.code + seq![Instr::SaveVar(n.name@)]);
    }
}

proof fn lemma_call_within(macros: Seq<(Seq<char>, Macro)>, ctx: CtxModel, base: nat, n: FunctionCallNode)
    ensures
        compile_node_spec(macros, ctx, base, Node::Call(n)) matches Ok(e) ==> code_within(
            e.code,
            base,
            base + e.code.len(),
        ),
    decreases n,
{
    if let Ok(e) = compile_node_spec(macros, ctx, base, Node::Call(n)) {
            let hi = base + e.code.len();
            let mac = find_binding(macros, n.name@)->Some_0;
            if mac is WriteLn || mac is Write {
                lemma_print_within(macros, ctx, base, n.args@, mac is WriteLn);
            } else {
                let c = compile_node_spec(macros, ctx, base, n.args@[0])->Ok_0;
                lemma_node_within(macros, ctx, base, n.args@[0]);
                lemma_within_widen(c.code, base, base + c.code.len(), base, hi);
                let tail = e.code.subrange(c.code.len() as int, e.code.len() as int);
                assert(e.code =~= c.code + tail);
                assert(code_within(tail, base, hi));
                lemma_within_concat(c.code, tail, base, hi);
            }
    }
}

proof fn lemma_if_within(macros: Seq<(Seq<char>, Macro)>, ctx: CtxModel, base: nat, n: IfStatement)
    ensures
        compile_node_spec(macros, ctx, base, Node::If(n)) matches Ok(e) ==> code_within(
            e.code,
            base,
            base + e.code.len(),
        ),
    decreases n,
{
    if let Ok(e) = compile_node_spec(macros, ctx, base, Node::If(n)) {
            let hi = base + e.code.len();
            let c = compile_node_spec(macros, ctx, base, *n.condition)->Ok_0;
            let then_base = base + c.code.len() + 1;
            let (tcode, tctx) = compile_block_spec(macros, c.ctx.enter(), then_base, n.then_branch@)->Ok_0;
            let else_base = then_base + tcode.len() + 1;
            lemma_node_within(macros, ctx, base, *n.condition);
            lemma_block_within(macros, c.ctx.enter(), then_base, n.then_branch@);
            let ecode = match n.else_branch {
                Some(b) => {
                    lemma_block_within(macros, tctx.exit().enter(), else_base, b@);
                    compile_block_spec(macros, tctx.exit().enter(), else_base, b@)->Ok_0.0
                },
                None => Seq::empty(),
            };
            let j1 = seq![Instr::JumpIfFalse(else_base)];
            let j2 = seq![Instr::Jump(else_base + ecode.len())];
            assert(e.code =~= c.code + j1 + tcode + j2 + ecode);
            lemma_within_widen(c.code, base, base + c.code.len(), base, hi);
            lemma_within_widen(tcode, then_base, then_base + tcode.len(), base, hi);
            lemma_within_widen(ecode, else_base, else_base + ecode.len(), base, hi);
            assert(code_within(j1, base, hi));
            assert(code_within(j2, base, hi));
            lemma_within_concat(c.code, j1, base, hi);
            lemma_within_concat(c.code + j1, tcode, base, hi);
            lemma_within_concat(c.code + j1 + tcode, j2, base, hi);
            lemma_within_concat(c.code + j1 + tcode + j2, ecode, base, hi);
    }
}

proof fn lemma_while_within(macros: Seq<(Seq<char>, Macro)>, ctx: CtxModel, base: nat, n: WhileStatement)
    ensures
        compile_node_spec(macros, ctx, base, Node::While(n)) matches Ok(e) ==> code_within(
            e.code,
            base,
            base + e.code.len(),
        ),
    decreases n,
{
    if let Ok(e) = compile_node_spec(macros, ctx, base, Node::While(n)) {
            let hi = base + e.code.len();
            let c = compile_node_spec(macros, ctx, base, *n.condition)->Ok_0;
            let body_base = base + c.code.len() + 1;
            let (bcode, bctx) = compile_block_spec(macros, c.ctx.enter(), body_base, n.body@)->Ok_0;
            lemma_node_within(macros, ctx, base, *n.condition);
            lemma_block_within(macros, c.ctx.enter(), body_base, n.body@);
            let j1 = seq![Instr::JumpIfFalse(body_base + bcode.len() + 1)];
            let j2 = seq![Instr::Jump(base)];
            assert(e.code =~= c.code + j1 + bcode + j2);
            lemma_within_widen(c.code, base, base + c.code.len(), base, hi);
            lemma_within_widen(bcode, body_base, body_base + bcode.len(), base, hi);
            assert(code_within(j1, base, hi));
            assert(code_within(j2, base, hi));
            lemma_within_concat(c.code, j1, base, hi);
            lemma_within_concat(c.code + j1, bcode, base, hi);
            lemma_within_concat(c.code + j1 + bcode, j2, base, hi);
    }
}

/// The code of a statement list holds no `Halt` and branches only within itself.
pub proof fn lemma_block_within(
    macros: Seq<(Seq<char>, Macro)>,
    ctx: CtxModel,
    base: nat,
    stmts: Seq<Node>,
)
    ensures
        compile_block_spec(macros, ctx, base, stmts) matches Ok((code, _)) ==> code_within(
            code,
            base,
            base + code.len(),
        ),
    decreases stmts,
{
    if stmts.len() > 0 {
        lemma_node_within(macros, ctx, base, stmts[0]);
        if let Ok(c) = compile_node_spec(macros, ctx, base, stmts[0]) {
            let rest_base = base + c.code.len();
            let rest = stmts.subrange(1, stmts.len() as int);
            lemma_block_within(macros, c.ctx, rest_base, rest);
            if let Ok((rcode, _)) = compile_block_spec(macros, c.ctx, rest_base, rest) {
                let hi = rest_base + rcode.len();
                lemma_within_widen(c.code, base, rest_base, base, hi);
                lemma_within_widen(rcode, rest_base, hi, base, hi);
                lemma_within_concat(c.code, rcode, base, hi);
            }
        }
    } else {
        assert(code_within(Seq::empty(), base, base));
    }
}

/// The code of printing-macro arguments holds no `Halt` and branches only within itself.
pub proof fn lemma_print_within(
    macros: Seq<(Seq<char>, Macro)>,
    ctx: CtxModel,
    base: nat,
    args: Seq<Node>,
    newline: bool,
)
    ensures
        compile_print_spec(macros, ctx, base, args, newline) matches Ok((code, _)) ==> code_within(
            code,
            base,
            base + code.len(),
        ),
    decreases args,
{
    if args.len() > 0 {
        lemma_node_within(macros, ctx, base, args[0]);
        if let Ok(c) = compile_node_spec(macros, ctx, base, args[0]) {
            let w = if newline {
                Instr::WriteLnLastOnStack
            } else {
                Instr::WriteLastOnStack
            };
            let rest_base = base + c.code.len() + 1;
            let rest = args.subrange(1, args.len() as int);
            lemma_print_within(macros, c.ctx, rest_base, rest, newline);
            if let Ok((rcode, _)) = compile_print_spec(macros, c.ctx, rest_base, rest, newline) {
                let hi = rest_base + rcode.len();
                lemma_within_widen(c.code, base, base + c.code.len(), base, hi);
                lemma_within_concat(c.code, seq![w], base, hi);
                lemma_within_widen(rcode, rest_base, hi, base, hi);
                lemma_within_concat(c.code.push(w), rcode, base, hi);
                assert(c.code.push(w) =~= c.code + seq![w]);
            }
        }
    } else {
        assert(code_within(Seq::empty(), base, base));
    }
}

/// A compiled program branches only within itself (its targets lie in
/// `[0, len]`, so it may be optimized), and its one `Halt` is its last instruction.
pub proof fn lemma_compiled_program_well_formed(program: Seq<Node>)
    ensures
        compile_program_spec(builtin_macros(), initial_ctx(), 0, program) matches Ok((code, _)) ==> {
            &&& targets_in_range(code)
            &&& code.len() >= 1
            &&& code.last() is Halt
            &&& forall|i: int| 0 <= i < code.len() - 1 ==> !(#[trigger] code[i] is Halt)
        },
{
    lemma_block_within(builtin_macros(), initial_ctx(), 0, program);
    if let Ok((code, _)) = compile_program_spec(builtin_macros(), initial_ctx(), 0, program) {
        let body = compile_block_spec(builtin_macros(), initial_ctx(), 0, program)->Ok_0.0;
        assert(code == body.push(Instr::Halt));
        assert forall|i: int| 0 <= i < code.len() implies #[trigger] target_within(code[i], code.len()) by {
            if i < body.len() {
                assert(code[i] == body[i]);
            }
        }
        assert forall|i: int| 0 <= i < code.len() - 1 implies !(#[trigger] code[i] is Halt) by {
            assert(code[i] == body[i]);
        }
    }
}

/// Scope isolation: after an `if` statement the frames are those that its
/// condition left, so nothing defined in either branch is visible after it.
pub proof fn lemma_if_scope_isolation(
    macros: Seq<(Seq<char>, Macro)>,
    ctx: CtxModel,
    base: nat,
    n: IfStatement,
)
    requires
        ctx.frames.len() >= 1,
    ensures
        compile_node_spec(macros, ctx, base, Node::If(n)) matches Ok(e) ==> e.ctx.frames
            == compile_node_spec(macros, ctx, base, *n.condition)->Ok_0.ctx.frames,
{
    if let Ok(e) = compile_node_spec(macros, ctx, base, Node::If(n)) {
        let c = compile_node_spec(macros, ctx, base, *n.condition)->Ok_0;
        lemma_node_frames(macros, ctx, base, *n.condition);
        let then_base = base + c.code.len() + 1;
        lemma_block_frames(macros, c.ctx.enter(), then_base, n.then_branch@);
        let (tcode, tctx) = compile_block_spec(macros, c.ctx.enter(), then_base, n.then_branch@)->Ok_0;
        assert(c.ctx.enter().frames.drop_last() =~= c.ctx.frames);
        assert(tctx.exit().frames == c.ctx.frames);
        if let Some(b) = n.else_branch {
            lemma_block_frames(macros, tctx.exit().enter(), then_base + tcode.len() + 1, b@);
            assert(tctx.exit().enter().frames.drop_last() =~= c.ctx.frames);
        } else {
            assert(tctx.exit().enter().frames.drop_last() =~= c.ctx.frames);
        }
    }
}

/// Constant immutability: assigning to a name whose visible binding is a
/// constant is refused with `ConstReassignment`.
pub proof fn lemma_const_immutable(
    macros: Seq<(Seq<char>, Macro)>,
    ctx: CtxModel,
    base: nat,
    n: VariableAssignNode,
)
    requires
        lookup(ctx.frames, n.name@) matches Some(v) && v.is_const,
    ensures
        compile_node_spec(macros, ctx, base, Node::VariableAssign(n)) == Err::<Emitted, CompileError>(
            CompileError::ConstReassignment { name: n.name },
        ),
{
}

} // verus!
