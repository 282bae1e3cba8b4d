//! The virtual machine as a state machine over a decoded instruction stream.
//!
//! `step` executes one instruction. What needs the host (float arithmetic
//! and comparison, output, input, ending the process) comes back as an
//! [`Effect`]; the embedder performs it and hands any result back with
//! `push_number`, `push_bool` or `push_input`.
use vstd::prelude::*;
use vstd::string::{StrSliceExecFns, StringExecFns};
use crate::context::{entry_index, find_binding, keys_unique, lemma_store_entry_unique, store_entry};
use crate::text::str_eq;
use crate::errors::{CodecError, RuntimeError, RuntimeErrorModel};
use crate::codec::{decode_all, BytecodeLoader};
use crate::instructions::{
    code_view, target_within, targets_in_range, Instr, Instructions, ADD, DIV, GREATER, LESS, MODULO, MUL, PROCESS_EXIT, SUB, WRITE,
    WRITE_LN, JUMP_IF_FALSE, JUMP_IF_TRUE,
};
use crate::values::{copy_value, is_zero_bits, number_is_zero, Value, ValueModel};

verus! {

/// A float operation that produces a number.
#[derive(Debug, Clone, Copy, PartialEq, Eq, Structural)]
pub enum ArithOp {
    Add,
    Sub,
    Mul,
    Div,
    Modulo,
}

/// A float comparison.
#[derive(Debug, Clone, Copy, PartialEq, Eq, Structural)]
pub enum CompareOp {
    GreaterThan,
    LessThan,
    Equal,
}

/// What the machine asks of its embedder after a step.
#[derive(Debug)]
pub enum Effect {
    /// Nothing: the step was done inside the machine.
    Continue,
    /// Compute `left op right` on the floats with these bit patterns, and push
    /// the result with `push_number`.
    Arithmetic { op: ArithOp, left: u32, right: u32 },
    /// Compare the floats with these bit patterns, and push the result with `push_bool`.
    Compare { op: CompareOp, left: u32, right: u32 },
    /// Write the value (a string or a number), then a newline if `newline`.
    Write { value: Value, newline: bool },
    /// Read one line of input and hand it to `push_input`.
    ReadLine,
    /// End the program with the status given by truncating the float to an integer.
    Exit { status_bits: u32 },
    /// End the program normally.
    Halt,
}

/// The model of an [`Effect`].
pub enum EffectModel {
    Continue,
    Arithmetic(ArithOp, u32, u32),
    Compare(CompareOp, u32, u32),
    Write(ValueModel, bool),
    ReadLine,
    Exit(u32),
    Halt,
}

impl View for Effect {
    type V = EffectModel;

    open spec fn view(&self) -> EffectModel {
        match self {
            Effect::Continue => EffectModel::Continue,
            Effect::Arithmetic { op, left, right } => EffectModel::Arithmetic(*op, *left, *right),
            Effect::Compare { op, left, right } => EffectModel::Compare(*op, *left, *right),
            Effect::Write { value, newline } => EffectModel::Write(value@, *newline),
            Effect::ReadLine => EffectModel::ReadLine,
            Effect::Exit { status_bits } => EffectModel::Exit(*status_bits),
            Effect::Halt => EffectModel::Halt,
        }
    }
}

/// The model of the machine's state: the instruction pointer, the operand
/// stack (top last) and the flat variable map (the latest binding of a name wins).
pub struct VmState {
    pub ip: int,
    pub stack: Seq<ValueModel>,
    pub vars: Seq<(Seq<char>, ValueModel)>,
}

/// Removes a trailing `\n`, and then a `\r` before it.
pub open spec fn strip_line_end(s: Seq<char>) -> Seq<char> {
    if s.len() > 0 && s.last() == '\n' {
        let t = s.drop_last();
        if t.len() > 0 && t.last() == '\r' {
            t.drop_last()
        } else {
            t
        }
    } else {
        s
    }
}

/// One step of a binary instruction: pops the right operand, then the left one.
pub open spec fn binary_step(op: Instr, s: VmState) -> Result<(VmState, EffectModel), RuntimeErrorModel> {
    let n = s.stack.len();
    if n < 2 {
        Err(RuntimeErrorModel::StackUnderflow)
    } else {
        let r = s.stack[n - 1];
        let l = s.stack[n - 2];
        let base = VmState { ip: s.ip + 1, stack: s.stack.subrange(0, n - 2), vars: s.vars };
        match (l, r) {
            (ValueModel::Number(a), ValueModel::Number(b)) => match op {
                Instr::Add => Ok((base, EffectModel::Arithmetic(ArithOp::Add, a, b))),
                Instr::Sub => Ok((base, EffectModel::Arithmetic(ArithOp::Sub, a, b))),
                Instr::Mul => Ok((base, EffectModel::Arithmetic(ArithOp::Mul, a, b))),
                Instr::Div => if is_zero_bits(b) {
                    Err(RuntimeErrorModel::DivisionByZero)
                } else {
                    Ok((base, EffectModel::Arithmetic(ArithOp::Div, a, b)))
                },
                Instr::Modulo => if is_zero_bits(b) {
                    Err(RuntimeErrorModel::DivisionByZero)
                } else {
                    Ok((base, EffectModel::Arithmetic(ArithOp::Modulo, a, b)))
                },
                Instr::GreaterThan => Ok((base, EffectModel::Compare(CompareOp::GreaterThan, a, b))),
                Instr::LessThan => Ok((base, EffectModel::Compare(CompareOp::LessThan, a, b))),
                _ => Ok((base, EffectModel::Compare(CompareOp::Equal, a, b))),
            },
            _ => match op {
                Instr::Add => match (l, r) {
                    (ValueModel::Str(a), ValueModel::Str(b)) => Ok(
                        (
                            VmState { stack: base.stack.push(ValueModel::Str(a + b)), ..base },
                            EffectModel::Continue,
                        ),
                    ),
                    _ => Err(RuntimeErrorModel::TypeError(ADD)),
                },
                Instr::Equal => Ok(
                    (
                        VmState { stack: base.stack.push(ValueModel::Bool(l == r)), ..base },
                        EffectModel::Continue,
                    ),
                ),
                Instr::Sub => Err(RuntimeErrorModel::TypeError(SUB)),
                Instr::Mul => Err(RuntimeErrorModel::TypeError(MUL)),
                Instr::Div => Err(RuntimeErrorModel::TypeError(DIV)),
                Instr::Modulo => Err(RuntimeErrorModel::TypeError(MODULO)),
                Instr::GreaterThan => Err(RuntimeErrorModel::TypeError(GREATER)),
                _ => Err(RuntimeErrorModel::TypeError(LESS)),
            },
        }
    }
}

/// One step of the machine.
pub open spec fn step_spec(code: Seq<Instr>, s: VmState) -> Result<(VmState, EffectModel), RuntimeErrorModel> {
    if s.ip < 0 || s.ip >= code.len() {
        Err(RuntimeErrorModel::UnexpectedEndOfProgram)
    } else {
        let next = VmState { ip: s.ip + 1, ..s };
        let n = s.stack.len();
        match code[s.ip] {
            Instr::PushString(t) => Ok(
                (VmState { stack: s.stack.push(ValueModel::Str(t)), ..next }, EffectModel::Continue),
            ),
            Instr::PushBool(b) => Ok(
                (VmState { stack: s.stack.push(ValueModel::Bool(b)), ..next }, EffectModel::Continue),
            ),
            Instr::PushNumber(x) => Ok(
                (VmState { stack: s.stack.push(ValueModel::Number(x)), ..next }, EffectModel::Continue),
            ),
            Instr::LoadVar(name) => match find_binding(s.vars, name) {
                None => Err(RuntimeErrorModel::UndefinedVariableAtRuntime(name)),
                Some(v) => Ok((VmState { stack: s.stack.push(v), ..next }, EffectModel::Continue)),
            },
            Instr::SaveVar(name) => if n == 0 {
                Err(RuntimeErrorModel::StackUnderflow)
            } else {
                Ok(
                    (
                        VmState {
                            ip: s.ip + 1,
                            stack: s.stack.drop_last(),
                            vars: store_entry(s.vars, name, s.stack.last()),
                        },
                        EffectModel::Continue,
                    ),
                )
            },
            Instr::WriteLnLastOnStack | Instr::WriteLastOnStack => {
                let newline = code[s.ip] is WriteLnLastOnStack;
                if n == 0 {
                    Err(RuntimeErrorModel::StackUnderflow)
                } else if s.stack.last() is Bool {
                    Err(RuntimeErrorModel::TypeError(if newline { WRITE_LN } else { WRITE }))
                } else {
                    Ok(
                        (
                            VmState { stack: s.stack.drop_last(), ..next },
                            EffectModel::Write(s.stack.last(), newline),
                        ),
                    )
                }
            },
            Instr::ReadInput => Ok((next, EffectModel::ReadLine)),
            Instr::ProcessExit => if n == 0 {
                Err(RuntimeErrorModel::StackUnderflow)
            } else {
                match s.stack.last() {
                    ValueModel::Number(x) => Ok(
                        (VmState { stack: s.stack.drop_last(), ..s }, EffectModel::Exit(x)),
                    ),
                    _ => Err(RuntimeErrorModel::TypeError(PROCESS_EXIT)),
                }
            },
            Instr::Jump(k) => Ok((VmState { ip: k as int, ..s }, EffectModel::Continue)),
            Instr::JumpIfFalse(k) | Instr::JumpIfTrue(k) => {
                let on = code[s.ip] is JumpIfTrue;
                if n == 0 {
                    Err(RuntimeErrorModel::StackUnderflow)
                } else {
                    match s.stack.last() {
                        ValueModel::Bool(b) => Ok(
                            (
                                VmState {
                                    ip: if b == on {
                                        k as int
                                    } else {
                                        s.ip + 1
                                    },
                                    stack: s.stack.drop_last(),
                                    vars: s.vars,
                                },
                                EffectModel::Continue,
                            ),
                        ),
                        _ => Err(
                            RuntimeErrorModel::TypeError(
                                if on {
                                    JUMP_IF_TRUE
                                } else {
                                    JUMP_IF_FALSE
                                },
                            ),
                        ),
                    }
                }
            },
            Instr::Halt => Ok((s, EffectModel::Halt)),
            _ => binary_step(code[s.ip], s),
        }
    }
}

/// The virtual machine: a decoded program, an instruction pointer, an operand
/// stack and a flat map of variables.
pub struct VM {
    ip: usize,
    stack: Vec<Value>,
    variables: Vec<(String, Value)>,
    code: Vec<Instructions>,
}

impl VM {
    /// The program the machine runs.
    pub closed spec fn program(&self) -> Seq<Instr> {
        code_view(self.code@)
    }

    /// The model of the machine's state.
    pub closed spec fn state(&self) -> VmState {
        VmState {
            ip: self.ip as int,
            stack: self.stack@.map_values(|v: Value| v@),
            vars: self.variables@.map_values(|e: (String, Value)| (e.0@, e.1@)),
        }
    }

    /// The variable map binds each name once.
    pub open spec fn wf(&self) -> bool {
        keys_unique(self.state().vars)
    }

    /// A machine at the start of `code`: instruction 0, empty stack, no variables.
    pub fn new(code: Vec<Instructions>) -> (r: VM)
        ensures
            r.wf(),
            r.program() == code_view(code@),
            r.state() == (VmState { ip: 0, stack: Seq::empty(), vars: Seq::empty() }),
    {
        let r = VM { ip: 0, stack: Vec::new(), variables: Vec::new(), code };
        assert(r.state().stack =~= Seq::<ValueModel>::empty());
        assert(r.state().vars =~= Seq::<(Seq<char>, ValueModel)>::empty());
        r
    }

    /// A machine at the start of the program that `bytes` encode.
    pub fn from_bytes(bytes: Vec<u8>) -> (r: Result<VM, CodecError>)
        ensures
            match decode_all(bytes@) {
                Ok(code) => r matches Ok(vm) && vm.program() == code && vm.state() == (VmState {
                    ip: 0,
                    stack: Seq::empty(),
                    vars: Seq::empty(),
                }),
                Err(e) => r == Err::<VM, CodecError>(e),
            },
    {
        match BytecodeLoader::from_bytes(bytes) {
            Ok(code) => Ok(VM::new(code)),
            Err(e) => Err(e),
        }
    }

    /// The index of the next instruction.
    pub fn ip(&self) -> (r: usize)
        ensures
            r == self.state().ip,
    {
        self.ip
    }

    /// The number of values on the operand stack.
    pub fn stack_len(&self) -> (r: usize)
        ensures
            r == self.state().stack.len(),
    {
        self.stack.len()
    }

    /// The value bound to a variable.
    pub fn variable(&self, name: &str) -> (r: Option<Value>)
        ensures
            match find_binding(self.state().vars, name@) {
                Some(v) => r matches Some(x) && x@ == v,
                None => r is None,
            },
    {
        let ghost vars = self.state().vars;
        let mut i: usize = self.variables.len();
        assert(vars.subrange(0, i as int) =~= vars);
        while i > 0
            invariant
                vars == self.state().vars,
                i <= vars.len(),
                find_binding(vars, name@) == find_binding(vars.subrange(0, i as int), name@),
            decreases i,
        {
            assert(vars.subrange(0, i as int).drop_last() =~= vars.subrange(0, i - 1));
            if str_eq(self.variables[i - 1].0.as_str(), name) {
                return Some(copy_value(&self.variables[i - 1].1));
            }
            i = i - 1;
        }
        assert(vars.subrange(0, 0) =~= Seq::<(Seq<char>, ValueModel)>::empty());
        None
    }

    fn push_value(&mut self, v: Value)
        ensures
            final(self).variables == old(self).variables,
            final(self).state() == (VmState { stack: old(self).state().stack.push(v@), ..old(self).state() }),
            final(self).code == old(self).code,
    {
        self.stack.push(v);
        assert(self.state().stack =~= old(self).state().stack.push(v@));
    }

    /// Pushes the number that an `Arithmetic` effect asked for.
    pub fn push_number(&mut self, bits: u32)
        ensures
            final(self).state() == (VmState {
                stack: old(self).state().stack.push(ValueModel::Number(bits)),
                ..old(self).state()
            }),
            final(self).program() == old(self).program(),
    {
        self.push_value(Value::Number(bits));
    }

    /// Pushes the truth value that a `Compare` effect asked for.
    pub fn push_bool(&mut self, b: bool)
        ensures
            final(self).state() == (VmState {
                stack: old(self).state().stack.push(ValueModel::Bool(b)),
                ..old(self).state()
            }),
            final(self).program() == old(self).program(),
    {
        self.push_value(Value::Bool(b));
    }

    /// Pushes the line that a `ReadLine` effect asked for, without its line ending.
    pub fn push_input(&mut self, line: String)
        ensures
            final(self).state() == (VmState {
                stack: old(self).state().stack.push(ValueModel::Str(strip_line_end(line@))),
                ..old(self).state()
            }),
            final(self).program() == old(self).program(),
    {
        let text = line.as_str();
        let n = text.unicode_len();
        let mut end = n;
        if end > 0 && text.get_char(end - 1) == '\n' {
            end = end - 1;
            if end > 0 && text.get_char(end - 1) == '\r' {
                end = end - 1;
            }
        }
        let stripped = text.substring_char(0, end).to_string();
        proof {
            let s = line@;
            if s.len() > 0 && s.last() == '\n' {
                assert(s.drop_last() =~= s.subrange(0, s.len() - 1));
                let t = s.drop_last();
                if t.len() > 0 && t.last() == '\r' {
                    assert(t.drop_last() =~= s.subrange(0, s.len() - 2));
                }
            }
            assert(s.subrange(0, s.len() as int) =~= s);
        }
        self.push_value(Value::StringValue(stripped));
    }

    /// Pops the top of the stack.
    fn pop(&mut self) -> (r: Result<Value, RuntimeError>)
        ensures
            final(self).code == old(self).code,
            final(self).variables == old(self).variables,
            final(self).ip == old(self).ip,
            old(self).state().stack.len() == 0 ==> (r matches Err(e) && e@
                == RuntimeErrorModel::StackUnderflow),
            old(self).state().stack.len() > 0 ==> (r matches Ok(v) && v@ == old(self).state().stack.last()
                && final(self).state() == (VmState {
                stack: old(self).state().stack.drop_last(),
                ..old(self).state()
            })),
    {
        match self.stack.pop() {
            Some(v) => {
                assert(self.state().stack =~= old(self).state().stack.drop_last());
                Ok(v)
            },
            None => Err(RuntimeError::StackUnderflow),
        }
    }

    /// Binds a variable: its latest binding is overwritten, or a binding is added.
    fn store(&mut self, name: String, v: Value)
        ensures
            final(self).state() == (VmState {
                vars: store_entry(old(self).state().vars, name@, v@),
                ..old(self).state()
            }),
            final(self).code == old(self).code,
    {
        let ghost vars = self.state().vars;
        let mut i: usize = self.variables.len();
        assert(vars.subrange(0, i as int) =~= vars);
        while i > 0
            invariant
                vars == self.state().vars,
                self.code == old(self).code,
                self.state() == old(self).state(),
                i <= vars.len(),
                entry_index(vars, name@) == entry_index(vars.subrange(0, i as int), name@),
            decreases i,
        {
            assert(vars.subrange(0, i as int).drop_last() =~= vars.subrange(0, i - 1));
            if self.variables[i - 1].0 == name {
                let ghost vv = v@;
                self.variables.set(i - 1, (name, v));
                assert(self.state().vars =~= vars.update(i - 1, (name@, vv)));
                return ;
            }
            i = i - 1;
        }
        assert(vars.subrange(0, 0) =~= Seq::<(Seq<char>, ValueModel)>::empty());
        let ghost vv = v@;
        let ghost nn = name@;
        self.variables.push((name, v));
        assert(self.state().vars =~= vars.push((nn, vv)));
    }

    /// Executes a binary instruction at the current position.
    fn binary(&mut self, op: u8) -> (r: Result<Effect, RuntimeError>)
        requires
            0 <= old(self).state().ip < old(self).program().len(),
            op == crate::instructions::opcode_of(old(self).program()[old(self).state().ip]),
            old(self).program()[old(self).state().ip] is Add || old(self).program()[old(
                self,
            ).state().ip] is Sub || old(self).program()[old(self).state().ip] is Mul || old(
                self,
            ).program()[old(self).state().ip] is Div || old(self).program()[old(
                self,
            ).state().ip] is Modulo || old(self).program()[old(self).state().ip] is GreaterThan
                || old(self).program()[old(self).state().ip] is LessThan || old(
                self,
            ).program()[old(self).state().ip] is Equal,
        ensures
            final(self).code == old(self).code,
            final(self).variables == old(self).variables,
            match binary_step(old(self).program()[old(self).state().ip], old(self).state()) {
                Ok((st, e)) => r matches Ok(eff) && eff@ == e && final(self).state() == st,
                Err(e) => r matches Err(err) && err@ == e,
            },
    {
        let ghost s0 = self.state();
        let ghost ins = self.program()[s0.ip];
        assert(self.code@.len() == self.program().len());
        assert(op == ADD <==> ins is Add);
        assert(op == SUB <==> ins is Sub);
        assert(op == MUL <==> ins is Mul);
        assert(op == DIV <==> ins is Div);
        assert(op == MODULO <==> ins is Modulo);
        assert(op == GREATER <==> ins is GreaterThan);
        assert(op == LESS <==> ins is LessThan);
        assert(op == crate::instructions::EQUAL <==> ins is Equal);
        let right = match self.pop() {
            Ok(v) => v,
            Err(e) => return Err(e),
        };
        let left = match self.pop() {
            Ok(v) => v,
            Err(e) => return Err(e),
        };
        assert(s0.stack.subrange(0, s0.stack.len() - 2) =~= s0.stack.drop_last().drop_last());
        assert(left@ == s0.stack[s0.stack.len() - 2]);
        assert(right@ == s0.stack[s0.stack.len() - 1]);
        assert(self.ip as int == s0.ip);
        assert(self.program() == old(self).program());
        let n = self.code.len();
        assert(self.ip < n);
        self.ip = self.ip + 1;
        let ghost base = VmState {
            ip: s0.ip + 1,
            stack: s0.stack.subrange(0, s0.stack.len() - 2),
            vars: s0.vars,
        };
        assert(self.state() == base);
        match (left, right) {
            (Value::Number(a), Value::Number(b)) => {
                if op == ADD {
                    Ok(Effect::Arithmetic { op: ArithOp::Add, left: a, right: b })
                } else if op == SUB {
                    Ok(Effect::Arithmetic { op: ArithOp::Sub, left: a, right: b })
                } else if op == MUL {
                    Ok(Effect::Arithmetic { op: ArithOp::Mul, left: a, right: b })
                } else if op == DIV {
                    if number_is_zero(b) {
                        Err(RuntimeError::DivisionByZero)
                    } else {
                        Ok(Effect::Arithmetic { op: ArithOp::Div, left: a, right: b })
                    }
                } else if op == MODULO {
                    if number_is_zero(b) {
                        Err(RuntimeError::DivisionByZero)
                    } else {
                        Ok(Effect::Arithmetic { op: ArithOp::Modulo, left: a, right: b })
                    }
                } else if op == GREATER {
                    Ok(Effect::Compare { op: CompareOp::GreaterThan, left: a, right: b })
                } else if op == LESS {
                    Ok(Effect::Compare { op: CompareOp::LessThan, left: a, right: b })
                } else {
                    Ok(Effect::Compare { op: CompareOp::Equal, left: a, right: b })
                }
            },
            (l, r) => {
                if op == ADD {
                    match (l, r) {
                        (Value::StringValue(a), Value::StringValue(b)) => {
                            let ghost av = a@;
                            let ghost bv = b@;
                            let joined = a.concat(b.as_str());
                            self.push_value(Value::StringValue(joined));
                            assert(self.state() == VmState {
                                stack: base.stack.push(ValueModel::Str(av + bv)),
                                ..base
                            });
                            Ok(Effect::Continue)
                        },
                        _ => Err(RuntimeError::TypeError { opcode: ADD }),
                    }
                } else if op == crate::instructions::EQUAL {
                    let same = match (&l, &r) {
                        (Value::StringValue(a), Value::StringValue(b)) => str_eq(
                            a.as_str(),
                            b.as_str(),
                        ),
                        (Value::Bool(a), Value::Bool(b)) => *a == *b,
                        _ => false,
                    };
                    self.push_value(Value::Bool(same));
                    assert(self.state() == VmState {
                        stack: base.stack.push(ValueModel::Bool(l@ == r@)),
                        ..base
                    });
                    Ok(Effect::Continue)
                } else {
                    Err(RuntimeError::TypeError { opcode: op })
                }
            },
        }
    }

    /// Executes the instruction at the instruction pointer.
    pub fn step(&mut self) -> (r: Result<Effect, RuntimeError>)
        ensures
            final(self).program() == old(self).program(),
            old(self).wf() ==> final(self).wf(),
            match step_spec(old(self).program(), old(self).state()) {
                Ok((st, e)) => r matches Ok(eff) && eff@ == e && final(self).state() == st,
                Err(e) => r matches Err(err) && err@ == e,
            },
    {
        proof {
            lemma_step_keeps_keys_unique(self.program(), self.state());
        }
        if self.ip >= self.code.len() {
            return Err(RuntimeError::UnexpectedEndOfProgram);
        }
        let ip = self.ip;
        let ghost s0 = self.state();
        let ghost ins = self.program()[ip as int];
        assert(ins == self.code@[ip as int]@);
        match &self.code[ip] {
            Instructions::PushString(t) => {
                let v = Value::StringValue(t.clone());
                self.stack.push(v);
                self.ip = ip + 1;
                assert(self.state().stack =~= s0.stack.push(ValueModel::Str(t@)));
                Ok(Effect::Continue)
            },
            Instructions::PushBool(b) => {
                self.stack.push(Value::Bool(*b));
                self.ip = ip + 1;
                assert(self.state().stack =~= s0.stack.push(ValueModel::Bool(*b)));
                Ok(Effect::Continue)
            },
            Instructions::PushNumber(x) => {
                self.stack.push(Value::Number(*x));
                self.ip = ip + 1;
                assert(self.state().stack =~= s0.stack.push(ValueModel::Number(*x)));
                Ok(Effect::Continue)
            },
            Instructions::LoadVar(name) => {
                let name = name.clone();
                match self.variable(name.as_str()) {
                    None => Err(RuntimeError::UndefinedVariableAtRuntime { name }),
                    Some(v) => {
                        self.push_value(v);
                        self.ip = ip + 1;
                        Ok(Effect::Continue)
                    },
                }
            },
            Instructions::SaveVar(name) => {
                let name = name.clone();
                let v = match self.pop() {
                    Ok(v) => v,
                    Err(e) => return Err(e),
                };
                self.store(name, v);
                self.ip = ip + 1;
                Ok(Effect::Continue)
            },
            Instructions::WriteLnLastOnStack | Instructions::WriteLastOnStack => {
                let newline = matches!(self.code[ip], Instructions::WriteLnLastOnStack);
                let v = match self.pop() {
                    Ok(v) => v,
                    Err(e) => return Err(e),
                };
                if let Value::Bool(_) = v {
                    return Err(RuntimeError::TypeError { opcode: if newline { WRITE_LN } else { WRITE } });
                }
                self.ip = ip + 1;
                Ok(Effect::Write { value: v, newline })
            },
            Instructions::ReadInput => {
                self.ip = ip + 1;
                Ok(Effect::ReadLine)
            },
            Instructions::ProcessExit => {
                let v = match self.pop() {
                    Ok(v) => v,
                    Err(e) => return Err(e),
                };
                match v {
                    Value::Number(x) => Ok(Effect::Exit { status_bits: x }),
                    _ => Err(RuntimeError::TypeError { opcode: PROCESS_EXIT }),
                }
            },
            Instructions::Jump(k) => {
                self.ip = *k;
                Ok(Effect::Continue)
            },
            Instructions::JumpIfFalse(k) | Instructions::JumpIfTrue(k) => {
                let k = *k;
                let on = matches!(self.code[ip], Instructions::JumpIfTrue(_));
                let v = match self.pop() {
                    Ok(v) => v,
                    Err(e) => return Err(e),
                };
                match v {
                    Value::Bool(b) => {
                        self.ip = if b == on {
                            k
                        } else {
                            ip + 1
                        };
                        Ok(Effect::Continue)
                    },
                    _ => Err(
                        RuntimeError::TypeError {
                            opcode: if on {
                                JUMP_IF_TRUE
                            } else {
                                JUMP_IF_FALSE
                            },
                        },
                    ),
                }
            },
            Instructions::Halt => Ok(Effect::Halt),
            _ => {
                let op = self.code[ip].opcode();
                self.binary(op)
            },
        }
    }
}

/// A step of a program whose branch targets are in range keeps the instruction
/// pointer in `[0, len]`; `len` is the end, where the next step reports
/// `UnexpectedEndOfProgram`.
pub proof fn lemma_step_keeps_ip_in_range(code: Seq<Instr>, s: VmState)
    requires
        targets_in_range(code),
        0 <= s.ip <= code.len(),
    ensures
        step_spec(code, s) matches Ok((t, _)) ==> 0 <= t.ip <= code.len(),
{
    if 0 <= s.ip < code.len() {
        assert(target_within(code[s.ip], code.len()));
    }
}

/// A step keeps the names of the variable map unique.
pub proof fn lemma_step_keeps_keys_unique(code: Seq<Instr>, s: VmState)
    ensures
        keys_unique(s.vars) ==> (step_spec(code, s) matches Ok((t, _)) ==> keys_unique(t.vars)),
{
    if keys_unique(s.vars) && 0 <= s.ip < code.len() && s.stack.len() > 0 {
        if let Instr::SaveVar(name) = code[s.ip] {
            lemma_store_entry_unique(s.vars, name, s.stack.last());
        }
    }
}

} // verus!
