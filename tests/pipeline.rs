use flare::ast::{
    BinaryOpNode, BoolNode, CallType, FloatNode, FunctionCallNode, IfStatement, Node, NumberNode,
    ProgramNode, StringNode, VariableAccessNode, VariableAssignNode, VariableDefineNode,
    WhileStatement,
};
use flare::codec::{encode, BytecodeLoader};
use flare::compiler::compile;
use flare::errors::{CompileError, RuntimeError};
use flare::instructions::{targets_valid, Instructions};
use flare::optimizer::optimize;
use flare::tokens::TokenKind;
use flare::values::Value;
use flare::vm::{ArithOp, CompareOp, Effect, VM};

fn integer(x: i32) -> Node {
    Node::Number(NumberNode { number: (x as f32).to_bits() })
}

fn flt(x: f32) -> Node {
    Node::Float(FloatNode { number: x.to_bits() })
}

fn text(s: &str) -> Node {
    Node::Str(StringNode { value: s.to_string() })
}

fn boolean(b: bool) -> Node {
    Node::Bool(BoolNode { value: if b { TokenKind::TRUE } else { TokenKind::FALSE } })
}

fn var(name: &str) -> Node {
    Node::VariableAccess(VariableAccessNode { variable_name: name.to_string() })
}

fn bin(l: Node, op: TokenKind, r: Node) -> Node {
    Node::BinaryOp(BinaryOpNode { left: Box::new(l), right: Box::new(r), op_tok: op })
}

fn define(name: &str, ty: Option<&str>, value: Option<Node>, is_const: bool) -> Node {
    Node::VariableDefine(VariableDefineNode {
        var_name: name.to_string(),
        value_type: ty.map(|t| t.to_string()),
        value: value.map(Box::new),
        is_const,
    })
}

fn assign(name: &str, value: Node) -> Node {
    Node::VariableAssign(VariableAssignNode { name: name.to_string(), value: Box::new(value) })
}

fn mac(name: &str, args: Vec<Node>) -> Node {
    Node::Call(FunctionCallNode { args, name: name.to_string(), call_type: CallType::Macro })
}

fn program(nodes: Vec<Node>) -> ProgramNode {
    ProgramNode { program_nodes: nodes }
}

fn add_f32(a: u32, b: u32) -> u32 {
    (f32::from_bits(a) + f32::from_bits(b)).to_bits()
}

/// What a run gave: the output, the exit status if the program asked for one,
/// and the error if the machine stopped on one.
struct Outcome {
    out: String,
    status: Option<i32>,
    error: Option<RuntimeError>,
}

fn run(code: Vec<Instructions>, input: &[&str]) -> Outcome {
    let mut vm = VM::new(code);
    let mut out = String::new();
    let mut lines = input.iter();
    for _ in 0..100_000 {
        match vm.step() {
            Ok(Effect::Continue) => {}
            Ok(Effect::Arithmetic { op, left, right }) => {
                let (a, b) = (f32::from_bits(left), f32::from_bits(right));
                let r = match op {
                    ArithOp::Add => a + b,
                    ArithOp::Sub => a - b,
                    ArithOp::Mul => a * b,
                    ArithOp::Div => a / b,
                    ArithOp::Modulo => a % b,
                };
                vm.push_number(r.to_bits());
            }
            Ok(Effect::Compare { op, left, right }) => {
                let (a, b) = (f32::from_bits(left), f32::from_bits(right));
                vm.push_bool(match op {
                    CompareOp::GreaterThan => a > b,
                    CompareOp::LessThan => a < b,
                    CompareOp::Equal => a == b,
                });
            }
            Ok(Effect::Write { value, newline }) => {
                match value {
                    Value::StringValue(s) => out.push_str(&s),
                    Value::Number(n) => out.push_str(&format!("{}", f32::from_bits(n))),
                    Value::Bool(b) => out.push_str(&format!("{}", b)),
                }
                if newline {
                    out.push('\n');
                }
            }
            Ok(Effect::ReadLine) => {
                let line = lines.next().map(|l| l.to_string()).unwrap_or_default();
                vm.push_input(line);
            }
            Ok(Effect::Exit { status_bits }) => {
                return Outcome {
                    out,
                    status: Some(f32::from_bits(status_bits) as i32),
                    error: None,
                };
            }
            Ok(Effect::Halt) => return Outcome { out, status: None, error: None },
            Err(e) => return Outcome { out, status: None, error: Some(e) },
        }
    }
    panic!("the program did not stop");
}

/// Compiles, optimizes, encodes, decodes and runs a program.
fn exec(p: ProgramNode, input: &[&str]) -> Outcome {
    let code = compile(&p).expect("the program compiles");
    assert!(targets_valid(&code));
    let code = optimize(code, add_f32);
    let bytes = encode(&code).expect("the program fits the wire format");
    let decoded = BytecodeLoader::from_bytes(bytes).expect("the bytes decode");
    assert_eq!(format!("{:?}", decoded), format!("{:?}", code));
    run(decoded, input)
}

fn expect_compile_failure(p: ProgramNode) -> CompileError {
    match compile(&p) {
        Ok(code) => panic!("expected an error, got {:?}", code),
        Err(e) => e,
    }
}

#[test]
fn write_line_hello() {
    let o = exec(program(vec![mac("writeLn", vec![text("hello")])]), &[]);
    assert_eq!(o.out, "hello\n");
    assert_eq!(o.status, None);
    assert!(o.error.is_none());
}

#[test]
fn precedence_two_plus_three_times_four() {
    let p = program(vec![
        define(
            "x",
            Some("numb"),
            Some(bin(integer(2), TokenKind::PLUS, bin(integer(3), TokenKind::TIMES, integer(4)))),
            false,
        ),
        mac("writeLn", vec![var("x")]),
    ]);
    let code = compile(&p).unwrap();
    let optimized = optimize(code, add_f32);
    assert_eq!(
        format!("{:?}", &optimized[..5]),
        format!(
            "{:?}",
            vec![
                Instructions::PushNumber(2f32.to_bits()),
                Instructions::PushNumber(3f32.to_bits()),
                Instructions::PushNumber(4f32.to_bits()),
                Instructions::Mul,
                Instructions::Add,
            ]
        )
    );
    assert_eq!(exec(p, &[]).out, "14\n");
}

fn counting_loop(limit: Node) -> ProgramNode {
    program(vec![
        define("i", Some("numb"), Some(integer(0)), false),
        Node::While(WhileStatement {
            condition: Box::new(bin(var("i"), TokenKind::LESS, limit)),
            body: vec![
                mac("writeLn", vec![var("i")]),
                assign("i", bin(var("i"), TokenKind::PLUS, integer(1))),
            ],
        }),
    ])
}

#[test]
fn while_counts_to_three() {
    assert_eq!(exec(counting_loop(integer(3)), &[]).out, "0\n1\n2\n");
}

#[test]
fn const_reassignment_is_refused() {
    let p = program(vec![
        define("PI", Some("flt"), Some(flt(3.14)), true),
        assign("PI", flt(2.71)),
    ]);
    let e = expect_compile_failure(p);
    assert!(matches!(e, CompileError::ConstReassignment { ref name } if name == "PI"));
    assert_eq!(e.code(), "E0009");
}

#[test]
fn const_without_type_then_assign() {
    let p = program(vec![define("x", None, Some(integer(1)), true), assign("x", integer(2))]);
    assert!(matches!(expect_compile_failure(p), CompileError::ConstReassignment { .. }));
}

#[test]
fn if_true_takes_then_branch() {
    let p = program(vec![Node::If(IfStatement {
        condition: Box::new(boolean(true)),
        then_branch: vec![mac("writeLn", vec![text("t")])],
        else_branch: Some(vec![mac("writeLn", vec![text("f")])]),
    })]);
    assert_eq!(exec(p, &[]).out, "t\n");
}

#[test]
fn if_false_takes_else_branch() {
    let p = program(vec![Node::If(IfStatement {
        condition: Box::new(boolean(false)),
        then_branch: vec![mac("writeLn", vec![text("t")])],
        else_branch: Some(vec![mac("writeLn", vec![text("f")])]),
    })]);
    assert_eq!(exec(p, &[]).out, "f\n");
}

#[test]
fn process_exit_seven() {
    let o = exec(program(vec![mac("processExit", vec![integer(7)])]), &[]);
    assert_eq!(o.status, Some(7));
    assert_eq!(o.out, "");
}

#[test]
fn subtraction_keeps_operand_order() {
    let o = exec(program(vec![mac("writeLn", vec![bin(integer(10), TokenKind::MINUS, integer(3))])]), &[]);
    assert_eq!(o.out, "7\n");
}

#[test]
fn if_scope_hides_its_variables() {
    let p = program(vec![
        Node::If(IfStatement {
            condition: Box::new(boolean(true)),
            then_branch: vec![define("y", None, Some(integer(1)), false)],
            else_branch: None,
        }),
        mac("writeLn", vec![var("y")]),
    ]);
    assert!(matches!(expect_compile_failure(p), CompileError::UndefinedVariable { ref name } if name == "y"));
}

#[test]
fn globals_are_visible_in_nested_scopes() {
    let p = program(vec![
        define("g", None, Some(text("outer")), false),
        Node::If(IfStatement {
            condition: Box::new(boolean(true)),
            then_branch: vec![mac("writeLn", vec![var("g")])],
            else_branch: None,
        }),
        mac("writeLn", vec![var("g")]),
    ]);
    assert_eq!(exec(p, &[]).out, "outer\nouter\n");
}

#[test]
fn string_concatenation_and_equality() {
    let p = program(vec![
        mac("write", vec![bin(text("ab"), TokenKind::PLUS, text("cd"))]),
        Node::If(IfStatement {
            condition: Box::new(bin(text("x"), TokenKind::EQUAL, text("x"))),
            then_branch: vec![mac("writeLn", vec![text("!")])],
            else_branch: None,
        }),
    ]);
    assert_eq!(exec(p, &[]).out, "abcd!\n");
}

#[test]
fn read_input_strips_line_end() {
    let p = program(vec![mac("writeLn", vec![mac("readInput", vec![text("name? ")])])]);
    assert_eq!(exec(p, &["bob\r\n"]).out, "name? bob\n");
}

#[test]
fn declared_only_gets_zero_value() {
    let p = program(vec![
        define("n", Some("numb"), None, false),
        define("s", Some("string"), None, false),
        mac("writeLn", vec![var("n")]),
        mac("writeLn", vec![bin(var("s"), TokenKind::PLUS, text("."))]),
    ]);
    assert_eq!(exec(p, &[]).out, "0\n.\n");
}

#[test]
fn float_arithmetic_and_modulo() {
    let p = program(vec![
        mac("writeLn", vec![bin(flt(1.5), TokenKind::TIMES, flt(2.0))]),
        mac("writeLn", vec![bin(integer(7), TokenKind::MODULO, integer(4))]),
        mac("writeLn", vec![bin(integer(9), TokenKind::DIVIDE, integer(2))]),
    ]);
    assert_eq!(exec(p, &[]).out, "3\n3\n4.5\n");
}

#[test]
fn compile_errors_each_kind() {
    let cases: Vec<(ProgramNode, &str)> = vec![
        (program(vec![mac("nope", vec![])]), "E0001"),
        (program(vec![define("x", None, None, false)]), "E0002"),
        (program(vec![define("x", Some("foo"), Some(integer(1)), false)]), "E0003"),
        (program(vec![define("x", Some("bool"), Some(integer(1)), false)]), "E0004"),
        (program(vec![mac("writeLn", vec![bin(text("a"), TokenKind::MINUS, integer(1))])]), "E0005"),
        (program(vec![mac("writeLn", vec![var("zz")])]), "E0006"),
        (
            program(vec![define("x", None, Some(integer(1)), false), define("x", None, Some(integer(2)), false)]),
            "E0007",
        ),
        (program(vec![define("x", Some("numb"), None, true)]), "E0008"),
        (program(vec![mac("processExit", vec![])]), "E0010"),
        (program(vec![mac("writeLn", vec![boolean(true)])]), "E0011"),
        (program(vec![define("x", Some("void"), None, false)]), "E0013"),
    ];
    for (p, code) in cases {
        assert_eq!(expect_compile_failure(p).code(), code);
    }
}

#[test]
fn mixed_int_and_float_is_invalid() {
    let e = expect_compile_failure(program(vec![mac("writeLn", vec![bin(integer(1), TokenKind::PLUS, flt(1.0))])]));
    assert!(matches!(
        e,
        CompileError::InvalidBinaryOp { op: TokenKind::PLUS, left: flare::values::ComptimeValueType::Int, right: flare::values::ComptimeValueType::Float }
    ));
}

#[test]
fn write_needs_an_argument() {
    let e = expect_compile_failure(program(vec![mac("write", vec![])]));
    assert!(matches!(e, CompileError::WrongMacroArgCount { expected: 1, found: 0 }));
}

#[test]
fn function_call_is_unsupported() {
    let p = program(vec![Node::Call(FunctionCallNode {
        args: vec![],
        name: "f".to_string(),
        call_type: CallType::Fn,
    })]);
    assert_eq!(expect_compile_failure(p).code(), "E0014");
}

#[test]
fn if_emits_back_patched_branches() {
    let p = program(vec![Node::If(IfStatement {
        condition: Box::new(boolean(true)),
        then_branch: vec![mac("writeLn", vec![text("t")])],
        else_branch: Some(vec![mac("writeLn", vec![text("f")])]),
    })]);
    let code = compile(&p).unwrap();
    let expected = vec![
        Instructions::PushBool(true),
        Instructions::JumpIfFalse(5),
        Instructions::PushString("t".to_string()),
        Instructions::WriteLnLastOnStack,
        Instructions::Jump(7),
        Instructions::PushString("f".to_string()),
        Instructions::WriteLnLastOnStack,
        Instructions::Halt,
    ];
    assert_eq!(format!("{:?}", code), format!("{:?}", expected));
}

#[test]
fn while_emits_loop_branches() {
    let code = compile(&counting_loop(integer(3))).unwrap();
    // 0 PushNumber 1 SaveVar 2 LoadVar 3 PushNumber 4 LessThan 5 JumpIfFalse
    // 6 LoadVar 7 WriteLn 8 LoadVar 9 PushNumber 10 Add 11 SaveVar 12 Jump 13 Halt
    assert_eq!(format!("{:?}", code[5]), format!("{:?}", Instructions::JumpIfFalse(13)));
    assert_eq!(format!("{:?}", code[12]), format!("{:?}", Instructions::Jump(2)));
    assert_eq!(code.len(), 14);
}

#[test]
fn optimizing_keeps_behaviour_of_loops() {
    let p = counting_loop(bin(integer(1), TokenKind::PLUS, integer(2)));
    let code = compile(&p).unwrap();
    let before = run(code.clone(), &[]);
    let optimized = optimize(code.clone(), add_f32);
    assert_eq!(optimized.len(), code.len() - 2);
    assert!(targets_valid(&optimized));
    let after = run(optimized, &[]);
    assert_eq!(before.out, "0\n1\n2\n");
    assert_eq!(after.out, before.out);
}

#[test]
fn runtime_division_by_zero() {
    let o = exec(program(vec![mac("writeLn", vec![bin(integer(1), TokenKind::DIVIDE, integer(0))])]), &[]);
    assert!(matches!(o.error, Some(RuntimeError::DivisionByZero)));
}

#[test]
fn compiled_program_ends_with_its_only_halt() {
    let code = compile(&counting_loop(integer(2))).unwrap();
    assert!(targets_valid(&code));
    assert!(matches!(code.last(), Some(Instructions::Halt)));
    let halts = code.iter().filter(|i| matches!(i, Instructions::Halt)).count();
    assert_eq!(halts, 1);
}

#[test]
fn optimized_compiled_program_is_stable() {
    let code = compile(&counting_loop(bin(integer(1), TokenKind::PLUS, integer(2)))).unwrap();
    let once = optimize(code, add_f32);
    let twice = optimize(once.clone(), add_f32);
    assert_eq!(format!("{:?}", once), format!("{:?}", twice));
}
