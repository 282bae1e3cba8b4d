use flare::codec::{encode, BytecodeLoader};
use flare::context::{CompileContext, CompileTimeFunctionForCheck, ComptimeVariable, FunctionContext};
use flare::errors::{CodecError, CompileError, RuntimeError};
use flare::instructions::{targets_valid, Instructions};
use flare::macros::{Macro, MacroManager, ReadInputMacro, WriteLnMacro};
use flare::optimizer::{constant_folding, optimize};
use flare::values::{ComptimeValueType, Value};
use flare::vm::{ArithOp, Effect, VM};

fn add_f32(a: u32, b: u32) -> u32 {
    (f32::from_bits(a) + f32::from_bits(b)).to_bits()
}

fn n(x: f32) -> Instructions {
    Instructions::PushNumber(x.to_bits())
}

fn dbg<T: std::fmt::Debug>(t: &T) -> String {
    format!("{:?}", t)
}

#[test]
fn resolve_type_keywords() {
    assert!(matches!(CompileContext::get_type("numb"), Ok(ComptimeValueType::Int)));
    assert!(matches!(CompileContext::get_type("flt"), Ok(ComptimeValueType::Float)));
    assert!(matches!(CompileContext::get_type("string"), Ok(ComptimeValueType::StringValue)));
    assert!(matches!(CompileContext::get_type("bool"), Ok(ComptimeValueType::Bool)));
    assert!(matches!(CompileContext::get_type("void"), Ok(ComptimeValueType::Void)));
    match CompileContext::get_type("numbers") {
        Err(CompileError::UndefinedType { undefined_type }) => assert_eq!(undefined_type, "numbers"),
        other => panic!("{:?}", other),
    }
}

#[test]
fn scopes_shadow_and_pop() {
    let mut ctx = CompileContext::new();
    let int_var = ComptimeVariable { value_type: ComptimeValueType::Int, is_const: false };
    let str_const = ComptimeVariable { value_type: ComptimeValueType::StringValue, is_const: true };
    assert!(ctx.add_variable("a".to_string(), int_var).is_ok());
    assert!(matches!(
        ctx.add_variable("a".to_string(), str_const),
        Err(CompileError::VariableRecreation { .. })
    ));
    ctx.enter_scope();
    assert_eq!(ctx.get_variable("a"), Some(int_var));
    assert!(ctx.add_variable("a".to_string(), str_const).is_ok());
    assert_eq!(ctx.get_variable("a"), Some(str_const));
    ctx.exit_scope();
    assert_eq!(ctx.get_variable("a"), Some(int_var));
    assert_eq!(ctx.get_variable("b"), None);
}

#[test]
fn function_registry_refuses_duplicates() {
    let sig = CompileTimeFunctionForCheck { return_type: ComptimeValueType::Void, is_pub: true };
    let mut f = FunctionContext::new();
    assert!(f.add_function("f".to_string(), sig).is_ok());
    assert!(f.contains("f"));
    assert!(matches!(f.add_function("f".to_string(), sig), Err(CompileError::FunctionAlreadyExists { .. })));
    let mut ctx = CompileContext::new();
    assert!(ctx.add_function("g".to_string(), sig).is_ok());
    assert_eq!(ctx.add_function("g".to_string(), sig).unwrap_err().code(), "E0012");
}

#[test]
fn builtin_macros_are_registered() {
    let m = MacroManager::new();
    assert_eq!(m.get_macro("writeLn"), Some(Macro::WriteLn(WriteLnMacro)));
    assert_eq!(m.get_macro("readInput"), Some(Macro::ReadInput(ReadInputMacro)));
    assert_eq!(m.get_macro("print"), None);
}

#[test]
fn folding_example_relocates_jumps() {
    let code = vec![
        n(5.0),
        n(3.0),
        Instructions::Add,
        Instructions::JumpIfFalse(7),
        n(1.0),
        Instructions::Jump(7),
        n(0.0),
        Instructions::Halt,
    ];
    let expected = vec![
        n(8.0),
        Instructions::JumpIfFalse(5),
        n(1.0),
        Instructions::Jump(5),
        n(0.0),
        Instructions::Halt,
    ];
    let (folded, map) = constant_folding(&code, &add_f32);
    assert_eq!(folded.len(), 6);
    assert_eq!(map, vec![0, 0, 0, 1, 2, 3, 4, 5]);
    assert_eq!(dbg(&optimize(code, add_f32)), dbg(&expected));
}

#[test]
fn jump_to_end_maps_to_new_end() {
    let code = vec![Instructions::Jump(4), n(1.0), n(2.0), Instructions::Add];
    let out = optimize(code, add_f32);
    assert_eq!(dbg(&out), dbg(&vec![Instructions::Jump(2), n(3.0)]));
}

#[test]
fn optimize_is_idempotent_without_new_triples() {
    let code = vec![n(1.0), n(2.0), Instructions::Add, Instructions::WriteLnLastOnStack, Instructions::Halt];
    let once = optimize(code, add_f32);
    let twice = optimize(once.clone(), add_f32);
    assert_eq!(dbg(&once), dbg(&twice));
}

#[test]
fn nested_sums_fold_in_one_pass() {
    // 1 + (2 + 3): folding the inner sum completes a new triple, folded at once.
    let code = vec![n(1.0), n(2.0), n(3.0), Instructions::Add, Instructions::Add];
    let once = optimize(code, add_f32);
    assert_eq!(dbg(&once), dbg(&vec![n(6.0)]));
    let twice = optimize(once.clone(), add_f32);
    assert_eq!(dbg(&twice), dbg(&once));
}

#[test]
fn chained_sums_fold_to_one_push() {
    // 1 + 2 + 3, then Halt.
    let code = vec![n(1.0), n(2.0), Instructions::Add, n(3.0), Instructions::Add, Instructions::Halt];
    let once = optimize(code, add_f32);
    assert_eq!(dbg(&once), dbg(&vec![n(6.0), Instructions::Halt]));
    assert_eq!(dbg(&optimize(once.clone(), add_f32)), dbg(&once));
}

#[test]
fn jump_into_folded_region_maps_to_the_fold() {
    let code = vec![
        Instructions::Jump(2),
        n(1.0),
        n(2.0),
        Instructions::Add,
        n(3.0),
        Instructions::Add,
        Instructions::Jump(7),
    ];
    let (folded, map) = constant_folding(&code, &add_f32);
    assert_eq!(folded.len(), 3);
    assert_eq!(map, vec![0, 1, 1, 1, 1, 1, 2]);
    let out = optimize(code, add_f32);
    assert_eq!(dbg(&out), dbg(&vec![Instructions::Jump(1), n(6.0), Instructions::Jump(3)]));
}

#[test]
fn targets_out_of_range_are_found() {
    assert!(targets_valid(&vec![Instructions::Jump(1)]));
    assert!(!targets_valid(&vec![Instructions::Jump(2)]));
}

#[test]
fn encoding_bytes_are_bit_exact() {
    let code = vec![
        Instructions::PushString("hé".to_string()),
        Instructions::PushBool(true),
        n(1.0),
        Instructions::Jump(258),
        Instructions::SaveVar("x".to_string()),
        Instructions::Halt,
    ];
    let bytes = encode(&code).unwrap();
    assert_eq!(
        bytes,
        vec![
            20, 3, 0, 0, 0, 0x68, 0xc3, 0xa9, 21, 1, 22, 0x00, 0x00, 0x80, 0x3f, 40, 2, 1, 50, 1,
            0, 0, 0, b'x', 255
        ]
    );
    let back = BytecodeLoader::from_bytes(bytes).unwrap();
    assert_eq!(dbg(&back), dbg(&code));
}

#[test]
fn every_opcode_round_trips() {
    let code = vec![
        Instructions::Add,
        Instructions::Sub,
        Instructions::Mul,
        Instructions::Div,
        Instructions::Modulo,
        Instructions::GreaterThan,
        Instructions::LessThan,
        Instructions::Equal,
        Instructions::LoadVar("v".to_string()),
        Instructions::SaveVar("v".to_string()),
        Instructions::PushString(String::new()),
        Instructions::PushBool(false),
        n(-2.5),
        Instructions::ReadInput,
        Instructions::WriteLnLastOnStack,
        Instructions::WriteLastOnStack,
        Instructions::ProcessExit,
        Instructions::Jump(0),
        Instructions::JumpIfFalse(65535),
        Instructions::JumpIfTrue(3),
        Instructions::Halt,
    ];
    let bytes = encode(&code).unwrap();
    assert_eq!(bytes[0], 1);
    assert_eq!(bytes[3], 4);
    let back = BytecodeLoader::from_bytes(bytes).unwrap();
    assert_eq!(dbg(&back), dbg(&code));
}

#[test]
fn decoding_errors() {
    assert_eq!(
        BytecodeLoader::from_bytes(vec![1, 9]).unwrap_err(),
        CodecError::UnknownOpcode { opcode: 9, position: 1 }
    );
    assert_eq!(BytecodeLoader::from_bytes(vec![22, 0, 0]).unwrap_err(), CodecError::UnexpectedEndOfStream);
    assert_eq!(BytecodeLoader::from_bytes(vec![40, 1]).unwrap_err(), CodecError::UnexpectedEndOfStream);
    assert_eq!(
        BytecodeLoader::from_bytes(vec![20, 5, 0, 0, 0, b'a']).unwrap_err(),
        CodecError::UnexpectedEndOfStream
    );
    assert_eq!(BytecodeLoader::from_bytes(vec![20, 1, 0, 0, 0, 0xff]).unwrap_err(), CodecError::InvalidUtf8);
    assert_eq!(BytecodeLoader::from_bytes(vec![21, 2]).unwrap_err(), CodecError::InvalidBoolEncoding);
    assert_eq!(BytecodeLoader::from_bytes(vec![]).unwrap().len(), 0);
}

#[test]
fn encoding_refuses_wide_targets() {
    assert_eq!(encode(&vec![Instructions::Jump(65536)]).unwrap_err(), CodecError::ProgramTooLarge);
    let long = vec![Instructions::Halt; 65537];
    assert_eq!(encode(&long).unwrap_err(), CodecError::ProgramTooLarge);
    let full = vec![Instructions::Halt; 65536];
    assert_eq!(encode(&full).unwrap().len(), 65536);
}

#[test]
fn vm_from_bytes_runs_decoded_program() {
    let mut vm = VM::from_bytes(vec![20, 2, 0, 0, 0, b'o', b'k', 30, 255]).unwrap();
    assert!(matches!(vm.step(), Ok(Effect::Continue)));
    match vm.step() {
        Ok(Effect::Write { value: Value::StringValue(s), newline: true }) => assert_eq!(s, "ok"),
        other => panic!("{:?}", other),
    }
    assert!(matches!(vm.step(), Ok(Effect::Halt)));
    assert!(VM::from_bytes(vec![7, 99]).is_err());
}

#[test]
fn vm_errors() {
    let mut vm = VM::new(vec![Instructions::LoadVar("q".to_string())]);
    assert!(matches!(vm.step(), Err(RuntimeError::UndefinedVariableAtRuntime { ref name }) if name == "q"));
    let mut vm = VM::new(vec![n(1.0), Instructions::Add]);
    assert!(matches!(vm.step(), Ok(Effect::Continue)));
    assert!(matches!(vm.step(), Err(RuntimeError::StackUnderflow)));
    let mut vm = VM::new(vec![]);
    assert!(matches!(vm.step(), Err(RuntimeError::UnexpectedEndOfProgram)));
    let mut vm = VM::new(vec![Instructions::PushBool(true), n(1.0), Instructions::Add]);
    vm.step().unwrap();
    vm.step().unwrap();
    assert!(matches!(vm.step(), Err(RuntimeError::TypeError { opcode: 1 })));
    let mut vm = VM::new(vec![n(1.0), n(-0.0), Instructions::Modulo]);
    vm.step().unwrap();
    vm.step().unwrap();
    assert!(matches!(vm.step(), Err(RuntimeError::DivisionByZero)));
}

#[test]
fn vm_variables_and_branches() {
    let mut vm = VM::new(vec![
        n(4.0),
        Instructions::SaveVar("a".to_string()),
        n(5.0),
        Instructions::SaveVar("a".to_string()),
        Instructions::PushBool(false),
        Instructions::JumpIfTrue(0),
        Instructions::PushBool(false),
        Instructions::JumpIfFalse(9),
        Instructions::Halt,
        Instructions::LoadVar("a".to_string()),
        n(2.0),
        Instructions::Sub,
    ]);
    for _ in 0..8 {
        assert!(matches!(vm.step(), Ok(Effect::Continue)));
    }
    assert_eq!(vm.ip(), 9);
    match vm.variable("a") {
        Some(Value::Number(bits)) => assert_eq!(f32::from_bits(bits), 5.0),
        other => panic!("{:?}", other),
    }
    vm.step().unwrap();
    vm.step().unwrap();
    match vm.step() {
        Ok(Effect::Arithmetic { op: ArithOp::Sub, left, right }) => {
            assert_eq!(f32::from_bits(left), 5.0);
            assert_eq!(f32::from_bits(right), 2.0);
        }
        other => panic!("{:?}", other),
    }
    assert_eq!(vm.stack_len(), 0);
}

#[test]
fn equality_is_structural_across_kinds() {
    let mut vm = VM::new(vec![Instructions::PushString("1".to_string()), n(1.0), Instructions::Equal]);
    vm.step().unwrap();
    vm.step().unwrap();
    assert!(matches!(vm.step(), Ok(Effect::Continue)));
    let mut vm2 = VM::new(vec![Instructions::PushBool(true), Instructions::PushBool(true), Instructions::Equal, Instructions::ProcessExit]);
    vm2.step().unwrap();
    vm2.step().unwrap();
    vm2.step().unwrap();
    assert!(matches!(vm2.step(), Err(RuntimeError::TypeError { opcode: 61 })));
    assert_eq!(vm.stack_len(), 1);
    assert!(matches!(vm.variable("none"), None));
}

#[test]
fn push_input_strips_only_one_line_end() {
    let mut vm = VM::new(vec![Instructions::WriteLastOnStack]);
    vm.push_input("a\n\n".to_string());
    match vm.step() {
        Ok(Effect::Write { value: Value::StringValue(s), newline: false }) => assert_eq!(s, "a\n"),
        other => panic!("{:?}", other),
    }
    let mut vm = VM::new(vec![Instructions::WriteLastOnStack]);
    vm.push_input("x\r".to_string());
    match vm.step() {
        Ok(Effect::Write { value: Value::StringValue(s), .. }) => assert_eq!(s, "x\r"),
        other => panic!("{:?}", other),
    }
}
