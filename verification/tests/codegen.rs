use molang::eval::RuntimeContext;
use molang::ir::{BuiltinFunction, IrBuilder};
use molang::jit::{
    compile_expression, compile_program, BridgeValue, Callee, CompiledExpression, FloatCond, FloatOp, JitError, Op,
    RuntimeHelper, ValueType, EXIT_BLOCK, RETURN_VAR,
};
use molang::jit_cache::{cache_size, clear_cache, compile_cached, CompileCache};
use molang::lexer::lex;
use molang::number::{LOOP_LIMIT, ONE, ZERO};
use molang::parser::Parser;
use molang::{compile, compile_parsed, parse_source, Compiled, MolangError};

fn program(source: &str) -> Result<CompiledExpression, JitError> {
    let tokens = lex(source).expect("tokens");
    let parsed = Parser::new(&tokens).parse_program().expect("a program");
    let ir = IrBuilder.lower_program(&parsed).expect("lowered");
    compile_program(&ir)
}

fn expression(source: &str) -> Result<CompiledExpression, JitError> {
    let tokens = lex(source).expect("tokens");
    let parsed = Parser::new(&tokens).parse_expression().expect("an expression");
    let ir = IrBuilder.lower(&parsed).expect("lowered");
    compile_expression(&ir)
}

const PROLOGUE: [Op; 5] =
    [Op::Entry, Op::CreateBlock, Op::DeclareVar, Op::Number { bits: ZERO }, Op::DefVar { var: RETURN_VAR, value: 3 }];

fn runtime(helper: RuntimeHelper) -> Op {
    Op::Call { callee: Callee::Runtime(helper) }
}

#[test]
fn a_constant_expression() {
    let artifact = expression("2.50").unwrap();
    let mut expected = PROLOGUE.to_vec();
    expected.extend([Op::Literal { literal: 0 }, Op::Return { value: 5 }]);
    assert_eq!(artifact.ops(), &expected);
    assert_eq!(artifact.literals(), &vec!["2.50".to_string()]);
    assert!(artifact.slots().is_empty());
    assert!(artifact.data().is_empty());
    assert_eq!((EXIT_BLOCK, RETURN_VAR), (1, 2));
    let copy = artifact.clone();
    assert_eq!(copy.ops(), artifact.ops());
    assert_eq!(copy.literals(), artifact.literals());
}

#[test]
fn arithmetic_on_two_paths() {
    let artifact = expression("t.A - Speed * t.a").unwrap();
    let mut expected = PROLOGUE.to_vec();
    expected.extend([
        Op::SlotPointer { slot: 0 },
        Op::SlotLength { slot: 0 },
        Op::Arg { value: 5 },
        Op::Arg { value: 6 },
        runtime(RuntimeHelper::GetNumber),
        Op::SlotPointer { slot: 1 },
        Op::SlotLength { slot: 1 },
        Op::Arg { value: 10 },
        Op::Arg { value: 11 },
        runtime(RuntimeHelper::GetNumber),
        Op::SlotPointer { slot: 0 },
        Op::SlotLength { slot: 0 },
        Op::Arg { value: 15 },
        Op::Arg { value: 16 },
        runtime(RuntimeHelper::GetNumber),
        Op::Binary { op: FloatOp::Mul, left: 14, right: 19 },
        Op::Binary { op: FloatOp::Sub, left: 9, right: 20 },
        Op::Return { value: 21 },
    ]);
    assert_eq!(artifact.ops(), &expected);
    assert_eq!(artifact.slots(), &vec!["temp.a".to_string(), "variable.speed".to_string()]);
}

#[test]
fn a_call_and_a_comparison() {
    let artifact = expression("math.pow(2, 3) <= !1").unwrap();
    let mut expected = PROLOGUE.to_vec();
    expected.extend([
        Op::Literal { literal: 0 },
        Op::Literal { literal: 1 },
        Op::Arg { value: 5 },
        Op::Arg { value: 6 },
        Op::Call { callee: Callee::Builtin(BuiltinFunction::MathPow) },
        Op::Literal { literal: 2 },
        Op::Number { bits: ZERO },
        Op::Compare { cond: FloatCond::Equal, left: 10, right: 11 },
        Op::BoolToFloat { value: 12 },
        Op::Compare { cond: FloatCond::LessThanOrEqual, left: 9, right: 13 },
        Op::BoolToFloat { value: 14 },
        Op::Return { value: 15 },
    ]);
    assert_eq!(artifact.ops(), &expected);
    assert_eq!(artifact.literals(), &vec!["2".to_string(), "3".to_string(), "1".to_string()]);
}

#[test]
fn a_short_circuit_branch() {
    let artifact = expression("1 && 2").unwrap();
    let mut expected = PROLOGUE.to_vec();
    expected.extend([
        Op::Literal { literal: 0 },
        Op::Number { bits: ZERO },
        Op::Compare { cond: FloatCond::NotEqual, left: 5, right: 6 },
        Op::CreateBlock,
        Op::CreateBlock,
        Op::CreateBlock,
        Op::BlockParam { block: 10 },
        Op::Branch { condition: 7, then_block: 8, else_block: 9 },
        Op::SwitchTo { block: 8 },
        Op::Literal { literal: 1 },
        Op::Number { bits: ZERO },
        Op::Compare { cond: FloatCond::NotEqual, left: 14, right: 15 },
        Op::BoolToFloat { value: 16 },
        Op::JumpWith { target: 10, argument: 17 },
        Op::Seal { block: 8 },
        Op::SwitchTo { block: 9 },
        Op::Number { bits: ZERO },
        Op::JumpWith { target: 10, argument: 21 },
        Op::Seal { block: 9 },
        Op::SwitchTo { block: 10 },
        Op::Seal { block: 10 },
        Op::Return { value: 11 },
    ]);
    assert_eq!(artifact.ops(), &expected);
}

#[test]
fn assignments_by_kind() {
    let artifact = program("t.s = 'hi'; t.n = t.s; t.a = [7, 'x']; return;").unwrap();
    let mut expected = PROLOGUE.to_vec();
    expected.extend([
        Op::SlotPointer { slot: 0 },
        Op::SlotLength { slot: 0 },
        Op::DataSize { data: 0 },
        Op::DataAddress { data: 0 },
        Op::Arg { value: 5 },
        Op::Arg { value: 6 },
        Op::Arg { value: 8 },
        Op::Arg { value: 7 },
        runtime(RuntimeHelper::SetString),
        Op::SlotPointer { slot: 1 },
        Op::SlotLength { slot: 1 },
        Op::Arg { value: 14 },
        Op::Arg { value: 15 },
        runtime(RuntimeHelper::ClearValue),
        Op::SlotPointer { slot: 1 },
        Op::SlotLength { slot: 1 },
        Op::SlotPointer { slot: 0 },
        Op::SlotLength { slot: 0 },
        Op::Arg { value: 19 },
        Op::Arg { value: 20 },
        Op::Arg { value: 21 },
        Op::Arg { value: 22 },
        runtime(RuntimeHelper::CopyValue),
        Op::SlotPointer { slot: 2 },
        Op::SlotLength { slot: 2 },
        Op::Arg { value: 28 },
        Op::Arg { value: 29 },
        runtime(RuntimeHelper::ClearValue),
        Op::Literal { literal: 0 },
        Op::SlotPointer { slot: 2 },
        Op::SlotLength { slot: 2 },
        Op::Arg { value: 34 },
        Op::Arg { value: 35 },
        Op::Arg { value: 33 },
        runtime(RuntimeHelper::ArrayPushNumber),
        Op::DataSize { data: 1 },
        Op::DataAddress { data: 1 },
        Op::SlotPointer { slot: 2 },
        Op::SlotLength { slot: 2 },
        Op::Arg { value: 42 },
        Op::Arg { value: 43 },
        Op::Arg { value: 41 },
        Op::Arg { value: 40 },
        runtime(RuntimeHelper::ArrayPushString),
        Op::Number { bits: ZERO },
        Op::DefVar { var: RETURN_VAR, value: 49 },
        Op::Jump { target: EXIT_BLOCK },
        Op::CreateBlock,
        Op::SwitchTo { block: 52 },
        Op::Seal { block: 52 },
        Op::Jump { target: EXIT_BLOCK },
        Op::SwitchTo { block: EXIT_BLOCK },
        Op::Seal { block: EXIT_BLOCK },
        Op::UseVar { var: RETURN_VAR },
        Op::Return { value: 58 },
    ]);
    assert_eq!(artifact.ops(), &expected);
    assert_eq!(artifact.slots(), &vec!["temp.s".to_string(), "temp.n".to_string(), "temp.a".to_string()]);
    assert_eq!(artifact.data(), &vec!["hi".to_string(), "x".to_string()]);
}

#[test]
fn a_counting_loop() {
    let artifact = program("loop(3, continue)").unwrap();
    let mut expected = PROLOGUE.to_vec();
    expected.extend([
        Op::Literal { literal: 0 },
        Op::Number { bits: LOOP_LIMIT },
        Op::Binary { op: FloatOp::Min, left: 5, right: 6 },
        Op::DeclareVar,
        Op::Number { bits: ZERO },
        Op::DefVar { var: 8, value: 9 },
        Op::CreateBlock,
        Op::CreateBlock,
        Op::CreateBlock,
        Op::CreateBlock,
        Op::Jump { target: 11 },
        Op::SwitchTo { block: 11 },
        Op::UseVar { var: 8 },
        Op::Compare { cond: FloatCond::LessThan, left: 17, right: 7 },
        Op::Branch { condition: 18, then_block: 12, else_block: 13 },
        Op::SwitchTo { block: 12 },
        Op::Number { bits: ZERO },
        Op::Jump { target: 14 },
        Op::CreateBlock,
        Op::SwitchTo { block: 23 },
        Op::Seal { block: 23 },
        Op::Jump { target: 14 },
        Op::Seal { block: 12 },
        Op::SwitchTo { block: 14 },
        Op::UseVar { var: 8 },
        Op::Number { bits: ONE },
        Op::Binary { op: FloatOp::Add, left: 29, right: 30 },
        Op::DefVar { var: 8, value: 31 },
        Op::Jump { target: 11 },
        Op::Seal { block: 14 },
        Op::Seal { block: 11 },
        Op::SwitchTo { block: 13 },
        Op::Seal { block: 13 },
        Op::Jump { target: EXIT_BLOCK },
        Op::SwitchTo { block: EXIT_BLOCK },
        Op::Seal { block: EXIT_BLOCK },
        Op::UseVar { var: RETURN_VAR },
        Op::Return { value: 41 },
    ]);
    assert_eq!(artifact.ops(), &expected);
}

#[test]
fn slots_are_named_once_in_the_order_of_use() {
    let artifact = program(
        "q.Speed = t.x; for_each(v.item, [1], { c.n = v.ITEM == 'a'; }); t.s = { k: t.x, l: { m: 1 } }; t.y = t.x == speed; t.z = t.a[1] + t.a[length];",
    )
    .unwrap();
    let expected: Vec<String> = [
        "query.speed",
        "temp.x",
        "variable.__temp_collection_2",
        "variable.item",
        "context.n",
        "temp.s",
        "temp.s.k",
        "temp.s.l",
        "temp.s.l.m",
        "variable.speed",
        "temp.y",
        "temp.a",
        "temp.z",
    ]
    .iter()
    .map(|s| s.to_string())
    .collect();
    assert_eq!(artifact.slots(), &expected);
    for op in artifact.ops() {
        match *op {
            Op::SlotPointer { slot } | Op::SlotLength { slot } => assert!(slot < expected.len()),
            Op::DataAddress { data } | Op::DataSize { data } => assert!(data < artifact.data().len()),
            Op::Literal { literal } => assert!(literal < artifact.literals().len()),
            _ => {}
        }
    }
    let nested = program("t.a = [1, [2, 3], 4];").unwrap();
    assert_eq!(
        nested.slots(),
        &vec!["temp.a".to_string(), "variable.__temp_array_elem_1".to_string()]
    );
}

fn well_formed(artifact: &CompiledExpression) {
    let ops = artifact.ops();
    let is_block = |id: usize| matches!(ops.get(id), Some(Op::Entry) | Some(Op::CreateBlock));
    let is_var = |id: usize| matches!(ops.get(id), Some(Op::DeclareVar));
    let mut open = true;
    for (i, op) in ops.iter().enumerate() {
        let defined = |id: usize| {
            assert!(id < i, "operation {} uses {} before it is defined", i, id);
            assert!(matches!(
                ops[id],
                Op::BlockParam { .. }
                    | Op::UseVar { .. }
                    | Op::Number { .. }
                    | Op::Literal { .. }
                    | Op::SlotPointer { .. }
                    | Op::SlotLength { .. }
                    | Op::DataAddress { .. }
                    | Op::DataSize { .. }
                    | Op::Neg { .. }
                    | Op::Binary { .. }
                    | Op::Compare { .. }
                    | Op::BoolToFloat { .. }
                    | Op::IntToFloat { .. }
                    | Op::FloatToInt { .. }
                    | Op::Call { .. }
            ));
        };
        match *op {
            Op::Entry => assert_eq!(i, 0),
            Op::CreateBlock | Op::DeclareVar => {}
            Op::BlockParam { block } | Op::Seal { block } => assert!(block < i && is_block(block)),
            Op::SwitchTo { block } => {
                assert!(block < i && is_block(block));
                assert!(!open, "operation {} leaves a block that has no end", i);
                open = true;
            }
            Op::Jump { target } => {
                assert!(is_block(target) && open);
                open = false;
            }
            Op::JumpWith { target, argument } => {
                assert!(is_block(target) && open);
                defined(argument);
                open = false;
            }
            Op::Branch { condition, then_block, else_block } => {
                assert!(is_block(then_block) && is_block(else_block) && open);
                defined(condition);
                open = false;
            }
            Op::Return { value } => {
                assert!(open);
                defined(value);
                open = false;
            }
            Op::DefVar { var, value } => {
                assert!(var < i && is_var(var) && open);
                defined(value);
            }
            Op::UseVar { var } => assert!(var < i && is_var(var) && open),
            Op::Neg { value }
            | Op::BoolToFloat { value }
            | Op::IntToFloat { value }
            | Op::FloatToInt { value }
            | Op::Arg { value } => {
                assert!(open);
                defined(value)
            }
            Op::Binary { left, right, .. } | Op::Compare { left, right, .. } => {
                assert!(open);
                defined(left);
                defined(right);
            }
            _ => assert!(open),
        }
    }
    assert!(!open);
}

#[test]
fn every_block_ends_once_and_every_use_follows_its_definition() {
    for source in [
        "return 1;",
        "",
        "t.x = 1 ? 2 : 3; t.y = t.x ?? (t.z || t.w && 1);",
        "loop(10, { t.c = t.c + 1; (t.c > 5) ? break; t.d = 1; continue; t.e = 2; }); return t.c;",
        "for_each(t.i, t.list, { loop(t.i, { return t.i; }); break; }); return 0; t.never = 1;",
        "t.s = { a: [1, 'b'], c: { d: t.x == 'e', f: 'g' != t.y } }; return t.s.a[t.n ? 0 : 1];",
        "loop(2, { for_each(t.a, [1, 2], { (t.a == 2) ? continue : break; }); });",
    ] {
        well_formed(&program(source).unwrap());
    }
    for source in ["1", "a && b || c ?? d", "math.clamp(a ? 1 : 2, !b, -c) == (d < e)"] {
        well_formed(&expression(source).unwrap());
    }
}

#[test]
fn refusals() {
    for (source, feature) in [
        ("'a' + 1", "string literal as value expression"),
        ("({a: 1})", "struct literal as value expression"),
        ("[1][0]", "indexing non-path expression"),
        ("continue", "break/continue outside loop"),
    ] {
        match expression(source) {
            Err(JitError::UnsupportedExpression { feature: found }) => assert_eq!(found, feature),
            other => panic!("{}: {:?}", source, other),
        }
    }
    for (source, feature) in [
        ("t.x = [1, t.a[0]];", "index as assignment source"),
        ("loop(1, { t.x = [continue]; });", "control flow expression as assignment source"),
        ("t.x = { a: { b: 'c' + 1 } };", "string literal as value expression"),
        ("for_each(t.i, t.a[0], {});", "index as assignment source"),
        ("loop(1, {}); break;", "break/continue outside loop"),
    ] {
        match program(source) {
            Err(JitError::UnsupportedExpression { feature: found }) => assert_eq!(found, feature),
            other => panic!("{}: {:?}", source, other),
        }
    }
    assert!(expression("'a' == 'a'").is_ok());
    assert!(program("loop(1, { break; }); for_each(t.i, 'text', {}); t.x = 'a' != t.y;").is_ok());
}

#[test]
fn bridge_table() {
    let all = RuntimeHelper::all();
    assert_eq!(all.len(), 14);
    for helper in &all {
        assert!(helper.symbol_name().starts_with("molang_rt_"));
        let arguments = helper.arguments();
        assert_eq!(&arguments[..2], &[ValueType::Pointer, ValueType::Pointer]);
    }
    assert_eq!(RuntimeHelper::GetNumber.symbol_name(), "molang_rt_get_number");
    assert_eq!(RuntimeHelper::NotEqualPathString.symbol_name(), "molang_rt_not_equal_path_string");
    assert_eq!(RuntimeHelper::GetNumber.result(), Some(ValueType::Number));
    assert_eq!(RuntimeHelper::ArrayLength.result(), Some(ValueType::Integer));
    assert_eq!(RuntimeHelper::SetString.result(), None);
    assert_eq!(RuntimeHelper::EqualPaths.result(), Some(ValueType::Number));
    assert_eq!(RuntimeHelper::SetNumber.arguments().len(), 3);
    assert_eq!(RuntimeHelper::SetNumber.arguments()[2], ValueType::Number);
    assert_eq!(RuntimeHelper::CopyValue.arguments().len(), 4);
    assert_eq!(
        RuntimeHelper::ArrayCopyElement.arguments(),
        vec![ValueType::Pointer, ValueType::Pointer, ValueType::Integer, ValueType::Pointer, ValueType::Pointer]
    );
}

#[test]
fn bridge_calls() {
    let mut ctx = RuntimeContext::default();
    let one = ONE;
    let two = 2.0f64.to_bits();
    assert_eq!(RuntimeHelper::SetNumber.invoke(&mut ctx, "temp.n", "", two, 0), BridgeValue::Nothing);
    assert_eq!(RuntimeHelper::GetNumber.invoke(&mut ctx, "temp.n", "", 0, 0), BridgeValue::Number(two));
    assert_eq!(RuntimeHelper::GetNumber.invoke(&mut ctx, "temp.none", "", 0, 0), BridgeValue::Number(0));
    RuntimeHelper::SetString.invoke(&mut ctx, "temp.s", "text", 0, 0);
    RuntimeHelper::CopyValue.invoke(&mut ctx, "temp.t", "temp.s", 0, 0);
    assert_eq!(RuntimeHelper::EqualPaths.invoke(&mut ctx, "temp.s", "temp.t", 0, 0), BridgeValue::Number(one));
    assert_eq!(RuntimeHelper::NotEqualPaths.invoke(&mut ctx, "temp.s", "temp.t", 0, 0), BridgeValue::Number(0));
    assert_eq!(RuntimeHelper::EqualPaths.invoke(&mut ctx, "temp.s", "temp.n", 0, 0), BridgeValue::Number(0));
    assert_eq!(RuntimeHelper::NotEqualPaths.invoke(&mut ctx, "temp.s", "temp.n", 0, 0), BridgeValue::Number(one));
    assert_eq!(RuntimeHelper::EqualPathString.invoke(&mut ctx, "temp.t", "text", 0, 0), BridgeValue::Number(one));
    assert_eq!(RuntimeHelper::NotEqualPathString.invoke(&mut ctx, "temp.t", "text", 0, 0), BridgeValue::Number(0));
    assert_eq!(RuntimeHelper::NotEqualPathString.invoke(&mut ctx, "temp.n", "text", 0, 0), BridgeValue::Number(one));
    RuntimeHelper::ArrayPushNumber.invoke(&mut ctx, "temp.a", "", two, 0);
    RuntimeHelper::ArrayPushString.invoke(&mut ctx, "temp.a", "word", 0, 0);
    assert_eq!(RuntimeHelper::ArrayLength.invoke(&mut ctx, "temp.a", "", 0, 0), BridgeValue::Count(2));
    assert_eq!(RuntimeHelper::ArrayLength.invoke(&mut ctx, "temp.n", "", 0, 0), BridgeValue::Count(0));
    assert_eq!(RuntimeHelper::ArrayGetNumber.invoke(&mut ctx, "temp.a", "", two, 0), BridgeValue::Number(two));
    assert_eq!(RuntimeHelper::ArrayGetNumber.invoke(&mut ctx, "temp.a", "", one, 0), BridgeValue::Number(0));
    RuntimeHelper::ArrayCopyElement.invoke(&mut ctx, "temp.a", "temp.e", 0, 3);
    assert_eq!(RuntimeHelper::EqualPathString.invoke(&mut ctx, "temp.e", "word", 0, 0), BridgeValue::Number(one));
    RuntimeHelper::ClearValue.invoke(&mut ctx, "temp.a", "", 0, 0);
    assert_eq!(RuntimeHelper::ArrayLength.invoke(&mut ctx, "temp.a", "", 0, 0), BridgeValue::Count(0));
    RuntimeHelper::SetNumber.invoke(&mut ctx, "query.n", "", two, 0);
    assert_eq!(RuntimeHelper::GetNumber.invoke(&mut ctx, "query.n", "", 0, 0), BridgeValue::Number(0));
    assert_eq!(ctx.len(), 4);
}

#[test]
fn the_cache_keeps_the_first_artifact_of_a_text() {
    let mut cache = CompileCache::new();
    assert_eq!(cache_size(&cache), 0);
    assert!(cache.get(0).is_none());
    assert!(matches!(compile("1 + t.x", &mut cache), Ok(Compiled::Cached(0))));
    assert!(matches!(compile("1 + t.x", &mut cache), Ok(Compiled::Cached(0))));
    assert!(matches!(compile("1 + t.x ", &mut cache), Ok(Compiled::Cached(1))));
    assert!(matches!(compile("2 * 3", &mut cache), Ok(Compiled::Cached(2))));
    assert!(matches!(compile("1 + t.x ", &mut cache), Ok(Compiled::Cached(1))));
    assert_eq!(cache_size(&cache), 3);
    assert_eq!(cache.find("2 * 3"), Some(2));
    assert_eq!(cache.find("2*3"), None);
    assert_eq!(cache.get(0).unwrap().slots(), &vec!["temp.x".to_string()]);
    assert_eq!(cache.get(2).unwrap().literals(), &vec!["2".to_string(), "3".to_string()]);
    assert!(matches!(compile("return 1;", &mut cache), Ok(Compiled::Program(_))));
    assert!(matches!(compile("t.x = 1", &mut cache), Ok(Compiled::Program(_))));
    assert!(matches!(compile("math.nope(1)", &mut cache), Err(MolangError::Lower(_))));
    assert!(matches!(compile("nope(1); return 2;", &mut cache), Err(MolangError::Lower(_))));
    assert!(matches!(compile("1 +", &mut cache), Err(MolangError::Parse(_))));
    assert!(matches!(compile("1 $ 2", &mut cache), Err(MolangError::Lex(_))));
    assert!(matches!(compile("return 'text';", &mut cache), Err(MolangError::Jit(_))));
    assert_eq!(cache_size(&cache), 3);
    let other = IrBuilder.lower(&Parser::new(&lex("9").unwrap()).parse_expression().unwrap()).unwrap();
    assert_eq!(compile_cached(&mut cache, "2 * 3", &other).unwrap(), 2);
    assert_eq!(cache.get(2).unwrap().literals(), &vec!["2".to_string(), "3".to_string()]);
    assert_eq!(compile_cached(&mut cache, "nine", &other).unwrap(), 3);
    let parsed = parse_source("4 + 5").unwrap();
    assert!(matches!(compile_parsed(&parsed, "key", &mut cache), Ok(Compiled::Cached(4))));
    assert_eq!(cache.find("key"), Some(4));
    clear_cache(&mut cache);
    assert_eq!(cache_size(&cache), 0);
    assert!(matches!(compile("2 * 3", &mut cache), Ok(Compiled::Cached(0))));
}

#[test]
fn numeric_expressions_leave_the_context_alone() {
    for source in ["1 + 2 * 3", "math.sin(1) ? -2 : !3", "(1 && 2) || (3 ?? 4) == 5", "math.clamp(1, 2, math.pi()) != 6"] {
        let artifact = expression(source).unwrap();
        assert!(artifact.slots().is_empty() && artifact.data().is_empty(), "{}", source);
        for op in artifact.ops() {
            assert!(
                !matches!(
                    op,
                    Op::Call { callee: Callee::Runtime(_) }
                        | Op::SlotPointer { .. }
                        | Op::SlotLength { .. }
                        | Op::DataAddress { .. }
                        | Op::DataSize { .. }
                ),
                "{} touches the context",
                source
            );
        }
        well_formed(&artifact);
    }
    assert!(!expression("1 + t.x").unwrap().slots().is_empty());
}
