use molang::ast::{BinaryOp, Expr, ExprField, Program, Statement};
use molang::ir::{BuiltinFunction, FunctionRef, IrBuilder, IrExpr, IrStatement, LowerError};
use molang::lexer::lex;
use molang::parser::Parser;

fn parse(input: &str) -> Program {
    let tokens = lex(input).expect("tokens");
    Parser::new(&tokens).parse_program().expect("a program")
}

fn path(parts: &[&str]) -> Vec<String> {
    parts.iter().map(|p| p.to_string()).collect()
}

#[test]
fn builtin_table() {
    let all = BuiltinFunction::all();
    assert_eq!(all.len(), 61);
    for function in &all {
        let name = function.name();
        assert_eq!(BuiltinFunction::from_path(&path(&["math", name])), Some(*function), "{}", name);
        assert_eq!(function.symbol_name(), format!("builtin_math_{}", name));
        assert!(function.arity() <= 3);
    }
    assert_eq!(BuiltinFunction::from_path(&path(&["math", "lerprotate"])), Some(BuiltinFunction::MathLerpRotate));
    assert_eq!(BuiltinFunction::MathPi.arity(), 0);
    assert_eq!(BuiltinFunction::MathCos.arity(), 1);
    assert_eq!(BuiltinFunction::MathHermiteBlend.arity(), 1);
    assert_eq!(BuiltinFunction::MathAtan2.arity(), 2);
    assert_eq!(BuiltinFunction::MathRandom.arity(), 2);
    assert_eq!(BuiltinFunction::MathClamp.arity(), 3);
    assert_eq!(BuiltinFunction::MathDieRoll.arity(), 3);
    assert_eq!(BuiltinFunction::MathEaseInOutBounce.arity(), 3);
    assert_eq!(BuiltinFunction::MathMinAngle.symbol_name(), "builtin_math_min_angle");
    assert_eq!(BuiltinFunction::from_path(&path(&["math", "Cos"])), None);
    assert_eq!(BuiltinFunction::from_path(&path(&["Math", "cos"])), None);
    assert_eq!(BuiltinFunction::from_path(&path(&["math"])), None);
    assert_eq!(BuiltinFunction::from_path(&path(&["math", "cos", "x"])), None);
    assert_eq!(BuiltinFunction::from_path(&path(&["query", "cos"])), None);
    assert_eq!(BuiltinFunction::from_path(&[]), None);
}

#[test]
fn lowering_resolves_calls() {
    let builder = IrBuilder;
    let program = parse("temp.x = math.max(1, t.y) + 'a'; loop(2, { return [1, {k: math.pi()}]; }); for_each(t.i, t.l, x ? break)");
    let ir = builder.lower_program(&program).expect("lowered");
    assert_eq!(ir.statements.len(), 3);
    match &ir.statements[0] {
        IrStatement::Assign { target, value: IrExpr::Binary { op: BinaryOp::Add, left, right } } => {
            assert_eq!(target, &path(&["temp", "x"]));
            match &**left {
                IrExpr::Call { function: FunctionRef::Builtin(BuiltinFunction::MathMax), args } => {
                    assert!(matches!(&args[0], IrExpr::Constant(text) if text == "1"));
                    assert!(matches!(&args[1], IrExpr::Path(parts) if parts == &path(&["t", "y"])));
                    assert_eq!(args.len(), 2);
                }
                other => panic!("{:?}", other),
            }
            assert!(matches!(&**right, IrExpr::String(text) if text == "a"));
        }
        other => panic!("{:?}", other),
    }
    match &ir.statements[1] {
        IrStatement::Loop { count: IrExpr::Constant(count), body } => {
            assert_eq!(count, "2");
            match &**body {
                IrStatement::Block(list) => match &list[0] {
                    IrStatement::Return(Some(IrExpr::Array(items))) => match &items[1] {
                        IrExpr::Struct(fields) => {
                            assert_eq!(fields[0].name, "k");
                            assert!(matches!(
                                &fields[0].value,
                                IrExpr::Call { function: FunctionRef::Builtin(BuiltinFunction::MathPi), args } if args.is_empty()
                            ));
                        }
                        other => panic!("{:?}", other),
                    },
                    other => panic!("{:?}", other),
                },
                other => panic!("{:?}", other),
            }
        }
        other => panic!("{:?}", other),
    }
    assert!(matches!(&ir.statements[2], IrStatement::ForEach { variable, body, .. }
        if variable == &path(&["t", "i"]) && matches!(&**body, IrStatement::Expr(IrExpr::Conditional { else_branch: None, .. }))));
}

#[test]
fn lowering_errors() {
    let builder = IrBuilder;
    let lower = |source: &str| builder.lower_program(&parse(source));
    match lower("return Math.Sqrt(4);") {
        Err(LowerError::UnknownFunction { name }) => assert_eq!(name, "Math.Sqrt"),
        other => panic!("{:?}", other),
    }
    match lower("temp.f(1)") {
        Err(LowerError::UnknownFunction { name }) => assert_eq!(name, "temp.f"),
        other => panic!("{:?}", other),
    }
    match lower("math.cos(1, 2)") {
        Err(LowerError::InvalidArgumentCount { name, expected, actual }) => {
            assert_eq!((name.as_str(), expected, actual), ("builtin_math_cos", 1, 2))
        }
        other => panic!("{:?}", other),
    }
    match lower("math.lerp()") {
        Err(LowerError::InvalidArgumentCount { name, expected, actual }) => {
            assert_eq!((name.as_str(), expected, actual), ("builtin_math_lerp", 3, 0))
        }
        other => panic!("{:?}", other),
    }
    match lower("(1 + 2)(3)") {
        Err(LowerError::UnsupportedCallTarget { description }) => assert!(description.contains("Binary")),
        other => panic!("{:?}", other),
    }
    match lower("math.cos(nope(1), 2, 3)") {
        Err(LowerError::UnknownFunction { name }) => assert_eq!(name, "nope"),
        other => panic!("{:?}", other),
    }
    match lower("t.x = 1; { loop(math.abs(), 1) } nope()") {
        Err(LowerError::InvalidArgumentCount { name, .. }) => assert_eq!(name, "builtin_math_abs"),
        other => panic!("{:?}", other),
    }
    assert!(builder.validate_call(&FunctionRef::Builtin(BuiltinFunction::MathPow), 2).is_ok());
    assert!(builder.validate_call(&FunctionRef::Builtin(BuiltinFunction::MathPow), 3).is_err());
    let call = Expr::Call { target: Box::new(Expr::Number("1".to_string())), args: vec![] };
    assert!(matches!(builder.lower(&call), Err(LowerError::UnsupportedCallTarget { .. })));
    let literal = Expr::Struct(vec![
        ExprField { name: "a".to_string(), value: Expr::Number("1".to_string()) },
        ExprField { name: "a".to_string(), value: Expr::Path(path(&["b"])) },
    ]);
    match builder.lower(&literal) {
        Ok(IrExpr::Struct(fields)) => assert_eq!(fields.len(), 2),
        other => panic!("{:?}", other),
    }
    let program = Program { statements: vec![Statement::Return(None)] };
    assert!(matches!(builder.lower_program(&program).unwrap().statements[0], IrStatement::Return(None)));
}
