use molang::ast::{BinaryOp, ControlFlowExpr, Expr, ExprField, Program, Statement, UnaryOp};
use molang::lexer::{lex, Span, Token, TokenKind};
use molang::parser::{ParseError, Parser};
use molang::{parse_source, MolangError};

fn parse(input: &str) -> Result<Program, ParseError> {
    let tokens = lex(input).expect("tokens");
    Parser::new(&tokens).parse_program()
}

fn expression(input: &str) -> Result<Expr, ParseError> {
    let tokens = lex(input).expect("tokens");
    Parser::new(&tokens).parse_expression()
}

fn num(text: &str) -> Expr {
    Expr::Number(text.to_string())
}

fn path(parts: &[&str]) -> Expr {
    Expr::Path(parts.iter().map(|p| p.to_string()).collect())
}

fn binary(op: BinaryOp, left: Expr, right: Expr) -> Expr {
    Expr::Binary { op, left: Box::new(left), right: Box::new(right) }
}

#[test]
fn precedence_and_grouping() {
    assert_eq!(
        expression("1 + 2 * 3 - 4").unwrap(),
        binary(
            BinaryOp::Sub,
            binary(BinaryOp::Add, num("1"), binary(BinaryOp::Mul, num("2"), num("3"))),
            num("4")
        )
    );
    assert_eq!(
        expression("a || b && c == d < e").unwrap(),
        binary(
            BinaryOp::Or,
            path(&["a"]),
            binary(
                BinaryOp::And,
                path(&["b"]),
                binary(BinaryOp::Equal, path(&["c"]), binary(BinaryOp::Less, path(&["d"]), path(&["e"])))
            )
        )
    );
    assert_eq!(
        expression("0 ?? 3 + 2").unwrap(),
        binary(BinaryOp::NullCoalesce, num("0"), binary(BinaryOp::Add, num("3"), num("2")))
    );
    assert_eq!(
        expression("a ? b : c ? d : e").unwrap(),
        Expr::Conditional {
            condition: Box::new(path(&["a"])),
            then_branch: Box::new(path(&["b"])),
            else_branch: Some(Box::new(Expr::Conditional {
                condition: Box::new(path(&["c"])),
                then_branch: Box::new(path(&["d"])),
                else_branch: Some(Box::new(path(&["e"]))),
            })),
        }
    );
    assert_eq!(
        expression("-!+x / (1 - 2)").unwrap(),
        binary(
            BinaryOp::Div,
            Expr::Unary {
                op: UnaryOp::Minus,
                expr: Box::new(Expr::Unary {
                    op: UnaryOp::Not,
                    expr: Box::new(Expr::Unary { op: UnaryOp::Plus, expr: Box::new(path(&["x"])) })
                })
            },
            binary(BinaryOp::Sub, num("1"), num("2"))
        )
    );
    assert_eq!(
        expression("a >= b != c <= d > e").unwrap(),
        binary(
            BinaryOp::NotEqual,
            binary(BinaryOp::GreaterEqual, path(&["a"]), path(&["b"])),
            binary(
                BinaryOp::Greater,
                binary(BinaryOp::LessEqual, path(&["c"]), path(&["d"])),
                path(&["e"])
            )
        )
    );
}

#[test]
fn calls_members_indexes_and_literals() {
    assert_eq!(
        expression("math.max(1, t.x)[2].y").unwrap_err().to_owned_message(),
        "path"
    );
    assert_eq!(
        expression("math.max(1, t.x)[2]").unwrap(),
        Expr::Index {
            target: Box::new(Expr::Call {
                target: Box::new(path(&["math", "max"])),
                args: vec![num("1"), path(&["t", "x"])],
            }),
            index: Box::new(num("2")),
        }
    );
    assert_eq!(expression("f()").unwrap(), Expr::Call { target: Box::new(path(&["f"])), args: vec![] });
    assert_eq!(expression("[]").unwrap(), Expr::Array(vec![]));
    assert_eq!(
        expression("[1, 'two', [3]]").unwrap(),
        Expr::Array(vec![num("1"), Expr::String("two".to_string()), Expr::Array(vec![num("3")])])
    );
    assert_eq!(expression("({})").unwrap(), Expr::Struct(vec![]));
    assert_eq!(
        expression("({ x: 1, 'y z': { w: 2 } })").unwrap(),
        Expr::Struct(vec![
            ExprField { name: "x".to_string(), value: num("1") },
            ExprField {
                name: "y z".to_string(),
                value: Expr::Struct(vec![ExprField { name: "w".to_string(), value: num("2") }])
            },
        ])
    );
    assert_eq!(expression("Break").unwrap(), Expr::Flow(ControlFlowExpr::Break));
    assert_eq!(expression("CONTINUE").unwrap(), Expr::Flow(ControlFlowExpr::Continue));
}

trait Message {
    fn to_owned_message(&self) -> String;
}

impl Message for ParseError {
    fn to_owned_message(&self) -> String {
        match self {
            ParseError::UnexpectedToken { expected, .. } => expected.to_string(),
            ParseError::DuplicateStructField { name } => format!("duplicate {}", name),
            ParseError::InvalidAssignmentTarget { .. } => "target".to_string(),
        }
    }
}

#[test]
fn statements() {
    let program = parse("temp.x = 1;; { return; } loop(3, t.y = 2) for_each(t.i, t.list, { break; continue }) RETURN 4")
        .unwrap();
    assert_eq!(
        program.statements,
        vec![
            Statement::Assignment { target: vec!["temp".to_string(), "x".to_string()], value: num("1") },
            Statement::Block(vec![Statement::Return(None)]),
            Statement::Loop {
                count: num("3"),
                body: Box::new(Statement::Assignment {
                    target: vec!["t".to_string(), "y".to_string()],
                    value: num("2")
                })
            },
            Statement::ForEach {
                variable: vec!["t".to_string(), "i".to_string()],
                collection: path(&["t", "list"]),
                body: Box::new(Statement::Block(vec![
                    Statement::Expr(Expr::Flow(ControlFlowExpr::Break)),
                    Statement::Expr(Expr::Flow(ControlFlowExpr::Continue)),
                ]))
            },
            Statement::Return(Some(num("4"))),
        ]
    );
    assert_eq!(parse("").unwrap().statements, vec![]);
    assert_eq!(parse("{ return }").unwrap().statements, vec![Statement::Block(vec![Statement::Return(None)])]);
    assert_eq!(parse("1 2").unwrap().statements, vec![Statement::Expr(num("1")), Statement::Expr(num("2"))]);
}

#[test]
fn parse_errors() {
    let cases = [
        ("1 +", "expression"),
        ("(1", "')' after expression"),
        ("[1, 2", "']' to close array"),
        ("[1,]", "expression"),
        ("f(1", "')' to close call"),
        ("a[1", "']' after index expression"),
        ("a.", "identifier"),
        ("f().x", "path"),
        ("x = { a 1 }", "':' after struct field"),
        ("x = { 1: 2 }", "struct field name"),
        ("x = { a: 1", "'}' to close struct literal"),
        ("{ x = 1;", "'}' to close block"),
        ("loop 3", "'(' after loop keyword"),
        ("loop(3 {})", "',' after loop count"),
        ("loop(3, {}", "')' to close loop"),
        ("for_each t.i", "'(' after for_each"),
        ("for_each(1, t.l, {})", "identifier"),
        ("for_each(t.i t.l, {})", "',' after for_each variable"),
        ("for_each(t.i, t.l {})", "',' after for_each collection"),
        ("for_each(t.i, t.l, {}", "')' to close for_each"),
        ("x = { a: 1, a: 2 }", "duplicate a"),
        ("1 = 2", "target"),
        ("f(x) = 2", "target"),
        (")", "expression"),
    ];
    for (source, message) in cases {
        match parse(source) {
            Err(error) => assert_eq!(error.to_owned_message(), message, "{}", source),
            Ok(program) => panic!("{} parsed as {:?}", source, program),
        }
    }
    match parse("x = (1 +") {
        Err(ParseError::UnexpectedToken { expected, found, span }) => {
            assert_eq!(expected, "expression");
            assert_eq!(found, Token { kind: TokenKind::EOF, span: Span { start: 8, end: 8 } });
            assert_eq!(span, Span { start: 8, end: 8 });
        }
        other => panic!("{:?}", other),
    }
    match parse("12 = x + yz") {
        Err(ParseError::InvalidAssignmentTarget { span }) => assert_eq!(span, Span { start: 9, end: 10 }),
        other => panic!("{:?}", other),
    }
    match parse("f().x") {
        Err(ParseError::UnexpectedToken { found, span, .. }) => {
            assert_eq!(found.kind, TokenKind::Dot);
            assert_eq!(span, Span { start: 4, end: 4 });
        }
        other => panic!("{:?}", other),
    }
    match expression("1 2") {
        Err(ParseError::UnexpectedToken { expected, found, .. }) => {
            assert_eq!(expected, "end of input");
            assert_eq!(found.kind, TokenKind::Number("2".to_string()));
        }
        other => panic!("{:?}", other),
    }
}

#[test]
fn tokens_without_an_end_are_read_to_their_last() {
    let tokens = vec![
        Token { kind: TokenKind::Number("1".to_string()), span: Span { start: 0, end: 0 } },
        Token { kind: TokenKind::Plus, span: Span { start: 1, end: 1 } },
        Token { kind: TokenKind::Number("2".to_string()), span: Span { start: 2, end: 2 } },
    ];
    assert_eq!(Parser::new(&tokens).parse_expression().unwrap(), binary(BinaryOp::Add, num("1"), num("2")));
    assert_eq!(Parser::new(&tokens).parse_program().unwrap().statements.len(), 1);
    assert_eq!(Parser::new(&[]).parse_program().unwrap().statements, vec![]);
    assert!(Parser::new(&tokens[..2]).parse_expression().is_err());
}

#[test]
fn pure_expressions_are_recognised() {
    let pure = ["1 + math.cos(37)", "a.b ? -c : !d", "t.x ?? 3", "f(1, g(2))"];
    for source in pure {
        let program = parse(source).unwrap();
        assert!(program.as_jit_expression().is_some(), "{}", source);
    }
    let other = ["return 1", "1; 2", "t.x = 1", "'s'", "[1]", "a[0]", "f([1])", "break", "1 + (2 ? break : 3)", "", "{ 1 }"];
    for source in other {
        let program = parse(source).unwrap();
        assert!(program.as_jit_expression().is_none(), "{}", source);
    }
    assert!(expression("f(1, break)").unwrap().contains_flow());
    assert!(!expression("f(1, [break])").unwrap().contains_flow());
    assert!(!expression("f(1, [2])").unwrap().is_jit_compatible());
    assert!(matches!(parse_source("1 & 2"), Err(MolangError::Lex(_))));
    assert!(matches!(parse_source("1 +"), Err(MolangError::Parse(_))));
    assert_eq!(parse_source("1 + 2").unwrap().statements.len(), 1);
}
