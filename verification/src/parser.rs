//! The recursive-descent parser: tokens to syntax tree.
//!
//! Precedence, lowest first: `??`, `? :`, `||`, `&&`, `== !=`,
//! `< <= > >=`, `+ -`, `* /`, unary `+ - !`, then call, member and index.
use crate::ast::{
    exprs_view, fields_view, lemma_exprs_view, lemma_fields_view, lemma_statements_view, statements_view, BinaryOp, ControlFlowExpr, Expr, ExprField,
    ExprModel, Program, Statement, StatementModel, UnaryOp,
};
use crate::lexer::{token_models, KindModel, Span, Token, TokenKind, TokenModel};
use crate::text::{lower_seq, lower_text, same_text, texts};
use vstd::prelude::*;

verus! {

/// Why parsing fails.
pub enum ParseFailure {
    UnexpectedToken { expected: Seq<char>, found: TokenModel, span: Span },
    DuplicateStructField { name: Seq<char> },
    InvalidAssignmentTarget { span: Span },
    /// A step that takes no token. No input gives it: it closes the
    /// definitions below, which go on only behind a token that was taken.
    Stuck,
}

#[derive(Debug)]
pub enum ParseError {
    /// The token `found`, at `span`, is not what `expected` describes.
    UnexpectedToken { expected: &'static str, found: Token, span: Span },
    /// A struct literal names a field twice.
    DuplicateStructField { name: String },
    /// The left side of `=` is no path; `span` is the last token of the
    /// right side.
    InvalidAssignmentTarget { span: Span },
}

impl View for ParseError {
    type V = ParseFailure;

    open spec fn view(&self) -> ParseFailure {
        match self {
            ParseError::UnexpectedToken { expected, found, span } => ParseFailure::UnexpectedToken {
                expected: expected@,
                found: found@,
                span: *span,
            },
            ParseError::DuplicateStructField { name } => ParseFailure::DuplicateStructField { name: name@ },
            ParseError::InvalidAssignmentTarget { span } => ParseFailure::InvalidAssignmentTarget { span: *span },
        }
    }
}

/// A parsed value and the position behind it, or a failure.
pub type Parsed<T> = Result<(T, int), ParseFailure>;

/// The token that stands for the end: behind the last token, and where the
/// list has none.
pub open spec fn end_token() -> TokenModel {
    TokenModel { kind: KindModel::Sign(TokenKind::EOF), span: Span { start: 0, end: 0 } }
}

/// The token at a position; past the last token, the end.
pub open spec fn token_at(ts: Seq<TokenModel>, pos: int) -> TokenModel {
    if 0 <= pos < ts.len() {
        ts[pos]
    } else {
        end_token()
    }
}

pub open spec fn is_sign(ts: Seq<TokenModel>, pos: int, sign: TokenKind) -> bool {
    token_at(ts, pos).kind == KindModel::Sign(sign)
}

pub open spec fn at_end(ts: Seq<TokenModel>, pos: int) -> bool {
    is_sign(ts, pos, TokenKind::EOF)
}

/// Whether the token is the identifier `word`, in any letter case.
pub open spec fn is_word(ts: Seq<TokenModel>, pos: int, word: Seq<char>) -> bool {
    token_at(ts, pos).kind matches KindModel::Identifier(name) && lower_seq(name) == lower_seq(word)
}

pub open spec fn unexpected(ts: Seq<TokenModel>, pos: int, expected: Seq<char>) -> ParseFailure {
    ParseFailure::UnexpectedToken { expected, found: token_at(ts, pos), span: token_at(ts, pos).span }
}

/// The position behind a sign that has to stand at `pos`.
pub open spec fn expect(ts: Seq<TokenModel>, pos: int, sign: TokenKind, message: Seq<char>) -> Result<
    int,
    ParseFailure,
> {
    if is_sign(ts, pos, sign) {
        Ok(pos + 1)
    } else {
        Err(unexpected(ts, pos, message))
    }
}

/// The position behind the semicolons that stand at `pos`.
pub open spec fn skip_semicolons(ts: Seq<TokenModel>, pos: int) -> int
    decreases ts.len() - pos,
{
    if is_sign(ts, pos, TokenKind::Semicolon) {
        skip_semicolons(ts, pos + 1)
    } else {
        pos
    }
}

/// A result that took at least one token, else `Stuck`.
pub open spec fn moved<T>(r: Parsed<T>, pos: int, ts: Seq<TokenModel>) -> Parsed<T> {
    match r {
        Ok((_, next)) => if pos < next <= ts.len() {
            r
        } else {
            Err(ParseFailure::Stuck)
        },
        Err(_) => r,
    }
}

/// The binary operator that a token is on a precedence level.
pub open spec fn level_op(level: nat, kind: KindModel) -> Option<BinaryOp> {
    match kind {
        KindModel::Sign(sign) => if level == 0 {
            if sign is QuestionQuestion {
                Some(BinaryOp::NullCoalesce)
            } else {
                None
            }
        } else if level == 1 {
            if sign is OrOr {
                Some(BinaryOp::Or)
            } else {
                None
            }
        } else if level == 2 {
            if sign is AndAnd {
                Some(BinaryOp::And)
            } else {
                None
            }
        } else if level == 3 {
            if sign is EqualEqual {
                Some(BinaryOp::Equal)
            } else if sign is BangEqual {
                Some(BinaryOp::NotEqual)
            } else {
                None
            }
        } else if level == 4 {
            if sign is Less {
                Some(BinaryOp::Less)
            } else if sign is LessEqual {
                Some(BinaryOp::LessEqual)
            } else if sign is Greater {
                Some(BinaryOp::Greater)
            } else if sign is GreaterEqual {
                Some(BinaryOp::GreaterEqual)
            } else {
                None
            }
        } else if level == 5 {
            if sign is Plus {
                Some(BinaryOp::Add)
            } else if sign is Minus {
                Some(BinaryOp::Sub)
            } else {
                None
            }
        } else if level == 6 {
            if sign is Star {
                Some(BinaryOp::Mul)
            } else if sign is Slash {
                Some(BinaryOp::Div)
            } else {
                None
            }
        } else {
            None
        },
        _ => None,
    }
}

/// A path: identifiers with dots between them.
pub open spec fn path_from(ts: Seq<TokenModel>, pos: int, done: Seq<Seq<char>>) -> Parsed<Seq<Seq<char>>>
    decreases ts.len() - pos,
{
    match token_at(ts, pos).kind {
        KindModel::Identifier(name) => if is_sign(ts, pos + 1, TokenKind::Dot) {
            path_from(ts, pos + 2, done.push(name))
        } else {
            Ok((done.push(name), pos + 1))
        },
        _ => Err(unexpected(ts, pos, "identifier"@)),
    }
}

/// An expression on a precedence level: operands of the next level with
/// the operators of this level between them, grouped from the left.
pub open spec fn binary(ts: Seq<TokenModel>, pos: int, level: nat) -> Parsed<ExprModel>
    decreases ts.len() - pos, 30 - 3 * level,
{
    if level > 6 {
        Err(ParseFailure::Stuck)
    } else {
        match moved(operand(ts, pos, level), pos, ts) {
            Ok((left, next)) => binary_rest(ts, next, level, left),
            Err(e) => Err(e),
        }
    }
}

/// The operand of a level: a conditional below `??`, a unary expression
/// below `* /`, else an expression of the next level.
pub open spec fn operand(ts: Seq<TokenModel>, pos: int, level: nat) -> Parsed<ExprModel>
    decreases ts.len() - pos, 29 - 3 * level,
{
    if level == 0 {
        conditional(ts, pos)
    } else if level == 6 {
        unary(ts, pos)
    } else if level < 6 {
        binary(ts, pos, level + 1)
    } else {
        Err(ParseFailure::Stuck)
    }
}

/// The operators and operands that follow a left operand on a level.
pub open spec fn binary_rest(ts: Seq<TokenModel>, pos: int, level: nat, left: ExprModel) -> Parsed<ExprModel>
    decreases ts.len() - pos, 0nat,
{
    match level_op(level, token_at(ts, pos).kind) {
        Some(op) => match moved(operand(ts, pos + 1, level), pos + 1, ts) {
            Ok((right, next)) => binary_rest(
                ts,
                next,
                level,
                ExprModel::Binary { op, left: Box::new(left), right: Box::new(right) },
            ),
            Err(e) => Err(e),
        },
        None => Ok((left, pos)),
    }
}

/// `condition ? then : else`, the `else` arm optional; both arms reach
/// down to `??`.
pub open spec fn conditional(ts: Seq<TokenModel>, pos: int) -> Parsed<ExprModel>
    decreases ts.len() - pos, 28nat,
{
    match moved(binary(ts, pos, 1), pos, ts) {
        Ok((condition, next)) => if is_sign(ts, next, TokenKind::Question) {
            match moved(binary(ts, next + 1, 0), next + 1, ts) {
                Ok((then_branch, after)) => if is_sign(ts, after, TokenKind::Colon) {
                    match binary(ts, after + 1, 0) {
                        Ok((else_branch, end)) => Ok(
                            (
                                ExprModel::Conditional {
                                    condition: Box::new(condition),
                                    then_branch: Box::new(then_branch),
                                    else_branch: Some(Box::new(else_branch)),
                                },
                                end,
                            ),
                        ),
                        Err(e) => Err(e),
                    }
                } else {
                    Ok(
                        (
                            ExprModel::Conditional {
                                condition: Box::new(condition),
                                then_branch: Box::new(then_branch),
                                else_branch: None,
                            },
                            after,
                        ),
                    )
                },
                Err(e) => Err(e),
            }
        } else {
            Ok((condition, next))
        },
        Err(e) => Err(e),
    }
}

/// A unary operator before a unary expression, or a call expression.
pub open spec fn unary(ts: Seq<TokenModel>, pos: int) -> Parsed<ExprModel>
    decreases ts.len() - pos, 5nat,
{
    let op = if is_sign(ts, pos, TokenKind::Plus) {
        Some(UnaryOp::Plus)
    } else if is_sign(ts, pos, TokenKind::Minus) {
        Some(UnaryOp::Minus)
    } else if is_sign(ts, pos, TokenKind::Bang) {
        Some(UnaryOp::Not)
    } else {
        None
    };
    match op {
        Some(op) => match unary(ts, pos + 1) {
            Ok((expr, next)) => Ok((ExprModel::Unary { op, expr: Box::new(expr) }, next)),
            Err(e) => Err(e),
        },
        None => match moved(primary(ts, pos), pos, ts) {
            Ok((expr, next)) => postfix(ts, next, expr),
            Err(e) => Err(e),
        },
    }
}

/// What follows a primary expression: calls, members and indexes, in any
/// number.
pub open spec fn postfix(ts: Seq<TokenModel>, pos: int, expr: ExprModel) -> Parsed<ExprModel>
    decreases ts.len() - pos, 0nat,
{
    if is_sign(ts, pos, TokenKind::LParen) {
        match moved(arguments(ts, pos + 1, TokenKind::RParen, "')' to close call"@), pos, ts) {
            Ok((args, next)) => postfix(ts, next, ExprModel::Call { target: Box::new(expr), args }),
            Err(e) => Err(e),
        }
    } else if is_sign(ts, pos, TokenKind::Dot) {
        match expr {
            ExprModel::Path(segments) => match token_at(ts, pos + 1).kind {
                KindModel::Identifier(name) => postfix(ts, pos + 2, ExprModel::Path(segments.push(name))),
                _ => Err(unexpected(ts, pos + 1, "identifier"@)),
            },
            _ => Err(
                ParseFailure::UnexpectedToken {
                    expected: "path"@,
                    found: token_at(ts, pos),
                    span: token_at(ts, pos + 1).span,
                },
            ),
        }
    } else if is_sign(ts, pos, TokenKind::LBracket) {
        match moved(binary(ts, pos + 1, 0), pos + 1, ts) {
            Ok((index, next)) => match expect(ts, next, TokenKind::RBracket, "']' after index expression"@) {
                Ok(after) => postfix(
                    ts,
                    after,
                    ExprModel::Index { target: Box::new(expr), index: Box::new(index) },
                ),
                Err(e) => Err(e),
            },
            Err(e) => Err(e),
        }
    } else {
        Ok((expr, pos))
    }
}

/// Expressions with commas between them, up to the sign that closes the
/// list; the position is behind the closing sign.
pub open spec fn arguments(ts: Seq<TokenModel>, pos: int, close: TokenKind, message: Seq<char>) -> Parsed<
    Seq<ExprModel>,
>
    decreases ts.len() - pos, 40nat,
{
    if is_sign(ts, pos, close) {
        Ok((Seq::empty(), pos + 1))
    } else {
        arguments_from(ts, pos, close, message, Seq::empty())
    }
}

pub open spec fn arguments_from(
    ts: Seq<TokenModel>,
    pos: int,
    close: TokenKind,
    message: Seq<char>,
    done: Seq<ExprModel>,
) -> Parsed<Seq<ExprModel>>
    decreases ts.len() - pos, 39nat,
{
    match moved(binary(ts, pos, 0), pos, ts) {
        Ok((value, next)) => if is_sign(ts, next, TokenKind::Comma) {
            arguments_from(ts, next + 1, close, message, done.push(value))
        } else {
            match expect(ts, next, close, message) {
                Ok(after) => Ok((done.push(value), after)),
                Err(e) => Err(e),
            }
        },
        Err(e) => Err(e),
    }
}

/// Whether a field name occurs among the fields.
pub open spec fn has_field(fields: Seq<(Seq<char>, ExprModel)>, name: Seq<char>) -> bool {
    exists|i: int| 0 <= i < fields.len() && (#[trigger] fields[i]).0 == name
}

/// The fields of a struct literal behind its `{`: names, each an
/// identifier or a string, with a colon and a value, commas between them.
pub open spec fn fields_from(ts: Seq<TokenModel>, pos: int, done: Seq<(Seq<char>, ExprModel)>) -> Parsed<
    Seq<(Seq<char>, ExprModel)>,
>
    decreases ts.len() - pos, 39nat,
{
    let name = match token_at(ts, pos).kind {
        KindModel::Identifier(name) => Some(name),
        KindModel::Text(name) => Some(name),
        _ => None,
    };
    match name {
        Some(name) => match expect(ts, pos + 1, TokenKind::Colon, "':' after struct field"@) {
            Ok(at) => match moved(binary(ts, at, 0), at, ts) {
                Ok((value, next)) => if has_field(done, name) {
                    Err(ParseFailure::DuplicateStructField { name })
                } else if is_sign(ts, next, TokenKind::Comma) {
                    fields_from(ts, next + 1, done.push((name, value)))
                } else {
                    match expect(ts, next, TokenKind::RBrace, "'}' to close struct literal"@) {
                        Ok(after) => Ok((done.push((name, value)), after)),
                        Err(e) => Err(e),
                    }
                },
                Err(e) => Err(e),
            },
            Err(e) => Err(e),
        },
        None => Err(unexpected(ts, pos, "struct field name"@)),
    }
}

/// A number, a string, a struct or array literal, `break`, `continue`, a
/// path, or an expression in parentheses.
pub open spec fn primary(ts: Seq<TokenModel>, pos: int) -> Parsed<ExprModel>
    decreases ts.len() - pos, 3nat,
{
    match token_at(ts, pos).kind {
        KindModel::Number(text) => Ok((ExprModel::Number(text), pos + 1)),
        KindModel::Text(text) => Ok((ExprModel::Text(text), pos + 1)),
        KindModel::Identifier(name) => if lower_seq(name) == lower_seq("break"@) {
            Ok((ExprModel::Flow(ControlFlowExpr::Break), pos + 1))
        } else if lower_seq(name) == lower_seq("continue"@) {
            Ok((ExprModel::Flow(ControlFlowExpr::Continue), pos + 1))
        } else {
            match path_from(ts, pos, Seq::empty()) {
                Ok((segments, next)) => Ok((ExprModel::Path(segments), next)),
                Err(e) => Err(e),
            }
        },
        KindModel::Sign(sign) => if sign is LBrace {
            if is_sign(ts, pos + 1, TokenKind::RBrace) {
                Ok((ExprModel::Struct(Seq::empty()), pos + 2))
            } else {
                match fields_from(ts, pos + 1, Seq::empty()) {
                    Ok((fields, next)) => Ok((ExprModel::Struct(fields), next)),
                    Err(e) => Err(e),
                }
            }
        } else if sign is LParen {
            match moved(binary(ts, pos + 1, 0), pos + 1, ts) {
                Ok((inner, next)) => match expect(ts, next, TokenKind::RParen, "')' after expression"@) {
                    Ok(after) => Ok((inner, after)),
                    Err(e) => Err(e),
                },
                Err(e) => Err(e),
            }
        } else if sign is LBracket {
            match arguments(ts, pos + 1, TokenKind::RBracket, "']' to close array"@) {
                Ok((elements, next)) => Ok((ExprModel::Array(elements), next)),
                Err(e) => Err(e),
            }
        } else {
            Err(unexpected(ts, pos, "expression"@))
        },
    }
}

/// The span of the token before a position.
pub open spec fn previous_span(ts: Seq<TokenModel>, pos: int) -> Span {
    if 0 < pos <= ts.len() {
        ts[pos - 1].span
    } else {
        Span { start: 0, end: 0 }
    }
}

/// An expression, or an assignment of an expression to a path.
pub open spec fn assignment_or_expr(ts: Seq<TokenModel>, pos: int) -> Parsed<StatementModel> {
    match moved(binary(ts, pos, 0), pos, ts) {
        Ok((expr, next)) => if is_sign(ts, next, TokenKind::Equal) {
            match binary(ts, next + 1, 0) {
                Ok((value, after)) => match expr {
                    ExprModel::Path(target) => Ok((StatementModel::Assignment { target, value }, after)),
                    _ => Err(ParseFailure::InvalidAssignmentTarget { span: previous_span(ts, after) }),
                },
                Err(e) => Err(e),
            }
        } else {
            Ok((StatementModel::Expr(expr), next))
        },
        Err(e) => Err(e),
    }
}

/// A statement.
pub open spec fn statement(ts: Seq<TokenModel>, pos: int) -> Parsed<StatementModel>
    decreases ts.len() - pos, 2nat,
{
    if is_sign(ts, pos, TokenKind::LBrace) {
        block_from(ts, pos + 1, Seq::empty())
    } else if is_word(ts, pos, "loop"@) {
        loop_statement(ts, pos + 1)
    } else if is_word(ts, pos, "for_each"@) {
        for_each_statement(ts, pos + 1)
    } else if is_word(ts, pos, "return"@) {
        if is_sign(ts, pos + 1, TokenKind::Semicolon) {
            Ok((StatementModel::Return(None), pos + 2))
        } else if is_sign(ts, pos + 1, TokenKind::RBrace) {
            Ok((StatementModel::Return(None), pos + 1))
        } else {
            match binary(ts, pos + 1, 0) {
                Ok((value, next)) => Ok((StatementModel::Return(Some(value)), next)),
                Err(e) => Err(e),
            }
        }
    } else if is_word(ts, pos, "break"@) {
        Ok((StatementModel::Expr(ExprModel::Flow(ControlFlowExpr::Break)), pos + 1))
    } else if is_word(ts, pos, "continue"@) {
        Ok((StatementModel::Expr(ExprModel::Flow(ControlFlowExpr::Continue)), pos + 1))
    } else {
        assignment_or_expr(ts, pos)
    }
}

/// `loop(count, body)`, behind the word `loop`.
pub open spec fn loop_statement(ts: Seq<TokenModel>, pos: int) -> Parsed<StatementModel>
    decreases ts.len() - pos, 2nat,
{
    match expect(ts, pos, TokenKind::LParen, "'(' after loop keyword"@) {
        Ok(at) => match moved(binary(ts, at, 0), at, ts) {
            Ok((count, next)) => match expect(ts, next, TokenKind::Comma, "',' after loop count"@) {
                Ok(body_at) => match moved(embedded_body(ts, body_at), body_at, ts) {
                    Ok((body, after)) => match expect(ts, after, TokenKind::RParen, "')' to close loop"@) {
                        Ok(end) => Ok((StatementModel::Loop { count, body: Box::new(body) }, end)),
                        Err(e) => Err(e),
                    },
                    Err(e) => Err(e),
                },
                Err(e) => Err(e),
            },
            Err(e) => Err(e),
        },
        Err(e) => Err(e),
    }
}

/// `for_each(variable, collection, body)`, behind the word `for_each`.
pub open spec fn for_each_statement(ts: Seq<TokenModel>, pos: int) -> Parsed<StatementModel>
    decreases ts.len() - pos, 2nat,
{
    match expect(ts, pos, TokenKind::LParen, "'(' after for_each"@) {
        Ok(at) => match moved(path_from(ts, at, Seq::empty()), at, ts) {
            Ok((variable, next)) => match expect(
                ts,
                next,
                TokenKind::Comma,
                "',' after for_each variable"@,
            ) {
                Ok(collection_at) => match moved(binary(ts, collection_at, 0), collection_at, ts) {
                    Ok((collection, then)) => match expect(
                        ts,
                        then,
                        TokenKind::Comma,
                        "',' after for_each collection"@,
                    ) {
                        Ok(body_at) => match moved(embedded_body(ts, body_at), body_at, ts) {
                            Ok((body, after)) => match expect(
                                ts,
                                after,
                                TokenKind::RParen,
                                "')' to close for_each"@,
                            ) {
                                Ok(end) => Ok(
                                    (
                                        StatementModel::ForEach {
                                            variable,
                                            collection,
                                            body: Box::new(body),
                                        },
                                        end,
                                    ),
                                ),
                                Err(e) => Err(e),
                            },
                            Err(e) => Err(e),
                        },
                        Err(e) => Err(e),
                    },
                    Err(e) => Err(e),
                },
                Err(e) => Err(e),
            },
            Err(e) => Err(e),
        },
        Err(e) => Err(e),
    }
}

/// The body of a loop: a block, or one assignment or expression.
pub open spec fn embedded_body(ts: Seq<TokenModel>, pos: int) -> Parsed<StatementModel>
    decreases ts.len() - pos, 1nat,
{
    if is_sign(ts, pos, TokenKind::LBrace) {
        block_from(ts, pos + 1, Seq::empty())
    } else {
        assignment_or_expr(ts, pos)
    }
}

/// The statements of a block behind its `{`, up to its `}`; semicolons
/// behind a statement are passed over.
pub open spec fn block_from(ts: Seq<TokenModel>, pos: int, done: Seq<StatementModel>) -> Parsed<StatementModel>
    decreases ts.len() - pos, 3nat,
{
    if is_sign(ts, pos, TokenKind::RBrace) {
        Ok((StatementModel::Block(done), pos + 1))
    } else if at_end(ts, pos) {
        Err(unexpected(ts, pos, "'}' to close block"@))
    } else {
        match moved(statement(ts, pos), pos, ts) {
            Ok((s, next)) => {
                proof {
                    lemma_skip_semicolons(ts, next);
                }
                block_from(ts, skip_semicolons(ts, next), done.push(s))
            },
            Err(e) => Err(e),
        }
    }
}

/// The statements of a program, up to the end; semicolons behind a
/// statement are passed over.
pub open spec fn program_from(ts: Seq<TokenModel>, pos: int, done: Seq<StatementModel>) -> Result<
    Seq<StatementModel>,
    ParseFailure,
>
    decreases ts.len() - pos,
{
    if at_end(ts, pos) {
        Ok(done)
    } else {
        match moved(statement(ts, pos), pos, ts) {
            Ok((s, next)) => {
                proof {
                    lemma_skip_semicolons(ts, next);
                }
                program_from(ts, skip_semicolons(ts, next), done.push(s))
            },
            Err(e) => Err(e),
        }
    }
}

/// The program that a list of tokens stands for.
pub open spec fn parse_tokens(ts: Seq<TokenModel>) -> Result<Seq<StatementModel>, ParseFailure> {
    program_from(ts, 0, Seq::empty())
}

/// The expression that the tokens from `pos` on stand for, where they are
/// one expression up to the end.
pub open spec fn expression_at(ts: Seq<TokenModel>, pos: int) -> Result<ExprModel, ParseFailure> {
    match binary(ts, pos, 0) {
        Ok((expr, next)) => if at_end(ts, next) {
            Ok(expr)
        } else {
            Err(unexpected(ts, next, "end of input"@))
        },
        Err(e) => Err(e),
    }
}

pub proof fn lemma_skip_semicolons(ts: Seq<TokenModel>, pos: int)
    requires
        0 <= pos <= ts.len(),
    ensures
        pos <= skip_semicolons(ts, pos) <= ts.len(),
    decreases ts.len() - pos,
{
    if is_sign(ts, pos, TokenKind::Semicolon) {
        lemma_skip_semicolons(ts, pos + 1);
    }
}

/// Whether a step that gives an expression did what the grammar says.
pub open spec fn expr_result(result: Result<Expr, ParseError>, next: int, expected: Parsed<ExprModel>) -> bool {
    match expected {
        Ok((expr, position)) => result matches Ok(out) && out@ == expr && next == position,
        Err(failure) => result matches Err(error) && error@ == failure,
    }
}

/// The same for a step that gives a statement.
pub open spec fn statement_result(
    result: Result<Statement, ParseError>,
    next: int,
    expected: Parsed<StatementModel>,
) -> bool {
    match expected {
        Ok((statement, position)) => result matches Ok(out) && out@ == statement && next == position,
        Err(failure) => result matches Err(error) && error@ == failure,
    }
}

/// The same for a step that gives a list of expressions.
pub open spec fn list_result(result: Result<Vec<Expr>, ParseError>, next: int, expected: Parsed<Seq<ExprModel>>) -> bool {
    match expected {
        Ok((items, position)) => result matches Ok(out) && exprs_view(out@) == items && next == position,
        Err(failure) => result matches Err(error) && error@ == failure,
    }
}

/// The same for a step that gives the fields of a struct literal.
pub open spec fn fields_result(
    result: Result<Vec<ExprField>, ParseError>,
    next: int,
    expected: Parsed<Seq<(Seq<char>, ExprModel)>>,
) -> bool {
    match expected {
        Ok((fields, position)) => result matches Ok(out) && fields_view(out@) == fields && next == position,
        Err(failure) => result matches Err(error) && error@ == failure,
    }
}

/// The same for a step that gives a path.
pub open spec fn path_result(
    result: Result<Vec<String>, ParseError>,
    next: int,
    expected: Parsed<Seq<Seq<char>>>,
) -> bool {
    match expected {
        Ok((segments, position)) => result matches Ok(out) && texts(out@) == segments && next == position,
        Err(failure) => result matches Err(error) && error@ == failure,
    }
}

/// Whether a token kind is the given sign.
fn kind_is(kind: &TokenKind, sign: &TokenKind) -> (r: bool)
    ensures
        r == (kind@ == KindModel::Sign(*sign)),
{
    match (kind, sign) {
        (TokenKind::Plus, TokenKind::Plus)
        | (TokenKind::Minus, TokenKind::Minus)
        | (TokenKind::Star, TokenKind::Star)
        | (TokenKind::Slash, TokenKind::Slash)
        | (TokenKind::Dot, TokenKind::Dot)
        | (TokenKind::Comma, TokenKind::Comma)
        | (TokenKind::LParen, TokenKind::LParen)
        | (TokenKind::RParen, TokenKind::RParen)
        | (TokenKind::LBrace, TokenKind::LBrace)
        | (TokenKind::RBrace, TokenKind::RBrace)
        | (TokenKind::LBracket, TokenKind::LBracket)
        | (TokenKind::RBracket, TokenKind::RBracket)
        | (TokenKind::Semicolon, TokenKind::Semicolon)
        | (TokenKind::Question, TokenKind::Question)
        | (TokenKind::QuestionQuestion, TokenKind::QuestionQuestion)
        | (TokenKind::Colon, TokenKind::Colon)
        | (TokenKind::Equal, TokenKind::Equal)
        | (TokenKind::EqualEqual, TokenKind::EqualEqual)
        | (TokenKind::Bang, TokenKind::Bang)
        | (TokenKind::BangEqual, TokenKind::BangEqual)
        | (TokenKind::Less, TokenKind::Less)
        | (TokenKind::LessEqual, TokenKind::LessEqual)
        | (TokenKind::Greater, TokenKind::Greater)
        | (TokenKind::GreaterEqual, TokenKind::GreaterEqual)
        | (TokenKind::AndAnd, TokenKind::AndAnd)
        | (TokenKind::OrOr, TokenKind::OrOr)
        | (TokenKind::Arrow, TokenKind::Arrow)
        | (TokenKind::EOF, TokenKind::EOF) => true,
        _ => false,
    }
}

/// The binary operator that a token kind is on a level.
fn operator_on(level: u8, kind: &TokenKind) -> (r: Option<BinaryOp>)
    ensures
        r == level_op(level as nat, kind@),
{
    match kind {
        TokenKind::QuestionQuestion => if level == 0 {
            Some(BinaryOp::NullCoalesce)
        } else {
            None
        },
        TokenKind::OrOr => if level == 1 {
            Some(BinaryOp::Or)
        } else {
            None
        },
        TokenKind::AndAnd => if level == 2 {
            Some(BinaryOp::And)
        } else {
            None
        },
        TokenKind::EqualEqual => if level == 3 {
            Some(BinaryOp::Equal)
        } else {
            None
        },
        TokenKind::BangEqual => if level == 3 {
            Some(BinaryOp::NotEqual)
        } else {
            None
        },
        TokenKind::Less => if level == 4 {
            Some(BinaryOp::Less)
        } else {
            None
        },
        TokenKind::LessEqual => if level == 4 {
            Some(BinaryOp::LessEqual)
        } else {
            None
        },
        TokenKind::Greater => if level == 4 {
            Some(BinaryOp::Greater)
        } else {
            None
        },
        TokenKind::GreaterEqual => if level == 4 {
            Some(BinaryOp::GreaterEqual)
        } else {
            None
        },
        TokenKind::Plus => if level == 5 {
            Some(BinaryOp::Add)
        } else {
            None
        },
        TokenKind::Minus => if level == 5 {
            Some(BinaryOp::Sub)
        } else {
            None
        },
        TokenKind::Star => if level == 6 {
            Some(BinaryOp::Mul)
        } else {
            None
        },
        TokenKind::Slash => if level == 6 {
            Some(BinaryOp::Div)
        } else {
            None
        },
        _ => None,
    }
}

/// Recursive-descent parser over a list of tokens.
pub struct Parser<'a> {
    tokens: &'a [Token],
    position: usize,
}

impl<'a> Parser<'a> {
    #[verifier::type_invariant]
    spec fn in_range(self) -> bool {
        self.position <= self.tokens@.len()
    }

    /// The tokens that the parser reads.
    pub closed spec fn model(&self) -> Seq<TokenModel> {
        token_models(self.tokens@)
    }

    /// The position of the next token.
    pub closed spec fn at(&self) -> int {
        self.position as int
    }

    /// Creates a new parser over the provided token slice.
    pub fn new(tokens: &'a [Token]) -> (r: Self)
        ensures
            r.model() == token_models(tokens@),
            r.at() == 0,
    {
        Parser { tokens, position: 0 }
    }

    /// Whether the next token is the sign.
    fn check(&self, sign: &TokenKind) -> (r: bool)
        ensures
            r == is_sign(self.model(), self.at(), *sign),
            r && !(*sign is EOF) ==> self.at() < self.model().len(),
            self.at() <= self.model().len(),
    {
        proof {
            use_type_invariant(self);
        }
        if self.position < self.tokens.len() {
            kind_is(&self.tokens[self.position].kind, sign)
        } else {
            kind_is(&TokenKind::EOF, sign)
        }
    }

    /// Whether the next token is the identifier `word`, in any case.
    fn check_identifier(&self, word: &str) -> (r: bool)
        ensures
            r == is_word(self.model(), self.at(), word@),
            r ==> self.at() < self.model().len(),
    {
        proof {
            use_type_invariant(self);
        }
        if self.position < self.tokens.len() {
            match &self.tokens[self.position].kind {
                TokenKind::Identifier(name) => {
                    let a = lower_text(name.as_str());
                    let b = lower_text(word);
                    same_text(a.as_str(), b.as_str())
                },
                _ => false,
            }
        } else {
            false
        }
    }

    /// The next token; past the last token, the end.
    fn found(&self) -> (r: Token)
        ensures
            r@ == token_at(self.model(), self.at()),
    {
        proof {
            use_type_invariant(self);
        }
        if self.position < self.tokens.len() {
            self.tokens[self.position].clone()
        } else {
            Token { kind: TokenKind::EOF, span: Span { start: 0, end: 0 } }
        }
    }

    fn unexpected(&self, expected: &'static str) -> (r: ParseError)
        ensures
            r@ == unexpected(self.model(), self.at(), expected@),
    {
        let found = self.found();
        let span = found.span;
        ParseError::UnexpectedToken { expected, found, span }
    }

    /// Steps over the next token.
    fn advance(&mut self)
        requires
            old(self).at() < old(self).model().len(),
        ensures
            final(self).model() == old(self).model(),
            final(self).at() == old(self).at() + 1,
    {
        let count = self.tokens.len();
        assert(self.model().len() == count);
        self.position += 1;
    }

    /// Steps over the sign, where the next token is the sign.
    fn match_token(&mut self, sign: &TokenKind) -> (r: bool)
        requires
            !(*sign is EOF),
        ensures
            final(self).model() == old(self).model(),
            r == is_sign(old(self).model(), old(self).at(), *sign),
            final(self).at() == if r {
                old(self).at() + 1
            } else {
                old(self).at()
            },
            final(self).at() <= final(self).model().len(),
    {
        if self.check(sign) {
            self.advance();
            true
        } else {
            false
        }
    }

    fn expect_token(&mut self, sign: &TokenKind, message: &'static str) -> (r: Result<(), ParseError>)
        requires
            !(*sign is EOF),
        ensures
            final(self).model() == old(self).model(),
            match expect(old(self).model(), old(self).at(), *sign, message@) {
                Ok(next) => r is Ok && final(self).at() == next && next <= final(self).model().len(),
                Err(failure) => r matches Err(error) && error@ == failure,
            },
    {
        if self.match_token(sign) {
            Ok(())
        } else {
            Err(self.unexpected(message))
        }
    }

    fn skip_semicolons(&mut self)
        ensures
            final(self).model() == old(self).model(),
            final(self).at() == skip_semicolons(old(self).model(), old(self).at()),
            old(self).at() <= final(self).at() <= final(self).model().len(),
    {
        proof {
            use_type_invariant(&*self);
        }
        while self.match_token(&TokenKind::Semicolon)
            invariant
                self.model() == old(self).model(),
                old(self).at() <= self.at() <= self.model().len(),
                skip_semicolons(old(self).model(), old(self).at()) == skip_semicolons(self.model(), self.at()),
            decreases self.model().len() - self.at(),
        {
        }
    }

    /// A path: identifiers with dots between them.
    fn parse_path(&mut self) -> (r: Result<Vec<String>, ParseError>)
        ensures
            final(self).model() == old(self).model(),
            path_result(r, final(self).at(), path_from(old(self).model(), old(self).at(), Seq::empty())),
            r is Ok ==> old(self).at() < final(self).at() <= final(self).model().len(),
    {
        proof {
            use_type_invariant(&*self);
        }
        let mut segments: Vec<String> = Vec::new();
        assert(texts(segments@) =~= Seq::<Seq<char>>::empty());
        loop
            invariant
                self.model() == old(self).model(),
                old(self).at() <= self.at() <= self.model().len(),
                segments.len() > 0 ==> old(self).at() < self.at(),
                path_from(old(self).model(), old(self).at(), Seq::empty()) == path_from(
                    self.model(),
                    self.at(),
                    texts(segments@),
                ),
            decreases self.model().len() - self.at(),
        {
            if self.position >= self.tokens.len() {
                return Err(self.unexpected("identifier"));
            }
            let name = match &self.tokens[self.position].kind {
                TokenKind::Identifier(value) => value.clone(),
                _ => {
                    return Err(self.unexpected("identifier"));
                },
            };
            let ghost before = segments@;
            segments.push(name);
            assert(texts(segments@) =~= texts(before).push(segments@.last()@));
            self.advance();
            if !self.match_token(&TokenKind::Dot) {
                return Ok(segments);
            }
        }
    }
}

/// Whether a field of that name is among the fields.
#[verifier::loop_isolation(false)]
fn field_named(fields: &Vec<ExprField>, name: &str) -> (r: bool)
    ensures
        r == has_field(fields_view(fields@), name@),
{
    let mut i: usize = 0;
    while i < fields.len()
        invariant
            i <= fields.len(),
            forall|k: int| 0 <= k < i ==> (#[trigger] fields_view(fields@)[k]).0 != name@,
        decreases fields.len() - i,
    {
        if same_text(fields[i].name.as_str(), name) {
            assert(fields_view(fields@)[i as int].0 == name@);
            return true;
        }
        i += 1;
    }
    false
}

impl<'a> Parser<'a> {
    /// The sign of the next token on a level, if it is an operator there.
    fn operator(&self, level: u8) -> (r: Option<BinaryOp>)
        ensures
            r == level_op(level as nat, token_at(self.model(), self.at()).kind),
            r is Some ==> self.at() < self.model().len(),
    {
        proof {
            use_type_invariant(self);
        }
        if self.position < self.tokens.len() {
            operator_on(level, &self.tokens[self.position].kind)
        } else {
            operator_on(level, &TokenKind::EOF)
        }
    }

    fn parse_level(&mut self, level: u8) -> (r: Result<Expr, ParseError>)
        requires
            level <= 6,
        ensures
            final(self).model() == old(self).model(),
            expr_result(r, final(self).at(), binary(old(self).model(), old(self).at(), level as nat)),
            r is Ok ==> old(self).at() < final(self).at() <= final(self).model().len(),
        decreases old(self).model().len() - old(self).at(), 30 - 3 * level,
    {
        proof {
            use_type_invariant(&*self);
        }
        let left = self.parse_operand(level)?;
        self.parse_rest(level, left)
    }

    fn parse_operand(&mut self, level: u8) -> (r: Result<Expr, ParseError>)
        requires
            level <= 6,
        ensures
            final(self).model() == old(self).model(),
            expr_result(r, final(self).at(), operand(old(self).model(), old(self).at(), level as nat)),
            r is Ok ==> old(self).at() < final(self).at() <= final(self).model().len(),
        decreases old(self).model().len() - old(self).at(), 29 - 3 * level,
    {
        proof {
            use_type_invariant(&*self);
        }
        if level == 0 {
            self.parse_conditional()
        } else if level == 6 {
            self.parse_unary()
        } else {
            self.parse_level(level + 1)
        }
    }

    fn parse_rest(&mut self, level: u8, left: Expr) -> (r: Result<Expr, ParseError>)
        requires
            level <= 6,
        ensures
            final(self).model() == old(self).model(),
            expr_result(
                r,
                final(self).at(),
                binary_rest(old(self).model(), old(self).at(), level as nat, left@),
            ),
            r is Ok ==> old(self).at() <= final(self).at() <= final(self).model().len(),
        decreases old(self).model().len() - old(self).at(), 0nat,
    {
        proof {
            use_type_invariant(&*self);
        }
        match self.operator(level) {
            Some(op) => {
                self.advance();
                let right = self.parse_operand(level)?;
                self.parse_rest(level, Expr::Binary { op, left: Box::new(left), right: Box::new(right) })
            },
            None => Ok(left),
        }
    }

    fn parse_conditional(&mut self) -> (r: Result<Expr, ParseError>)
        ensures
            final(self).model() == old(self).model(),
            expr_result(r, final(self).at(), conditional(old(self).model(), old(self).at())),
            r is Ok ==> old(self).at() < final(self).at() <= final(self).model().len(),
        decreases old(self).model().len() - old(self).at(), 28nat,
    {
        proof {
            use_type_invariant(&*self);
        }
        let condition = self.parse_level(1)?;
        if self.match_token(&TokenKind::Question) {
            let then_branch = self.parse_level(0)?;
            let else_branch = if self.match_token(&TokenKind::Colon) {
                let branch = self.parse_level(0)?;
                Some(Box::new(branch))
            } else {
                None
            };
            Ok(
                Expr::Conditional {
                    condition: Box::new(condition),
                    then_branch: Box::new(then_branch),
                    else_branch,
                },
            )
        } else {
            Ok(condition)
        }
    }

    fn parse_unary(&mut self) -> (r: Result<Expr, ParseError>)
        ensures
            final(self).model() == old(self).model(),
            expr_result(r, final(self).at(), unary(old(self).model(), old(self).at())),
            r is Ok ==> old(self).at() < final(self).at() <= final(self).model().len(),
        decreases old(self).model().len() - old(self).at(), 5nat,
    {
        proof {
            use_type_invariant(&*self);
        }
        let op = if self.match_token(&TokenKind::Plus) {
            Some(UnaryOp::Plus)
        } else if self.match_token(&TokenKind::Minus) {
            Some(UnaryOp::Minus)
        } else if self.match_token(&TokenKind::Bang) {
            Some(UnaryOp::Not)
        } else {
            None
        };
        match op {
            Some(op) => {
                let expr = self.parse_unary()?;
                Ok(Expr::Unary { op, expr: Box::new(expr) })
            },
            None => {
                let expr = self.parse_primary()?;
                self.parse_postfix(expr)
            },
        }
    }

    fn parse_postfix(&mut self, expr: Expr) -> (r: Result<Expr, ParseError>)
        ensures
            final(self).model() == old(self).model(),
            expr_result(r, final(self).at(), postfix(old(self).model(), old(self).at(), expr@)),
            r is Ok ==> old(self).at() <= final(self).at() <= final(self).model().len(),
        decreases old(self).model().len() - old(self).at(), 0nat,
    {
        proof {
            use_type_invariant(&*self);
        }
        if self.check(&TokenKind::LParen) {
            self.advance();
            let args = self.parse_arguments(&TokenKind::RParen, "')' to close call")?;
            proof {
                lemma_exprs_view(args);
            }
            self.parse_postfix(Expr::Call { target: Box::new(expr), args })
        } else if self.check(&TokenKind::Dot) {
            let dot = self.found();
            self.advance();
            match expr {
                Expr::Path(path) => {
                    let mut segments = path;
                    if self.position >= self.tokens.len() {
                        return Err(self.unexpected("identifier"));
                    }
                    let name = match &self.tokens[self.position].kind {
                        TokenKind::Identifier(value) => value.clone(),
                        _ => {
                            return Err(self.unexpected("identifier"));
                        },
                    };
                    let ghost before = segments@;
                    segments.push(name);
                    assert(texts(segments@) =~= texts(before).push(segments@.last()@));
                    self.advance();
                    self.parse_postfix(Expr::Path(segments))
                },
                _ => {
                    let span = self.found().span;
                    Err(ParseError::UnexpectedToken { expected: "path", found: dot, span })
                },
            }
        } else if self.check(&TokenKind::LBracket) {
            self.advance();
            let index = self.parse_level(0)?;
            self.expect_token(&TokenKind::RBracket, "']' after index expression")?;
            self.parse_postfix(Expr::Index { target: Box::new(expr), index: Box::new(index) })
        } else {
            Ok(expr)
        }
    }

    fn parse_arguments(&mut self, close: &TokenKind, message: &'static str) -> (r: Result<
        Vec<Expr>,
        ParseError,
    >)
        requires
            *close is RParen || *close is RBracket,
        ensures
            final(self).model() == old(self).model(),
            list_result(r, final(self).at(), arguments(old(self).model(), old(self).at(), *close, message@)),
            r is Ok ==> old(self).at() < final(self).at() <= final(self).model().len(),
        decreases old(self).model().len() - old(self).at(), 40nat,
    {
        proof {
            use_type_invariant(&*self);
        }
        let done: Vec<Expr> = Vec::new();
        assert(exprs_view(done@) =~= Seq::<ExprModel>::empty());
        if self.match_token(close) {
            Ok(done)
        } else {
            self.parse_arguments_from(close, message, done)
        }
    }

    fn parse_arguments_from(&mut self, close: &TokenKind, message: &'static str, done: Vec<Expr>) -> (r: Result<
        Vec<Expr>,
        ParseError,
    >)
        requires
            *close is RParen || *close is RBracket,
        ensures
            final(self).model() == old(self).model(),
            list_result(
                r,
                final(self).at(),
                arguments_from(old(self).model(), old(self).at(), *close, message@, exprs_view(done@)),
            ),
            r is Ok ==> old(self).at() < final(self).at() <= final(self).model().len(),
        decreases old(self).model().len() - old(self).at(), 39nat,
    {
        proof {
            use_type_invariant(&*self);
        }
        let mut items = done;
        let value = self.parse_level(0)?;
        let ghost before = items@;
        items.push(value);
        assert(exprs_view(items@) =~= exprs_view(before).push(items@.last()@));
        if self.match_token(&TokenKind::Comma) {
            self.parse_arguments_from(close, message, items)
        } else {
            self.expect_token(close, message)?;
            Ok(items)
        }
    }

    fn parse_fields_from(&mut self, done: Vec<ExprField>) -> (r: Result<Vec<ExprField>, ParseError>)
        ensures
            final(self).model() == old(self).model(),
            fields_result(
                r,
                final(self).at(),
                fields_from(old(self).model(), old(self).at(), fields_view(done@)),
            ),
            r is Ok ==> old(self).at() < final(self).at() <= final(self).model().len(),
        decreases old(self).model().len() - old(self).at(), 39nat,
    {
        proof {
            use_type_invariant(&*self);
        }
        if self.position >= self.tokens.len() {
            return Err(self.unexpected("struct field name"));
        }
        let name = match &self.tokens[self.position].kind {
            TokenKind::Identifier(value) => value.clone(),
            TokenKind::String(value) => value.clone(),
            _ => {
                return Err(self.unexpected("struct field name"));
            },
        };
        self.advance();
        self.expect_token(&TokenKind::Colon, "':' after struct field")?;
        let value = self.parse_level(0)?;
        if field_named(&done, name.as_str()) {
            return Err(ParseError::DuplicateStructField { name });
        }
        let mut fields = done;
        let ghost before = fields@;
        fields.push(ExprField { name, value });
        assert(fields_view(fields@) =~= fields_view(before).push(
            (fields@.last().name@, fields@.last().value@),
        ));
        if self.match_token(&TokenKind::Comma) {
            self.parse_fields_from(fields)
        } else {
            self.expect_token(&TokenKind::RBrace, "'}' to close struct literal")?;
            Ok(fields)
        }
    }

    fn parse_primary(&mut self) -> (r: Result<Expr, ParseError>)
        ensures
            final(self).model() == old(self).model(),
            expr_result(r, final(self).at(), primary(old(self).model(), old(self).at())),
            r is Ok ==> old(self).at() < final(self).at() <= final(self).model().len(),
        decreases old(self).model().len() - old(self).at(), 3nat,
    {
        proof {
            use_type_invariant(&*self);
        }
        if self.position >= self.tokens.len() {
            return Err(self.unexpected("expression"));
        }
        match &self.tokens[self.position].kind {
            TokenKind::Number(value) => {
                let literal = value.clone();
                self.advance();
                Ok(Expr::Number(literal))
            },
            TokenKind::String(value) => {
                let literal = value.clone();
                self.advance();
                Ok(Expr::String(literal))
            },
            TokenKind::LBrace => {
                self.advance();
                let empty: Vec<ExprField> = Vec::new();
                assert(fields_view(empty@) =~= Seq::<(Seq<char>, ExprModel)>::empty());
                let fields = if self.match_token(&TokenKind::RBrace) {
                    empty
                } else {
                    self.parse_fields_from(empty)?
                };
                proof {
                    lemma_fields_view(fields);
                }
                Ok(Expr::Struct(fields))
            },
            TokenKind::Identifier(name) => {
                let lowered = lower_text(name.as_str());
                let word_break = lower_text("break");
                let word_continue = lower_text("continue");
                if same_text(lowered.as_str(), word_break.as_str()) {
                    self.advance();
                    Ok(Expr::Flow(ControlFlowExpr::Break))
                } else if same_text(lowered.as_str(), word_continue.as_str()) {
                    self.advance();
                    Ok(Expr::Flow(ControlFlowExpr::Continue))
                } else {
                    let segments = self.parse_path()?;
                    Ok(Expr::Path(segments))
                }
            },
            TokenKind::LParen => {
                self.advance();
                let expr = self.parse_level(0)?;
                self.expect_token(&TokenKind::RParen, "')' after expression")?;
                Ok(expr)
            },
            TokenKind::LBracket => {
                self.advance();
                let elements = self.parse_arguments(&TokenKind::RBracket, "']' to close array")?;
                proof {
                    lemma_exprs_view(elements);
                }
                Ok(Expr::Array(elements))
            },
            _ => Err(self.unexpected("expression")),
        }
    }
}

impl<'a> Parser<'a> {
    /// The span of the token before the next one.
    fn previous_span(&self) -> (r: Span)
        ensures
            r == previous_span(self.model(), self.at()),
    {
        proof {
            use_type_invariant(self);
        }
        if self.position == 0 {
            Span { start: 0, end: 0 }
        } else {
            self.tokens[self.position - 1].span
        }
    }

    fn parse_assignment_or_expr_statement(&mut self) -> (r: Result<Statement, ParseError>)
        ensures
            final(self).model() == old(self).model(),
            statement_result(r, final(self).at(), assignment_or_expr(old(self).model(), old(self).at())),
            r is Ok ==> old(self).at() < final(self).at() <= final(self).model().len(),
    {
        proof {
            use_type_invariant(&*self);
        }
        let expr = self.parse_level(0)?;
        if self.match_token(&TokenKind::Equal) {
            let value = self.parse_level(0)?;
            match expr {
                Expr::Path(target) => Ok(Statement::Assignment { target, value }),
                _ => Err(ParseError::InvalidAssignmentTarget { span: self.previous_span() }),
            }
        } else {
            Ok(Statement::Expr(expr))
        }
    }

    fn parse_statement(&mut self) -> (r: Result<Statement, ParseError>)
        ensures
            final(self).model() == old(self).model(),
            statement_result(r, final(self).at(), statement(old(self).model(), old(self).at())),
            r is Ok ==> old(self).at() < final(self).at() <= final(self).model().len(),
        decreases old(self).model().len() - old(self).at(), 2nat,
    {
        proof {
            use_type_invariant(&*self);
        }
        if self.match_token(&TokenKind::LBrace) {
            return self.parse_block();
        }
        if self.check_identifier("loop") {
            self.advance();
            return self.parse_loop_statement();
        }
        if self.check_identifier("for_each") {
            self.advance();
            return self.parse_for_each_statement();
        }
        if self.check_identifier("return") {
            self.advance();
            if self.match_token(&TokenKind::Semicolon) || self.check(&TokenKind::RBrace) {
                return Ok(Statement::Return(None));
            }
            let value = self.parse_level(0)?;
            return Ok(Statement::Return(Some(value)));
        } else if self.check_identifier("break") {
            self.advance();
            return Ok(Statement::Expr(Expr::Flow(ControlFlowExpr::Break)));
        } else if self.check_identifier("continue") {
            self.advance();
            return Ok(Statement::Expr(Expr::Flow(ControlFlowExpr::Continue)));
        }
        self.parse_assignment_or_expr_statement()
    }

    fn parse_loop_statement(&mut self) -> (r: Result<Statement, ParseError>)
        ensures
            final(self).model() == old(self).model(),
            statement_result(r, final(self).at(), loop_statement(old(self).model(), old(self).at())),
            r is Ok ==> old(self).at() < final(self).at() <= final(self).model().len(),
        decreases old(self).model().len() - old(self).at(), 2nat,
    {
        proof {
            use_type_invariant(&*self);
        }
        self.expect_token(&TokenKind::LParen, "'(' after loop keyword")?;
        let count = self.parse_level(0)?;
        self.expect_token(&TokenKind::Comma, "',' after loop count")?;
        let body = self.parse_embedded_body()?;
        self.expect_token(&TokenKind::RParen, "')' to close loop")?;
        Ok(Statement::Loop { count, body: Box::new(body) })
    }

    fn parse_for_each_statement(&mut self) -> (r: Result<Statement, ParseError>)
        ensures
            final(self).model() == old(self).model(),
            statement_result(r, final(self).at(), for_each_statement(old(self).model(), old(self).at())),
            r is Ok ==> old(self).at() < final(self).at() <= final(self).model().len(),
        decreases old(self).model().len() - old(self).at(), 2nat,
    {
        proof {
            use_type_invariant(&*self);
        }
        self.expect_token(&TokenKind::LParen, "'(' after for_each")?;
        let variable = self.parse_path()?;
        self.expect_token(&TokenKind::Comma, "',' after for_each variable")?;
        let collection = self.parse_level(0)?;
        self.expect_token(&TokenKind::Comma, "',' after for_each collection")?;
        let body = self.parse_embedded_body()?;
        self.expect_token(&TokenKind::RParen, "')' to close for_each")?;
        Ok(Statement::ForEach { variable, collection, body: Box::new(body) })
    }

    fn parse_embedded_body(&mut self) -> (r: Result<Statement, ParseError>)
        ensures
            final(self).model() == old(self).model(),
            statement_result(r, final(self).at(), embedded_body(old(self).model(), old(self).at())),
            r is Ok ==> old(self).at() < final(self).at() <= final(self).model().len(),
        decreases old(self).model().len() - old(self).at(), 1nat,
    {
        proof {
            use_type_invariant(&*self);
        }
        if self.match_token(&TokenKind::LBrace) {
            self.parse_block()
        } else {
            self.parse_assignment_or_expr_statement()
        }
    }

    #[verifier::loop_isolation(false)]
    fn parse_block(&mut self) -> (r: Result<Statement, ParseError>)
        ensures
            final(self).model() == old(self).model(),
            statement_result(
                r,
                final(self).at(),
                block_from(old(self).model(), old(self).at(), Seq::empty()),
            ),
            r is Ok ==> old(self).at() < final(self).at() <= final(self).model().len(),
        decreases old(self).model().len() - old(self).at(), 3nat,
    {
        proof {
            use_type_invariant(&*self);
        }
        let mut statements: Vec<Statement> = Vec::new();
        assert(statements_view(statements@) =~= Seq::<StatementModel>::empty());
        while !self.check(&TokenKind::RBrace) && !self.check(&TokenKind::EOF)
            invariant
                self.model() == old(self).model(),
                old(self).at() <= self.at() <= self.model().len(),
                block_from(old(self).model(), old(self).at(), Seq::empty()) == block_from(
                    self.model(),
                    self.at(),
                    statements_view(statements@),
                ),
            decreases self.model().len() - self.at(),
        {
            let statement = self.parse_statement()?;
            let ghost before = statements@;
            statements.push(statement);
            assert(statements_view(statements@) =~= statements_view(before).push(statements@.last()@));
            self.skip_semicolons();
        }
        self.expect_token(&TokenKind::RBrace, "'}' to close block")?;
        proof {
            lemma_statements_view(statements);
        }
        Ok(Statement::Block(statements))
    }

    /// Parses zero or more statements up to the end.
    #[verifier::loop_isolation(false)]
    pub fn parse_program(&mut self) -> (r: Result<Program, ParseError>)
        ensures
            final(self).model() == old(self).model(),
            match program_from(old(self).model(), old(self).at(), Seq::empty()) {
                Ok(statements) => r matches Ok(program) && program@ == statements,
                Err(failure) => r matches Err(error) && error@ == failure,
            },
    {
        proof {
            use_type_invariant(&*self);
        }
        let mut statements: Vec<Statement> = Vec::new();
        assert(statements_view(statements@) =~= Seq::<StatementModel>::empty());
        while !self.check(&TokenKind::EOF)
            invariant
                self.model() == old(self).model(),
                old(self).at() <= self.at() <= self.model().len(),
                program_from(old(self).model(), old(self).at(), Seq::empty()) == program_from(
                    self.model(),
                    self.at(),
                    statements_view(statements@),
                ),
            decreases self.model().len() - self.at(),
        {
            let statement = self.parse_statement()?;
            let ghost before = statements@;
            statements.push(statement);
            assert(statements_view(statements@) =~= statements_view(before).push(statements@.last()@));
            self.skip_semicolons();
        }
        Ok(Program { statements })
    }

    /// Parses one expression that reaches up to the end.
    pub fn parse_expression(&mut self) -> (r: Result<Expr, ParseError>)
        ensures
            final(self).model() == old(self).model(),
            match expression_at(old(self).model(), old(self).at()) {
                Ok(expr) => r matches Ok(out) && out@ == expr,
                Err(failure) => r matches Err(error) && error@ == failure,
            },
    {
        let expr = self.parse_level(0)?;
        if self.check(&TokenKind::EOF) {
            Ok(expr)
        } else {
            Err(self.unexpected("end of input"))
        }
    }
}

} // verus!
