//! The tokens of the source language.
use crate::text::push_char;
use vstd::prelude::*;
use vstd::string::StringSliceAdditionalSpecFns;

verus! {

/// The byte positions of the first and of the last character of a token.
#[derive(Debug, Clone, Copy, PartialEq, Eq, Structural)]
pub struct Span {
    pub start: usize,
    pub end: usize,
}

#[derive(Debug, PartialEq)]
pub enum TokenKind {
    /// A decimal literal, as written.
    Number(String),
    Identifier(String),
    /// A quoted text, without its quotes, each escaped character taken as
    /// it stands.
    String(String),
    Plus,
    Minus,
    Star,
    Slash,
    Dot,
    Comma,
    LParen,
    RParen,
    LBrace,
    RBrace,
    LBracket,
    RBracket,
    Semicolon,
    Question,
    QuestionQuestion,
    Colon,
    Equal,
    EqualEqual,
    Bang,
    BangEqual,
    Less,
    LessEqual,
    Greater,
    GreaterEqual,
    AndAnd,
    OrOr,
    Arrow,
    EOF,
}

#[derive(Debug, PartialEq)]
pub struct Token {
    pub kind: TokenKind,
    pub span: Span,
}

#[derive(Debug, Clone, Copy, PartialEq, Eq, Structural)]
pub enum LexError {
    /// A character that starts no token, at its byte position.
    UnexpectedCharacter { ch: char, index: usize },
    /// A number that cannot be read. Digits with at most one dot can
    /// always be read: `lex` does not return this error.
    InvalidNumber { span: Span },
    /// A string without its closing quote; `start` is the byte position
    /// of the opening quote.
    UnterminatedString { start: usize },
}

/// What a token kind is: one of the three kinds that carry a text, or a
/// sign.
pub enum KindModel {
    Number(Seq<char>),
    Identifier(Seq<char>),
    Text(Seq<char>),
    Sign(TokenKind),
}

/// What a token is.
pub struct TokenModel {
    pub kind: KindModel,
    pub span: Span,
}

impl View for TokenKind {
    type V = KindModel;

    open spec fn view(&self) -> KindModel {
        match self {
            TokenKind::Number(text) => KindModel::Number(text@),
            TokenKind::Identifier(text) => KindModel::Identifier(text@),
            TokenKind::String(text) => KindModel::Text(text@),
            sign => KindModel::Sign(*sign),
        }
    }
}

impl View for Token {
    type V = TokenModel;

    open spec fn view(&self) -> TokenModel {
        TokenModel { kind: self.kind@, span: self.span }
    }
}

impl Clone for TokenKind {
    fn clone(&self) -> (r: Self)
        ensures
            r@ == self@,
    {
        match self {
            TokenKind::Number(text) => TokenKind::Number(text.clone()),
            TokenKind::Identifier(text) => TokenKind::Identifier(text.clone()),
            TokenKind::String(text) => TokenKind::String(text.clone()),
            TokenKind::Plus => TokenKind::Plus,
            TokenKind::Minus => TokenKind::Minus,
            TokenKind::Star => TokenKind::Star,
            TokenKind::Slash => TokenKind::Slash,
            TokenKind::Dot => TokenKind::Dot,
            TokenKind::Comma => TokenKind::Comma,
            TokenKind::LParen => TokenKind::LParen,
            TokenKind::RParen => TokenKind::RParen,
            TokenKind::LBrace => TokenKind::LBrace,
            TokenKind::RBrace => TokenKind::RBrace,
            TokenKind::LBracket => TokenKind::LBracket,
            TokenKind::RBracket => TokenKind::RBracket,
            TokenKind::Semicolon => TokenKind::Semicolon,
            TokenKind::Question => TokenKind::Question,
            TokenKind::QuestionQuestion => TokenKind::QuestionQuestion,
            TokenKind::Colon => TokenKind::Colon,
            TokenKind::Equal => TokenKind::Equal,
            TokenKind::EqualEqual => TokenKind::EqualEqual,
            TokenKind::Bang => TokenKind::Bang,
            TokenKind::BangEqual => TokenKind::BangEqual,
            TokenKind::Less => TokenKind::Less,
            TokenKind::LessEqual => TokenKind::LessEqual,
            TokenKind::Greater => TokenKind::Greater,
            TokenKind::GreaterEqual => TokenKind::GreaterEqual,
            TokenKind::AndAnd => TokenKind::AndAnd,
            TokenKind::OrOr => TokenKind::OrOr,
            TokenKind::Arrow => TokenKind::Arrow,
            TokenKind::EOF => TokenKind::EOF,
        }
    }
}

impl Clone for Token {
    fn clone(&self) -> (r: Self)
        ensures
            r@ == self@,
    {
        Token { kind: self.kind.clone(), span: self.span }
    }
}

/// The views of a list of tokens.
pub open spec fn token_models(tokens: Seq<Token>) -> Seq<TokenModel> {
    tokens.map_values(|token: Token| token@)
}

/// The byte position of the character at `pos` in the UTF-8 encoding.
pub open spec fn byte_offset(chars: Seq<char>, pos: int) -> int
    decreases pos,
{
    if pos <= 0 {
        0
    } else {
        byte_offset(chars, pos - 1) + crate::text::utf8_width(chars[pos - 1])
    }
}

/// Every character of a text with its byte position.
pub open spec fn positions(chars: Seq<char>) -> Seq<(usize, char)> {
    Seq::new(chars.len(), |i: int| (byte_offset(chars, i) as usize, chars[i]))
}

/// A character with the Unicode property `White_Space`.
pub open spec fn is_space(c: char) -> bool {
    let code = c as u32;
    (0x09 <= code && code <= 0x0d) || code == 0x20 || code == 0x85 || code == 0xa0 || code == 0x1680 || (0x2000
        <= code && code <= 0x200a) || code == 0x2028 || code == 0x2029 || code == 0x202f || code == 0x205f
        || code == 0x3000
}

pub open spec fn is_digit(c: char) -> bool {
    '0' <= c && c <= '9'
}

pub open spec fn ident_start(c: char) -> bool {
    ('a' <= c && c <= 'z') || ('A' <= c && c <= 'Z') || c == '_'
}

pub open spec fn ident_continue(c: char) -> bool {
    ident_start(c) || is_digit(c)
}

/// The characters of the items from `from` up to `to`.
pub open spec fn item_text(items: Seq<(usize, char)>, from: int, to: int) -> Seq<char> {
    items.subrange(from, to).map_values(|item: (usize, char)| item.1)
}

/// Where a number that runs up to `pos` ends: behind its digits, with at
/// most one dot among them.
pub open spec fn number_end(items: Seq<(usize, char)>, pos: int, has_dot: bool) -> int
    decreases items.len() - pos,
{
    if pos < 0 || pos >= items.len() {
        pos
    } else if is_digit(items[pos].1) {
        number_end(items, pos + 1, has_dot)
    } else if items[pos].1 == '.' && !has_dot {
        number_end(items, pos + 1, true)
    } else {
        pos
    }
}

/// Where an identifier that runs up to `pos` ends.
pub open spec fn ident_end(items: Seq<(usize, char)>, pos: int) -> int
    decreases items.len() - pos,
{
    if pos < 0 || pos >= items.len() {
        pos
    } else if ident_continue(items[pos].1) {
        ident_end(items, pos + 1)
    } else {
        pos
    }
}

/// The position of the quote that closes a string whose content starts at
/// `pos`, or `None` where the text ends before. A backslash hides the
/// character behind it.
pub open spec fn string_close(items: Seq<(usize, char)>, pos: int, quote: char) -> Option<int>
    decreases items.len() - pos,
{
    if pos < 0 || pos >= items.len() {
        None
    } else if items[pos].1 == quote {
        Some(pos)
    } else if items[pos].1 == '\\' {
        if pos + 1 < items.len() {
            string_close(items, pos + 2, quote)
        } else {
            None
        }
    } else {
        string_close(items, pos + 1, quote)
    }
}

/// The content of a string from `pos` up to its closing quote at `close`:
/// each character as it stands, a backslash giving way to the character
/// behind it.
pub open spec fn string_content(items: Seq<(usize, char)>, pos: int, close: int) -> Seq<char>
    decreases close - pos,
{
    if pos < 0 || pos >= close || close > items.len() {
        Seq::empty()
    } else if items[pos].1 == '\\' {
        if pos + 1 < close {
            seq![items[pos + 1].1] + string_content(items, pos + 2, close)
        } else {
            Seq::empty()
        }
    } else {
        seq![items[pos].1] + string_content(items, pos + 1, close)
    }
}

/// The sign that starts with `ch`, and whether it takes the next character
/// too.
pub open spec fn sign_at(ch: char, next: Option<char>) -> Option<(TokenKind, bool)> {
    if ch == '+' {
        Some((TokenKind::Plus, false))
    } else if ch == '-' {
        if next == Some('>') {
            Some((TokenKind::Arrow, true))
        } else {
            Some((TokenKind::Minus, false))
        }
    } else if ch == '*' {
        Some((TokenKind::Star, false))
    } else if ch == '/' {
        Some((TokenKind::Slash, false))
    } else if ch == ',' {
        Some((TokenKind::Comma, false))
    } else if ch == '(' {
        Some((TokenKind::LParen, false))
    } else if ch == ')' {
        Some((TokenKind::RParen, false))
    } else if ch == '{' {
        Some((TokenKind::LBrace, false))
    } else if ch == '}' {
        Some((TokenKind::RBrace, false))
    } else if ch == '[' {
        Some((TokenKind::LBracket, false))
    } else if ch == ']' {
        Some((TokenKind::RBracket, false))
    } else if ch == ';' {
        Some((TokenKind::Semicolon, false))
    } else if ch == '?' {
        if next == Some('?') {
            Some((TokenKind::QuestionQuestion, true))
        } else {
            Some((TokenKind::Question, false))
        }
    } else if ch == ':' {
        Some((TokenKind::Colon, false))
    } else if ch == '=' {
        if next == Some('=') {
            Some((TokenKind::EqualEqual, true))
        } else {
            Some((TokenKind::Equal, false))
        }
    } else if ch == '!' {
        if next == Some('=') {
            Some((TokenKind::BangEqual, true))
        } else {
            Some((TokenKind::Bang, false))
        }
    } else if ch == '<' {
        if next == Some('=') {
            Some((TokenKind::LessEqual, true))
        } else {
            Some((TokenKind::Less, false))
        }
    } else if ch == '>' {
        if next == Some('=') {
            Some((TokenKind::GreaterEqual, true))
        } else {
            Some((TokenKind::Greater, false))
        }
    } else if ch == '&' {
        if next == Some('&') {
            Some((TokenKind::AndAnd, true))
        } else {
            None
        }
    } else if ch == '|' {
        if next == Some('|') {
            Some((TokenKind::OrOr, true))
        } else {
            None
        }
    } else {
        None
    }
}

/// The character behind `pos`, if there is one.
pub open spec fn peek(items: Seq<(usize, char)>, pos: int) -> Option<char> {
    if 0 <= pos + 1 < items.len() {
        Some(items[pos + 1].1)
    } else {
        None
    }
}

/// Whether a digit stands behind `pos`.
pub open spec fn digit_follows(items: Seq<(usize, char)>, pos: int) -> bool {
    match peek(items, pos) {
        Some(next) => is_digit(next),
        None => false,
    }
}

/// The tokens of the items from `pos` on, behind the tokens `done`; the
/// last token is `EOF` at the byte length `total`. Or the first error.
pub open spec fn lex_from(items: Seq<(usize, char)>, pos: int, total: usize, done: Seq<TokenModel>) -> Result<
    Seq<TokenModel>,
    LexError,
>
    decreases items.len() - pos,
{
    if pos < 0 || pos >= items.len() {
        Ok(
            done.push(
                TokenModel { kind: KindModel::Sign(TokenKind::EOF), span: Span { start: total, end: total } },
            ),
        )
    } else {
        let (start, ch) = items[pos];
        if is_space(ch) {
            lex_from(items, pos + 1, total, done)
        } else if is_digit(ch) || (ch == '.' && digit_follows(items, pos)) {
            let end = number_end(items, pos + 1, ch == '.');
            proof {
                lemma_number_end(items, pos + 1, ch == '.');
            }
            lex_from(
                items,
                end,
                total,
                done.push(
                    TokenModel {
                        kind: KindModel::Number(item_text(items, pos, end)),
                        span: Span { start, end: items[end - 1].0 },
                    },
                ),
            )
        } else if ch == '.' {
            lex_from(
                items,
                pos + 1,
                total,
                done.push(TokenModel { kind: KindModel::Sign(TokenKind::Dot), span: Span { start, end: start } }),
            )
        } else if ch == '"' || ch == '\'' {
            match string_close(items, pos + 1, ch) {
                Some(close) => {
                    proof {
                        lemma_string_close(items, pos + 1, ch);
                    }
                    lex_from(
                        items,
                        close + 1,
                        total,
                        done.push(
                            TokenModel {
                                kind: KindModel::Text(string_content(items, pos + 1, close)),
                                span: Span { start, end: items[close].0 },
                            },
                        ),
                    )
                },
                None => Err(LexError::UnterminatedString { start }),
            }
        } else if ident_start(ch) {
            let end = ident_end(items, pos + 1);
            proof {
                lemma_ident_end(items, pos + 1);
            }
            lex_from(
                items,
                end,
                total,
                done.push(
                    TokenModel {
                        kind: KindModel::Identifier(item_text(items, pos, end)),
                        span: Span { start, end: items[end - 1].0 },
                    },
                ),
            )
        } else {
            match sign_at(ch, peek(items, pos)) {
                Some((kind, wide)) => if wide {
                    lex_from(
                        items,
                        pos + 2,
                        total,
                        done.push(
                            TokenModel { kind: KindModel::Sign(kind), span: Span { start, end: items[pos + 1].0 } },
                        ),
                    )
                } else {
                    lex_from(
                        items,
                        pos + 1,
                        total,
                        done.push(TokenModel { kind: KindModel::Sign(kind), span: Span { start, end: start } }),
                    )
                },
                None => Err(LexError::UnexpectedCharacter { ch, index: start }),
            }
        }
    }
}

/// The tokens of a source text, `EOF` last; or the first error.
pub open spec fn lex_text(chars: Seq<char>, total: usize) -> Result<Seq<TokenModel>, LexError> {
    lex_from(positions(chars), 0, total, Seq::empty())
}

pub proof fn lemma_number_end(items: Seq<(usize, char)>, pos: int, has_dot: bool)
    requires
        0 <= pos <= items.len(),
    ensures
        pos <= number_end(items, pos, has_dot) <= items.len(),
    decreases items.len() - pos,
{
    if pos < items.len() {
        if is_digit(items[pos].1) {
            lemma_number_end(items, pos + 1, has_dot);
        } else if items[pos].1 == '.' && !has_dot {
            lemma_number_end(items, pos + 1, true);
        }
    }
}

pub proof fn lemma_ident_end(items: Seq<(usize, char)>, pos: int)
    requires
        0 <= pos <= items.len(),
    ensures
        pos <= ident_end(items, pos) <= items.len(),
    decreases items.len() - pos,
{
    if pos < items.len() && ident_continue(items[pos].1) {
        lemma_ident_end(items, pos + 1);
    }
}

pub proof fn lemma_string_close(items: Seq<(usize, char)>, pos: int, quote: char)
    requires
        0 <= pos,
    ensures
        string_close(items, pos, quote) matches Some(close) ==> pos <= close < items.len(),
    decreases items.len() - pos,
{
    if pos < items.len() && items[pos].1 != quote {
        if items[pos].1 == '\\' {
            if pos + 1 < items.len() {
                lemma_string_close(items, pos + 2, quote);
            }
        } else {
            lemma_string_close(items, pos + 1, quote);
        }
    }
}

/// `str::char_indices`: every character of the text with the byte position
/// at which it starts.
#[verifier::external_body]
fn char_positions(input: &str) -> (r: Vec<(usize, char)>)
    ensures
        r@ == positions(input@),
{
    input.char_indices().collect()
}

fn is_space_char(c: char) -> (r: bool)
    ensures
        r == is_space(c),
{
    let code = c as u32;
    (0x09 <= code && code <= 0x0d) || code == 0x20 || code == 0x85 || code == 0xa0 || code == 0x1680 || (0x2000
        <= code && code <= 0x200a) || code == 0x2028 || code == 0x2029 || code == 0x202f || code == 0x205f
        || code == 0x3000
}

fn is_digit_char(c: char) -> (r: bool)
    ensures
        r == is_digit(c),
{
    '0' <= c && c <= '9'
}

pub fn is_ident_start(ch: char) -> (r: bool)
    ensures
        r == ident_start(ch),
{
    ('a' <= ch && ch <= 'z') || ('A' <= ch && ch <= 'Z') || ch == '_'
}

pub fn is_ident_continue(ch: char) -> (r: bool)
    ensures
        r == ident_continue(ch),
{
    is_ident_start(ch) || is_digit_char(ch)
}

fn token(kind: TokenKind, start: usize, end: usize) -> (r: Token)
    ensures
        r@ == (TokenModel { kind: kind@, span: Span { start, end } }),
{
    Token { kind, span: Span { start, end } }
}

/// The text of the items from `from` up to `to`.
fn text_between(items: &Vec<(usize, char)>, from: usize, to: usize) -> (r: String)
    requires
        from <= to <= items.len(),
    ensures
        r@ == item_text(items@, from as int, to as int),
{
    let mut out = String::new();
    let mut i: usize = from;
    assert(item_text(items@, from as int, from as int) =~= Seq::<char>::empty());
    while i < to
        invariant
            from <= i <= to <= items.len(),
            out@ == item_text(items@, from as int, i as int),
        decreases to - i,
    {
        push_char(&mut out, items[i].1);
        assert(item_text(items@, from as int, i + 1) =~= item_text(items@, from as int, i as int).push(
            items@[i as int].1,
        ));
        i += 1;
    }
    out
}

fn read_number(items: &Vec<(usize, char)>, pos: usize) -> (end: usize)
    requires
        pos < items.len(),
    ensures
        end == number_end(items@, pos + 1, items@[pos as int].1 == '.'),
        pos < end <= items.len(),
{
    let mut has_dot = items[pos].1 == '.';
    let mut end: usize = pos + 1;
    proof {
        lemma_number_end(items@, pos + 1, has_dot);
    }
    let mut going = true;
    while going && end < items.len()
        invariant
            pos < end <= items.len(),
            going ==> number_end(items@, pos + 1, items@[pos as int].1 == '.') == number_end(
                items@,
                end as int,
                has_dot,
            ),
            !going ==> end == number_end(items@, pos + 1, items@[pos as int].1 == '.'),
        decreases items.len() - end + if going { 1int } else { 0int },
    {
        let ch = items[end].1;
        if is_digit_char(ch) {
            end += 1;
        } else if ch == '.' && !has_dot {
            has_dot = true;
            end += 1;
        } else {
            going = false;
        }
    }
    end
}

fn read_identifier(items: &Vec<(usize, char)>, pos: usize) -> (end: usize)
    requires
        pos < items.len(),
    ensures
        end == ident_end(items@, pos + 1),
        pos < end <= items.len(),
{
    let mut end: usize = pos + 1;
    let mut going = true;
    while going && end < items.len()
        invariant
            pos < end <= items.len(),
            going ==> ident_end(items@, pos + 1) == ident_end(items@, end as int),
            !going ==> end == ident_end(items@, pos + 1),
        decreases items.len() - end + if going { 1int } else { 0int },
    {
        if is_ident_continue(items[end].1) {
            end += 1;
        } else {
            going = false;
        }
    }
    end
}

/// Reads the content of a string from `pos`; returns the content and the
/// position of the closing quote.
fn read_string(items: &Vec<(usize, char)>, pos: usize, quote: char) -> (r: Option<(String, usize)>)
    requires
        pos <= items.len(),
    ensures
        match r {
            Some((text, close)) => string_close(items@, pos as int, quote) == Some(close as int) && pos
                <= close < items.len() && text@ == string_content(items@, pos as int, close as int),
            None => string_close(items@, pos as int, quote) is None,
        },
{
    let mut literal = String::new();
    let mut at: usize = pos;
    while at < items.len()
        invariant
            pos <= at,
            string_close(items@, pos as int, quote) == string_close(items@, at as int, quote),
            forall|close: int|
                at <= close <= items.len() ==> string_content(items@, pos as int, close) == literal@
                    + #[trigger] string_content(items@, at as int, close),
        decreases items.len() - at,
    {
        let ch = items[at].1;
        if ch == quote {
            proof {
                assert(string_content(items@, at as int, at as int) =~= Seq::<char>::empty());
                assert(literal@ + Seq::<char>::empty() =~= literal@);
            }
            return Some((literal, at));
        } else if ch == '\\' {
            if at + 1 < items.len() {
                let ghost before = literal@;
                push_char(&mut literal, items[at + 1].1);
                proof {
                    assert forall|close: int| at + 2 <= close <= items.len() implies string_content(
                        items@,
                        pos as int,
                        close,
                    ) == literal@ + #[trigger] string_content(items@, at + 2, close) by {
                        assert(string_content(items@, at as int, close) == seq![items@[at + 1].1]
                            + string_content(items@, at + 2, close));
                        assert(before + (seq![items@[at + 1].1] + string_content(items@, at + 2, close))
                            =~= before.push(items@[at + 1].1) + string_content(items@, at + 2, close));
                    }
                }
                at += 2;
            } else {
                return None;
            }
        } else {
            let ghost before = literal@;
            push_char(&mut literal, ch);
            proof {
                assert forall|close: int| at + 1 <= close <= items.len() implies string_content(
                    items@,
                    pos as int,
                    close,
                ) == literal@ + #[trigger] string_content(items@, at + 1, close) by {
                    assert(string_content(items@, at as int, close) == seq![ch] + string_content(
                        items@,
                        at + 1,
                        close,
                    ));
                    assert(before + (seq![ch] + string_content(items@, at + 1, close)) =~= before.push(ch)
                        + string_content(items@, at + 1, close));
                }
            }
            at += 1;
        }
    }
    None
}

/// The sign that starts with `ch`.
fn read_sign(ch: char, next: Option<char>) -> (r: Option<(TokenKind, bool)>)
    ensures
        match r {
            Some((kind, wide)) => sign_at(ch, next) == Some((kind, wide)),
            None => sign_at(ch, next) is None,
        },
{
    let follows = |expected: char| -> (b: bool)
        ensures
            b == (next == Some(expected)),
        {
            match next {
                Some(c) => c == expected,
                None => false,
            }
        };
    if ch == '+' {
        Some((TokenKind::Plus, false))
    } else if ch == '-' {
        if follows('>') {
            Some((TokenKind::Arrow, true))
        } else {
            Some((TokenKind::Minus, false))
        }
    } else if ch == '*' {
        Some((TokenKind::Star, false))
    } else if ch == '/' {
        Some((TokenKind::Slash, false))
    } else if ch == ',' {
        Some((TokenKind::Comma, false))
    } else if ch == '(' {
        Some((TokenKind::LParen, false))
    } else if ch == ')' {
        Some((TokenKind::RParen, false))
    } else if ch == '{' {
        Some((TokenKind::LBrace, false))
    } else if ch == '}' {
        Some((TokenKind::RBrace, false))
    } else if ch == '[' {
        Some((TokenKind::LBracket, false))
    } else if ch == ']' {
        Some((TokenKind::RBracket, false))
    } else if ch == ';' {
        Some((TokenKind::Semicolon, false))
    } else if ch == '?' {
        if follows('?') {
            Some((TokenKind::QuestionQuestion, true))
        } else {
            Some((TokenKind::Question, false))
        }
    } else if ch == ':' {
        Some((TokenKind::Colon, false))
    } else if ch == '=' {
        if follows('=') {
            Some((TokenKind::EqualEqual, true))
        } else {
            Some((TokenKind::Equal, false))
        }
    } else if ch == '!' {
        if follows('=') {
            Some((TokenKind::BangEqual, true))
        } else {
            Some((TokenKind::Bang, false))
        }
    } else if ch == '<' {
        if follows('=') {
            Some((TokenKind::LessEqual, true))
        } else {
            Some((TokenKind::Less, false))
        }
    } else if ch == '>' {
        if follows('=') {
            Some((TokenKind::GreaterEqual, true))
        } else {
            Some((TokenKind::Greater, false))
        }
    } else if ch == '&' {
        if follows('&') {
            Some((TokenKind::AndAnd, true))
        } else {
            None
        }
    } else if ch == '|' {
        if follows('|') {
            Some((TokenKind::OrOr, true))
        } else {
            None
        }
    } else {
        None
    }
}

/// Whether the result of lexing is the expected one: the same tokens, or
/// the same error.
pub open spec fn lexed(result: Result<Vec<Token>, LexError>, expected: Result<Seq<TokenModel>, LexError>) -> bool {
    match expected {
        Ok(tokens) => result matches Ok(out) && token_models(out@) == tokens,
        Err(error) => result == Err::<Vec<Token>, LexError>(error),
    }
}

/// Splits a source text into tokens, `EOF` last.
pub fn lex(input: &str) -> (r: Result<Vec<Token>, LexError>)
    ensures
        lexed(r, lex_text(input@, input.spec_bytes().len() as usize)),
        r matches Err(error) ==> !(error is InvalidNumber),
{
    let items = char_positions(input);
    let total = input.len();
    let mut tokens: Vec<Token> = Vec::new();
    let mut pos: usize = 0;
    assert(token_models(tokens@) =~= Seq::<TokenModel>::empty());
    while pos < items.len()
        invariant
            pos <= items.len(),
            items@ == positions(input@),
            total == input.spec_bytes().len() as usize,
            lex_text(input@, total) == lex_from(items@, pos as int, total, token_models(tokens@)),
        decreases items.len() - pos,
    {
        let start = items[pos].0;
        let ch = items[pos].1;
        let next = if pos + 1 < items.len() {
            Some(items[pos + 1].1)
        } else {
            None
        };
        let ghost before = tokens@;
        if is_space_char(ch) {
            pos += 1;
        } else if is_digit_char(ch) || (ch == '.' && match next {
            Some(c) => is_digit_char(c),
            None => false,
        }) {
            let end = read_number(&items, pos);
            let text = text_between(&items, pos, end);
            tokens.push(token(TokenKind::Number(text), start, items[end - 1].0));
            assert(token_models(tokens@) =~= token_models(before).push(tokens@.last()@));
            pos = end;
        } else if ch == '.' {
            tokens.push(token(TokenKind::Dot, start, start));
            assert(token_models(tokens@) =~= token_models(before).push(tokens@.last()@));
            pos += 1;
        } else if ch == '"' || ch == '\'' {
            proof {
                lemma_string_close(items@, pos + 1, ch);
            }
            match read_string(&items, pos + 1, ch) {
                Some((text, close)) => {
                    tokens.push(token(TokenKind::String(text), start, items[close].0));
                    assert(token_models(tokens@) =~= token_models(before).push(tokens@.last()@));
                    pos = close + 1;
                },
                None => {
                    return Err(LexError::UnterminatedString { start });
                },
            }
        } else if is_ident_start(ch) {
            let end = read_identifier(&items, pos);
            let text = text_between(&items, pos, end);
            tokens.push(token(TokenKind::Identifier(text), start, items[end - 1].0));
            assert(token_models(tokens@) =~= token_models(before).push(tokens@.last()@));
            pos = end;
        } else {
            match read_sign(ch, next) {
                Some((kind, wide)) => {
                    if wide {
                        assert(pos + 1 < items.len());
                        tokens.push(token(kind, start, items[pos + 1].0));
                        assert(token_models(tokens@) =~= token_models(before).push(tokens@.last()@));
                        pos += 2;
                    } else {
                        tokens.push(token(kind, start, start));
                        assert(token_models(tokens@) =~= token_models(before).push(tokens@.last()@));
                        pos += 1;
                    }
                },
                None => {
                    return Err(LexError::UnexpectedCharacter { ch, index: start });
                },
            }
        }
    }
    let ghost before = tokens@;
    tokens.push(token(TokenKind::EOF, total, total));
    assert(token_models(tokens@) =~= token_models(before).push(tokens@.last()@));
    Ok(tokens)
}

} // verus!
