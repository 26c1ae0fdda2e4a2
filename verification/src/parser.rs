//! The grammar, and the parser that follows it.
//!
//! The grammar is a cascade of levels, from the conditional, which binds
//! weakest, down to the factor. Each level takes its operands from the next
//! tighter one, which makes the binding strength and the associativity of
//! every operator a property of the grammar itself:
//!
//! ```text
//! conditional    := logic_or ('?' conditional ':' conditional)?
//! logic_or       := logic_and ('||' logic_and)*
//! logic_and      := equality (('&&') equality)*
//! equality       := relational (('==' | '!=') relational)*
//! relational     := additive (('<' | '>' | '<=' | '>=') additive)*
//! additive       := multiplicative (('+' | '-') multiplicative)*
//! multiplicative := factor (('*' | '/' | '%') factor)*
//! factor         := ('!' | '-') factor | primary
//! primary        := NUMBER | NAME '(' (conditional (',' conditional)*)? ')'
//!                 | NAME | '(' conditional ')'
//! ```
//!
//! [`phrase`] is this grammar as a function on a sequence of tokens, and
//! [`parsed`] is what a whole line parses to.
use vstd::prelude::*;
use vstd::string::StringSliceAdditionalSpecFns;
use crate::ast::{lemma_models_push, models, Ast, Expression, Operator};
use crate::lexer::{
    closed, in_class, is_name_start, law_tokens_are_closed, law_tokens_are_lexemes,
    lemma_span_exact, lexemes, span, tokenize, tokens, tokens_from, Class, Token, TokenKind,
};
use crate::text::{cut, text};

verus! {

/// A level of the grammar, from the weakest binding to the tightest.
#[derive(Debug, Clone, Copy, PartialEq, Eq, Structural)]
pub enum Level {
    /// `condition ? then : else`, right-associative.
    Conditional,
    /// `||`
    LogicOr,
    /// `&&`
    LogicAnd,
    /// `==` and `!=`
    Equality,
    /// `<`, `>`, `<=` and `>=`
    Relational,
    /// `+` and `-`
    Additive,
    /// `*`, `/` and `%`
    Multiplicative,
    /// A prefix `!` or `-`, or a primary.
    Factor,
}

/// What the parser was looking for where it gave up.
#[derive(Debug, Clone, Copy, PartialEq, Eq, Structural)]
pub enum Expected {
    /// A number, a name, `(`, `!` or `-`.
    Operand,
    /// The `:` of a conditional.
    Colon,
    /// The `)` that closes a parenthesis.
    RightParen,
    /// A `,` before the next argument, or the `)` that closes the call.
    CommaOrRightParen,
    /// The end of the input, or an operator that continues the expression.
    End,
}

/// Why a line is no expression: the token that does not fit, the place of
/// its first byte, and what could have stood there. At the end of the input
/// the place is the length of the input.
#[derive(Debug, Clone, Copy, PartialEq, Eq, Structural)]
pub struct SyntaxError {
    pub position: usize,
    pub found: TokenKind,
    pub expected: Expected,
}

impl Level {
    /// The number of levels from this one down to the primary.
    pub open spec fn height(self) -> nat {
        match self {
            Level::Conditional => 8,
            Level::LogicOr => 7,
            Level::LogicAnd => 6,
            Level::Equality => 5,
            Level::Relational => 4,
            Level::Additive => 3,
            Level::Multiplicative => 2,
            Level::Factor => 1,
        }
    }

    /// The level from which this one takes its operands.
    pub open spec fn tighter_spec(self) -> Level {
        match self {
            Level::Conditional => Level::LogicOr,
            Level::LogicOr => Level::LogicAnd,
            Level::LogicAnd => Level::Equality,
            Level::Equality => Level::Relational,
            Level::Relational => Level::Additive,
            Level::Additive => Level::Multiplicative,
            Level::Multiplicative => Level::Factor,
            Level::Factor => Level::Factor,
        }
    }

    /// Whether the level is a chain of infix operators.
    pub open spec fn is_infix(self) -> bool {
        self != Level::Conditional && self != Level::Factor
    }

    /// The level from which this one takes its operands.
    pub fn tighter(self) -> (r: Level)
        ensures
            r == self.tighter_spec(),
    {
        match self {
            Level::Conditional => Level::LogicOr,
            Level::LogicOr => Level::LogicAnd,
            Level::LogicAnd => Level::Equality,
            Level::Equality => Level::Relational,
            Level::Relational => Level::Additive,
            Level::Additive => Level::Multiplicative,
            Level::Multiplicative => Level::Factor,
            Level::Factor => Level::Factor,
        }
    }
}

/// The operator that a token stands for between two operands of a level.
pub open spec fn infix(level: Level, kind: TokenKind) -> Option<Operator> {
    match (level, kind) {
        (Level::LogicOr, TokenKind::OrOr) => Some(Operator::OR),
        (Level::LogicAnd, TokenKind::AndAnd) => Some(Operator::AND),
        (Level::Equality, TokenKind::EqualEqual) => Some(Operator::EQ),
        (Level::Equality, TokenKind::BangEqual) => Some(Operator::NEQ),
        (Level::Relational, TokenKind::Less) => Some(Operator::LT),
        (Level::Relational, TokenKind::Greater) => Some(Operator::GT),
        (Level::Relational, TokenKind::LessEqual) => Some(Operator::LE),
        (Level::Relational, TokenKind::GreaterEqual) => Some(Operator::GE),
        (Level::Additive, TokenKind::Plus) => Some(Operator::ADD),
        (Level::Additive, TokenKind::Minus) => Some(Operator::SUB),
        (Level::Multiplicative, TokenKind::Star) => Some(Operator::MUL),
        (Level::Multiplicative, TokenKind::Slash) => Some(Operator::DIV),
        (Level::Multiplicative, TokenKind::Percent) => Some(Operator::REM),
        _ => None,
    }
}

/// The token at a place, and the end of an empty input beyond the sequence.
pub open spec fn peek(tokens: Seq<Token>, i: int) -> Token {
    if 0 <= i < tokens.len() {
        tokens[i]
    } else {
        Token { kind: TokenKind::End, start: 0, end: 0 }
    }
}

/// The error for the token at a place.
pub open spec fn unexpected(tokens: Seq<Token>, i: int, expected: Expected) -> SyntaxError {
    SyntaxError { position: peek(tokens, i).start, found: peek(tokens, i).kind, expected }
}

/// The number of tokens from a place to the end of the sequence.
pub open spec fn left(tokens: Seq<Token>, i: int) -> nat {
    if i < tokens.len() {
        (tokens.len() - i) as nat
    } else {
        0
    }
}

/// A result with `by` more tokens counted as read.
pub open spec fn advance(r: Result<(Ast, nat), SyntaxError>, by: nat) -> Result<
    (Ast, nat),
    SyntaxError,
> {
    match r {
        Ok((e, n)) => Ok((e, n + by)),
        Err(error) => Err(error),
    }
}

/// The expression of a level that starts at token `pos`, together with the
/// number of tokens that it spans, or the error at the first token that does
/// not fit.
pub open spec fn phrase(bytes: Seq<u8>, tokens: Seq<Token>, pos: int, level: Level) -> Result<
    (Ast, nat),
    SyntaxError,
>
    decreases left(tokens, pos), level.height(), 1nat,
{
    match level {
        Level::Conditional => match phrase(bytes, tokens, pos, Level::LogicOr) {
            Ok((condition, n)) => if peek(tokens, pos + n).kind == TokenKind::Question {
                match phrase(bytes, tokens, pos + n + 1, Level::Conditional) {
                    Ok((then, m)) => if peek(tokens, pos + n + 1 + m).kind == TokenKind::Colon {
                        match phrase(bytes, tokens, pos + n + 1 + m + 1, Level::Conditional) {
                            Ok((otherwise, k)) => Ok(
                                (
                                    Ast::Ternary(
                                        Box::new(condition),
                                        Box::new(then),
                                        Box::new(otherwise),
                                    ),
                                    n + 1 + m + 1 + k,
                                ),
                            ),
                            Err(error) => Err(error),
                        }
                    } else {
                        Err(unexpected(tokens, pos + n + 1 + m, Expected::Colon))
                    },
                    Err(error) => Err(error),
                }
            } else {
                Ok((condition, n))
            },
            Err(error) => Err(error),
        },
        Level::Factor => {
            let kind = peek(tokens, pos).kind;
            if kind == TokenKind::Bang || kind == TokenKind::Minus {
                match phrase(bytes, tokens, pos + 1, Level::Factor) {
                    Ok((operand, n)) => Ok(
                        (
                            Ast::Unary(
                                if kind == TokenKind::Bang {
                                    Operator::NOT
                                } else {
                                    Operator::SUB
                                },
                                Box::new(operand),
                            ),
                            n + 1,
                        ),
                    ),
                    Err(error) => Err(error),
                }
            } else {
                primary(bytes, tokens, pos)
            }
        },
        _ => match phrase(bytes, tokens, pos, level.tighter_spec()) {
            Ok((first, n)) => advance(chain(bytes, tokens, pos + n, level, first), n),
            Err(error) => Err(error),
        },
    }
}

/// The rest of a chain of infix operators of one level: `first` is the
/// expression read so far, and every further operator takes it as its left
/// operand, so the chain leans to the left.
pub open spec fn chain(
    bytes: Seq<u8>,
    tokens: Seq<Token>,
    pos: int,
    level: Level,
    first: Ast,
) -> Result<(Ast, nat), SyntaxError>
    decreases left(tokens, pos), level.height(), 0nat,
{
    match infix(level, peek(tokens, pos).kind) {
        Some(op) => match phrase(bytes, tokens, pos + 1, level.tighter_spec()) {
            Ok((right, n)) => advance(
                chain(
                    bytes,
                    tokens,
                    pos + 1 + n,
                    level,
                    Ast::Binary(Box::new(first), op, Box::new(right)),
                ),
                1 + n,
            ),
            Err(error) => Err(error),
        },
        None => Ok((first, 0)),
    }
}

/// A primary: a number, a call, a name alone, or an expression in
/// parentheses, which stands for the expression itself.
pub open spec fn primary(bytes: Seq<u8>, tokens: Seq<Token>, pos: int) -> Result<
    (Ast, nat),
    SyntaxError,
>
    decreases left(tokens, pos), 0nat, 0nat,
{
    let token = peek(tokens, pos);
    let lexeme = text(bytes, token.start as int, token.end as int);
    match token.kind {
        TokenKind::Number => Ok((Ast::Number(lexeme), 1)),
        TokenKind::Name => if peek(tokens, pos + 1).kind == TokenKind::LeftParen {
            if peek(tokens, pos + 2).kind == TokenKind::RightParen {
                Ok((Ast::Function(lexeme, Seq::empty()), 3))
            } else {
                match arguments(bytes, tokens, pos + 2, Seq::empty()) {
                    Ok((args, n)) => Ok((Ast::Function(lexeme, args), n + 2)),
                    Err(error) => Err(error),
                }
            }
        } else {
            Ok((Ast::Variable(lexeme), 1))
        },
        TokenKind::LeftParen => match phrase(bytes, tokens, pos + 1, Level::Conditional) {
            Ok((inner, n)) => if peek(tokens, pos + 1 + n).kind == TokenKind::RightParen {
                Ok((inner, n + 2))
            } else {
                Err(unexpected(tokens, pos + 1 + n, Expected::RightParen))
            },
            Err(error) => Err(error),
        },
        _ => Err(unexpected(tokens, pos, Expected::Operand)),
    }
}

/// The arguments of a call from token `pos` on, up to and including the
/// closing parenthesis, appended to those read `before`.
pub open spec fn arguments(
    bytes: Seq<u8>,
    tokens: Seq<Token>,
    pos: int,
    before: Seq<Ast>,
) -> Result<(Seq<Ast>, nat), SyntaxError>
    decreases left(tokens, pos), 9nat, 0nat,
{
    match phrase(bytes, tokens, pos, Level::Conditional) {
        Ok((argument, n)) => {
            let kind = peek(tokens, pos + n).kind;
            if kind == TokenKind::Comma {
                match arguments(bytes, tokens, pos + n + 1, before.push(argument)) {
                    Ok((all, m)) => Ok((all, n + 1 + m)),
                    Err(error) => Err(error),
                }
            } else if kind == TokenKind::RightParen {
                Ok((before.push(argument), n + 1))
            } else {
                Err(unexpected(tokens, pos + n, Expected::CommaOrRightParen))
            }
        },
        Err(error) => Err(error),
    }
}

/// What a whole sequence of tokens parses to at a level: the expression
/// that spans all of it up to the end.
pub open spec fn sentence(bytes: Seq<u8>, tokens: Seq<Token>, level: Level) -> Result<
    Ast,
    SyntaxError,
> {
    match phrase(bytes, tokens, 0, level) {
        Ok((e, n)) => if peek(tokens, n as int).kind == TokenKind::End {
            Ok(e)
        } else {
            Err(unexpected(tokens, n as int, Expected::End))
        },
        Err(error) => Err(error),
    }
}

/// What a line parses to at a level.
pub open spec fn parsed(bytes: Seq<u8>, level: Level) -> Result<Ast, SyntaxError> {
    sentence(bytes, tokens(bytes), level)
}

/// Whether an executable result is the given one: the same expression and
/// the same number of tokens read from `pos` on, or the same error.
pub open spec fn agrees(
    r: Result<(Expression, usize), SyntaxError>,
    pos: usize,
    expected: Result<(Ast, nat), SyntaxError>,
) -> bool {
    match r {
        Ok((e, next)) => pos <= next && expected == Ok::<(Ast, nat), SyntaxError>(
            (e@, (next - pos) as nat),
        ),
        Err(error) => expected == Err::<(Ast, nat), SyntaxError>(error),
    }
}

/// The token at a place, and the end of an empty input beyond the sequence.
fn token_at(tokens: &Vec<Token>, i: usize) -> (r: Token)
    ensures
        r == peek(tokens@, i as int),
        tokens@.len() <= usize::MAX,
{
    if i < tokens.len() {
        tokens[i]
    } else {
        Token { kind: TokenKind::End, start: 0, end: 0 }
    }
}

/// The kind of the token at a place.
fn kind_at(tokens: &Vec<Token>, i: usize) -> (r: TokenKind)
    ensures
        r == peek(tokens@, i as int).kind,
        tokens@.len() <= usize::MAX,
{
    token_at(tokens, i).kind
}

/// The error for the token at a place.
fn unexpected_at(tokens: &Vec<Token>, i: usize, expected: Expected) -> (r: SyntaxError)
    ensures
        r == unexpected(tokens@, i as int, expected),
{
    let token = token_at(tokens, i);
    SyntaxError { position: token.start, found: token.kind, expected }
}

/// The operator that a token stands for between two operands of a level.
fn infix_of(level: Level, kind: TokenKind) -> (r: Option<Operator>)
    ensures
        r == infix(level, kind),
{
    match (level, kind) {
        (Level::LogicOr, TokenKind::OrOr) => Some(Operator::OR),
        (Level::LogicAnd, TokenKind::AndAnd) => Some(Operator::AND),
        (Level::Equality, TokenKind::EqualEqual) => Some(Operator::EQ),
        (Level::Equality, TokenKind::BangEqual) => Some(Operator::NEQ),
        (Level::Relational, TokenKind::Less) => Some(Operator::LT),
        (Level::Relational, TokenKind::Greater) => Some(Operator::GT),
        (Level::Relational, TokenKind::LessEqual) => Some(Operator::LE),
        (Level::Relational, TokenKind::GreaterEqual) => Some(Operator::GE),
        (Level::Additive, TokenKind::Plus) => Some(Operator::ADD),
        (Level::Additive, TokenKind::Minus) => Some(Operator::SUB),
        (Level::Multiplicative, TokenKind::Star) => Some(Operator::MUL),
        (Level::Multiplicative, TokenKind::Slash) => Some(Operator::DIV),
        (Level::Multiplicative, TokenKind::Percent) => Some(Operator::REM),
        _ => None,
    }
}

/// Parses the expression of a level that starts at token `pos`.
fn descend(bytes: &[u8], tokens: &Vec<Token>, pos: usize, level: Level) -> (r: Result<
    (Expression, usize),
    SyntaxError,
>)
    requires
        lexemes(bytes@, tokens@),
        pos <= tokens@.len(),
    ensures
        agrees(r, pos, phrase(bytes@, tokens@, pos as int, level)),
        r matches Ok((_, next)) ==> next <= tokens@.len(),
    decreases left(tokens@, pos as int), level.height(), 1nat,
{
    match level {
        Level::Conditional => {
            let (condition, question) = match descend(bytes, tokens, pos, Level::LogicOr) {
                Ok(found) => found,
                Err(error) => { return Err(error); },
            };
            if kind_at(tokens, question) != TokenKind::Question {
                return Ok((condition, question));
            }
            let (then, colon) = match descend(bytes, tokens, question + 1, Level::Conditional) {
                Ok(found) => found,
                Err(error) => { return Err(error); },
            };
            if kind_at(tokens, colon) != TokenKind::Colon {
                return Err(unexpected_at(tokens, colon, Expected::Colon));
            }
            match descend(bytes, tokens, colon + 1, Level::Conditional) {
                Ok((otherwise, next)) => Ok(
                    (
                        Expression::Ternary(
                            Box::new(condition),
                            Box::new(then),
                            Box::new(otherwise),
                        ),
                        next,
                    ),
                ),
                Err(error) => Err(error),
            }
        },
        Level::Factor => {
            let kind = kind_at(tokens, pos);
            if kind == TokenKind::Bang || kind == TokenKind::Minus {
                let op = if kind == TokenKind::Bang {
                    Operator::NOT
                } else {
                    Operator::SUB
                };
                match descend(bytes, tokens, pos + 1, Level::Factor) {
                    Ok((operand, next)) => Ok((Expression::Unary(op, Box::new(operand)), next)),
                    Err(error) => Err(error),
                }
            } else {
                parse_primary(bytes, tokens, pos)
            }
        },
        _ => {
            let (first, after) = match descend(bytes, tokens, pos, level.tighter()) {
                Ok(found) => found,
                Err(error) => { return Err(error); },
            };
            let mut so_far = first;
            let mut at = after;
            loop
                invariant
                    lexemes(bytes@, tokens@),
                    level.is_infix(),
                    pos <= at <= tokens@.len(),
                    phrase(bytes@, tokens@, pos as int, level) == advance(
                        chain(bytes@, tokens@, at as int, level, so_far@),
                        (at - pos) as nat,
                    ),
                decreases left(tokens@, at as int),
            {
                let op = match infix_of(level, kind_at(tokens, at)) {
                    Some(op) => op,
                    None => { return Ok((so_far, at)); },
                };
                let (right, next) = match descend(bytes, tokens, at + 1, level.tighter()) {
                    Ok(found) => found,
                    Err(error) => { return Err(error); },
                };
                so_far = Expression::Binary(Box::new(so_far), op, Box::new(right));
                at = next;
            }
        },
    }
}

/// Parses a primary that starts at token `pos`.
fn parse_primary(bytes: &[u8], tokens: &Vec<Token>, pos: usize) -> (r: Result<
    (Expression, usize),
    SyntaxError,
>)
    requires
        lexemes(bytes@, tokens@),
        pos <= tokens@.len(),
    ensures
        agrees(r, pos, primary(bytes@, tokens@, pos as int)),
        r matches Ok((_, next)) ==> next <= tokens@.len(),
    decreases left(tokens@, pos as int), 0nat, 0nat,
{
    let token = token_at(tokens, pos);
    match token.kind {
        TokenKind::Number => Ok((Expression::Number(cut(bytes, token.start, token.end)), pos + 1)),
        TokenKind::Name => {
            let name = cut(bytes, token.start, token.end);
            if kind_at(tokens, pos + 1) != TokenKind::LeftParen {
                return Ok((Expression::Variable(name), pos + 1));
            }
            let mut args: Vec<Box<Expression>> = Vec::new();
            if kind_at(tokens, pos + 2) == TokenKind::RightParen {
                assert(models(args@) =~= Seq::<Ast>::empty());
                return Ok((Expression::Function(name, args), pos + 3));
            }
            let mut at: usize = pos + 2;
            assert(models(args@) =~= Seq::<Ast>::empty());
            loop
                invariant
                    lexemes(bytes@, tokens@),
                    pos + 2 <= at <= tokens@.len(),
                    primary(bytes@, tokens@, pos as int) == match arguments(
                        bytes@,
                        tokens@,
                        pos + 2,
                        Seq::empty(),
                    ) {
                        Ok((all, n)) => Ok::<(Ast, nat), SyntaxError>(
                            (Ast::Function(name@, all), n + 2),
                        ),
                        Err(error) => Err(error),
                    },
                    arguments(bytes@, tokens@, pos + 2, Seq::empty()) == match arguments(
                        bytes@,
                        tokens@,
                        at as int,
                        models(args@),
                    ) {
                        Ok((all, n)) => Ok::<(Seq<Ast>, nat), SyntaxError>(
                            (all, (n + (at - pos - 2)) as nat),
                        ),
                        Err(error) => Err(error),
                    },
                decreases left(tokens@, at as int),
            {
                let (argument, after) = match descend(bytes, tokens, at, Level::Conditional) {
                    Ok(found) => found,
                    Err(error) => { return Err(error); },
                };
                proof {
                    lemma_models_push(args@, Box::new(argument));
                }
                args.push(Box::new(argument));
                let kind = kind_at(tokens, after);
                if kind == TokenKind::Comma {
                    at = after + 1;
                } else if kind == TokenKind::RightParen {
                    return Ok((Expression::Function(name, args), after + 1));
                } else {
                    return Err(unexpected_at(tokens, after, Expected::CommaOrRightParen));
                }
            }
        },
        TokenKind::LeftParen => match descend(bytes, tokens, pos + 1, Level::Conditional) {
            Ok((inner, after)) => if kind_at(tokens, after) == TokenKind::RightParen {
                Ok((inner, after + 1))
            } else {
                Err(unexpected_at(tokens, after, Expected::RightParen))
            },
            Err(error) => Err(error),
        },
        _ => Err(unexpected_at(tokens, pos, Expected::Operand)),
    }
}

/// Parses a line, given as bytes, at a level of the grammar.
pub fn parse_bytes(bytes: &[u8], level: Level) -> (r: Result<Expression, SyntaxError>)
    ensures
        match r {
            Ok(e) => parsed(bytes@, level) == Ok::<Ast, SyntaxError>(e@) && e@.well_formed(),
            Err(error) => parsed(bytes@, level) == Err::<Ast, SyntaxError>(error)
                && error.position <= bytes@.len(),
        },
{
    let tokens = tokenize(bytes);
    proof {
        law_parsed_is_well_formed(bytes@, level);
        law_error_names_a_token(bytes@, level);
    }
    match descend(bytes, &tokens, 0, level) {
        Ok((e, next)) => if kind_at(&tokens, next) == TokenKind::End {
            Ok(e)
        } else {
            Err(unexpected_at(&tokens, next, Expected::End))
        },
        Err(error) => Err(error),
    }
}

/// Parses a line at a level of the grammar: the line must be one expression
/// of that level from its first token to its last.
pub fn parse_at(level: Level, line: &str) -> (r: Result<Expression, SyntaxError>)
    ensures
        match r {
            Ok(e) => parsed(line.spec_bytes(), level) == Ok::<Ast, SyntaxError>(e@)
                && e@.well_formed(),
            Err(error) => parsed(line.spec_bytes(), level) == Err::<Ast, SyntaxError>(error)
                && error.position <= line.spec_bytes().len(),
        },
{
    parse_bytes(line.as_bytes(), level)
}

/// Parses a line into the expression that it is, or says where and why it
/// is none. Places count the bytes of the line in UTF-8.
pub fn parse(line: &str) -> (r: Result<Expression, SyntaxError>)
    ensures
        match r {
            Ok(e) => parsed(line.spec_bytes(), Level::Conditional) == Ok::<Ast, SyntaxError>(e@)
                && e@.well_formed(),
            Err(error) => parsed(line.spec_bytes(), Level::Conditional) == Err::<
                Ast,
                SyntaxError,
            >(error) && error.position <= line.spec_bytes().len(),
        },
{
    parse_at(Level::Conditional, line)
}

/// Whether the bytes are one name: a letter or an underscore, followed by
/// letters, digits and underscores.
pub open spec fn is_name(bytes: Seq<u8>) -> bool {
    &&& bytes.len() > 0
    &&& is_name_start(bytes[0])
    &&& forall|i: int| 1 <= i < bytes.len() ==> in_class(Class::NamePart, #[trigger] bytes[i])
}

/// A primary that is followed by the end of the input is, at every level,
/// the whole expression.
proof fn lemma_primary_alone(bytes: Seq<u8>, tokens: Seq<Token>, level: Level)
    requires
        primary(bytes, tokens, 0) is Ok,
        peek(tokens, 0).kind != TokenKind::Bang,
        peek(tokens, 0).kind != TokenKind::Minus,
        peek(tokens, primary(bytes, tokens, 0)->Ok_0.1 as int).kind == TokenKind::End,
    ensures
        phrase(bytes, tokens, 0, level) == primary(bytes, tokens, 0),
    decreases level.height(),
{
    if level != Level::Factor {
        lemma_primary_alone(bytes, tokens, level.tighter_spec());
        let (first, n) = primary(bytes, tokens, 0)->Ok_0;
        assert(phrase(bytes, tokens, 0, level.tighter_spec()) == Ok::<(Ast, nat), SyntaxError>(
            (first, n),
        ));
        if level.is_infix() {
            assert(chain(bytes, tokens, n as int, level, first) == Ok::<(Ast, nat), SyntaxError>(
                (first, 0),
            ));
        }
    }
}

/// A line that is one name is, at every level of the grammar, that name as
/// a variable.
pub proof fn law_name_is_variable(bytes: Seq<u8>, level: Level)
    requires
        is_name(bytes),
        bytes.len() <= usize::MAX,
    ensures
        parsed(bytes, level) == Ok::<Ast, SyntaxError>(
            Ast::Variable(text(bytes, 0, bytes.len() as int)),
        ),
{
    let end = bytes.len() as int;
    lemma_span_exact(bytes, 1, end, Class::NamePart);
    assert(span(bytes, 0, Class::Space) == 0);
    assert(span(bytes, end, Class::Space) == 0);
    let name = Token { kind: TokenKind::Name, start: 0, end: end as usize };
    let last = Token { kind: TokenKind::End, start: end as usize, end: end as usize };
    assert(tokens_from(bytes, end) =~= seq![last]);
    assert(tokens(bytes) =~= seq![name, last]);
    lemma_primary_alone(bytes, tokens(bytes), level);
}

/// Every expression of the grammar is well formed.
proof fn lemma_phrase_well_formed(bytes: Seq<u8>, tokens: Seq<Token>, pos: int, level: Level)
    requires
        lexemes(bytes, tokens),
    ensures
        phrase(bytes, tokens, pos, level) matches Ok((e, _)) ==> e.well_formed(),
    decreases left(tokens, pos), level.height(), 1nat,
{
    match level {
        Level::Conditional => {
            lemma_phrase_well_formed(bytes, tokens, pos, Level::LogicOr);
            if let Ok((_, n)) = phrase(bytes, tokens, pos, Level::LogicOr) {
                if peek(tokens, pos + n).kind == TokenKind::Question {
                    lemma_phrase_well_formed(bytes, tokens, pos + n + 1, Level::Conditional);
                    if let Ok((_, m)) = phrase(bytes, tokens, pos + n + 1, Level::Conditional) {
                        if peek(tokens, pos + n + 1 + m).kind == TokenKind::Colon {
                            lemma_phrase_well_formed(
                                bytes,
                                tokens,
                                pos + n + 1 + m + 1,
                                Level::Conditional,
                            );
                        }
                    }
                }
            }
        },
        Level::Factor => {
            let kind = peek(tokens, pos).kind;
            if kind == TokenKind::Bang || kind == TokenKind::Minus {
                lemma_phrase_well_formed(bytes, tokens, pos + 1, Level::Factor);
            } else {
                lemma_primary_well_formed(bytes, tokens, pos);
            }
        },
        _ => {
            lemma_phrase_well_formed(bytes, tokens, pos, level.tighter_spec());
            if let Ok((first, n)) = phrase(bytes, tokens, pos, level.tighter_spec()) {
                lemma_chain_well_formed(bytes, tokens, pos + n, level, first);
            }
        },
    }
}

/// A chain that continues a well-formed expression is well formed.
proof fn lemma_chain_well_formed(
    bytes: Seq<u8>,
    tokens: Seq<Token>,
    pos: int,
    level: Level,
    first: Ast,
)
    requires
        lexemes(bytes, tokens),
        first.well_formed(),
    ensures
        chain(bytes, tokens, pos, level, first) matches Ok((e, _)) ==> e.well_formed(),
    decreases left(tokens, pos), level.height(), 0nat,
{
    if let Some(op) = infix(level, peek(tokens, pos).kind) {
        lemma_phrase_well_formed(bytes, tokens, pos + 1, level.tighter_spec());
        if let Ok((right, n)) = phrase(bytes, tokens, pos + 1, level.tighter_spec()) {
            lemma_chain_well_formed(
                bytes,
                tokens,
                pos + 1 + n,
                level,
                Ast::Binary(Box::new(first), op, Box::new(right)),
            );
        }
    }
}

/// Every primary is well formed.
proof fn lemma_primary_well_formed(bytes: Seq<u8>, tokens: Seq<Token>, pos: int)
    requires
        lexemes(bytes, tokens),
    ensures
        primary(bytes, tokens, pos) matches Ok((e, _)) ==> e.well_formed(),
    decreases left(tokens, pos), 0nat, 0nat,
{
    match peek(tokens, pos).kind {
        TokenKind::Name => {
            if peek(tokens, pos + 1).kind == TokenKind::LeftParen && peek(tokens, pos + 2).kind
                != TokenKind::RightParen {
                lemma_arguments_well_formed(bytes, tokens, pos + 2, Seq::empty());
            }
        },
        TokenKind::LeftParen => {
            lemma_phrase_well_formed(bytes, tokens, pos + 1, Level::Conditional);
        },
        _ => {},
    }
}

/// Arguments that follow well-formed ones are well formed.
proof fn lemma_arguments_well_formed(
    bytes: Seq<u8>,
    tokens: Seq<Token>,
    pos: int,
    before: Seq<Ast>,
)
    requires
        lexemes(bytes, tokens),
        forall|i: int| 0 <= i < before.len() ==> (#[trigger] before[i]).well_formed(),
    ensures
        arguments(bytes, tokens, pos, before) matches Ok((all, _)) ==> forall|i: int|
            0 <= i < all.len() ==> (#[trigger] all[i]).well_formed(),
    decreases left(tokens, pos), 9nat, 0nat,
{
    lemma_phrase_well_formed(bytes, tokens, pos, Level::Conditional);
    if let Ok((argument, n)) = phrase(bytes, tokens, pos, Level::Conditional) {
        if peek(tokens, pos + n).kind == TokenKind::Comma {
            lemma_arguments_well_formed(bytes, tokens, pos + n + 1, before.push(argument));
        }
    }
}

/// What a line parses to is well formed: its literals are numeric
/// literals, its names are names, `!` stands only before its one operand,
/// and each infix operator between its two.
pub proof fn law_parsed_is_well_formed(bytes: Seq<u8>, level: Level)
    requires
        bytes.len() <= usize::MAX,
    ensures
        parsed(bytes, level) matches Ok(e) ==> e.well_formed(),
{
    law_tokens_are_lexemes(bytes);
    lemma_phrase_well_formed(bytes, tokens(bytes), 0, level);
}

/// Whether an error names one of the tokens: its place and its kind.
pub open spec fn points_at(tokens: Seq<Token>, error: SyntaxError) -> bool {
    exists|i: int|
        0 <= i < tokens.len() && error.position == (#[trigger] tokens[i]).start && error.found
            == tokens[i].kind
}

/// Whether a result stays inside the tokens: an expression ends before the
/// last token, and an error names one of the tokens.
pub open spec fn stays_inside(
    tokens: Seq<Token>,
    pos: int,
    r: Result<(Ast, nat), SyntaxError>,
) -> bool {
    match r {
        Ok((_, n)) => pos + n < tokens.len(),
        Err(error) => points_at(tokens, error),
    }
}

/// The error for a token of the sequence names that token.
proof fn lemma_unexpected_points(tokens: Seq<Token>, i: int, expected: Expected)
    requires
        0 <= i < tokens.len(),
    ensures
        points_at(tokens, unexpected(tokens, i, expected)),
{
    assert(unexpected(tokens, i, expected).position == tokens[i].start);
}

/// No expression of the grammar reaches the last token, and every error
/// names a token.
proof fn lemma_phrase_stays_inside(bytes: Seq<u8>, tokens: Seq<Token>, pos: int, level: Level)
    requires
        closed(tokens),
        0 <= pos < tokens.len(),
    ensures
        stays_inside(tokens, pos, phrase(bytes, tokens, pos, level)),
    decreases left(tokens, pos), level.height(), 1nat,
{
    match level {
        Level::Conditional => {
            lemma_phrase_stays_inside(bytes, tokens, pos, Level::LogicOr);
            if let Ok((_, n)) = phrase(bytes, tokens, pos, Level::LogicOr) {
                if peek(tokens, pos + n).kind == TokenKind::Question {
                    lemma_phrase_stays_inside(bytes, tokens, pos + n + 1, Level::Conditional);
                    if let Ok((_, m)) = phrase(bytes, tokens, pos + n + 1, Level::Conditional) {
                        if peek(tokens, pos + n + 1 + m).kind == TokenKind::Colon {
                            lemma_phrase_stays_inside(
                                bytes,
                                tokens,
                                pos + n + 1 + m + 1,
                                Level::Conditional,
                            );
                        } else {
                            lemma_unexpected_points(tokens, pos + n + 1 + m, Expected::Colon);
                        }
                    }
                }
            }
        },
        Level::Factor => {
            let kind = peek(tokens, pos).kind;
            if kind == TokenKind::Bang || kind == TokenKind::Minus {
                lemma_phrase_stays_inside(bytes, tokens, pos + 1, Level::Factor);
            } else {
                lemma_primary_stays_inside(bytes, tokens, pos);
            }
        },
        _ => {
            lemma_phrase_stays_inside(bytes, tokens, pos, level.tighter_spec());
            if let Ok((first, n)) = phrase(bytes, tokens, pos, level.tighter_spec()) {
                lemma_chain_stays_inside(bytes, tokens, pos + n, level, first);
            }
        },
    }
}

/// The same for the rest of a chain.
proof fn lemma_chain_stays_inside(
    bytes: Seq<u8>,
    tokens: Seq<Token>,
    pos: int,
    level: Level,
    first: Ast,
)
    requires
        closed(tokens),
        0 <= pos < tokens.len(),
    ensures
        stays_inside(tokens, pos, chain(bytes, tokens, pos, level, first)),
    decreases left(tokens, pos), level.height(), 0nat,
{
    if let Some(op) = infix(level, peek(tokens, pos).kind) {
        lemma_phrase_stays_inside(bytes, tokens, pos + 1, level.tighter_spec());
        if let Ok((right, n)) = phrase(bytes, tokens, pos + 1, level.tighter_spec()) {
            lemma_chain_stays_inside(
                bytes,
                tokens,
                pos + 1 + n,
                level,
                Ast::Binary(Box::new(first), op, Box::new(right)),
            );
        }
    }
}

/// The same for a primary.
proof fn lemma_primary_stays_inside(bytes: Seq<u8>, tokens: Seq<Token>, pos: int)
    requires
        closed(tokens),
        0 <= pos < tokens.len(),
    ensures
        stays_inside(tokens, pos, primary(bytes, tokens, pos)),
    decreases left(tokens, pos), 0nat, 0nat,
{
    match peek(tokens, pos).kind {
        TokenKind::Number => {},
        TokenKind::Name => {
            if peek(tokens, pos + 1).kind == TokenKind::LeftParen && peek(tokens, pos + 2).kind
                != TokenKind::RightParen {
                lemma_arguments_stay_inside(bytes, tokens, pos + 2, Seq::empty());
            }
        },
        TokenKind::LeftParen => {
            lemma_phrase_stays_inside(bytes, tokens, pos + 1, Level::Conditional);
            if let Ok((_, n)) = phrase(bytes, tokens, pos + 1, Level::Conditional) {
                lemma_unexpected_points(tokens, pos + 1 + n, Expected::RightParen);
            }
        },
        _ => {
            lemma_unexpected_points(tokens, pos, Expected::Operand);
        },
    }
}

/// The same for the arguments of a call.
proof fn lemma_arguments_stay_inside(
    bytes: Seq<u8>,
    tokens: Seq<Token>,
    pos: int,
    before: Seq<Ast>,
)
    requires
        closed(tokens),
        0 <= pos < tokens.len(),
    ensures
        match arguments(bytes, tokens, pos, before) {
            Ok((_, n)) => pos + n < tokens.len(),
            Err(error) => points_at(tokens, error),
        },
    decreases left(tokens, pos), 9nat, 0nat,
{
    lemma_phrase_stays_inside(bytes, tokens, pos, Level::Conditional);
    if let Ok((argument, n)) = phrase(bytes, tokens, pos, Level::Conditional) {
        if peek(tokens, pos + n).kind == TokenKind::Comma {
            lemma_arguments_stay_inside(bytes, tokens, pos + n + 1, before.push(argument));
        } else {
            lemma_unexpected_points(tokens, pos + n, Expected::CommaOrRightParen);
        }
    }
}

/// An error names a token of the line: the place where that token starts,
/// which lies inside the line or at its end, and the kind of that token.
pub proof fn law_error_names_a_token(bytes: Seq<u8>, level: Level)
    requires
        bytes.len() <= usize::MAX,
    ensures
        parsed(bytes, level) matches Err(error) ==> points_at(tokens(bytes), error)
            && error.position <= bytes.len(),
{
    law_tokens_are_closed(bytes);
    law_tokens_are_lexemes(bytes);
    lemma_phrase_stays_inside(bytes, tokens(bytes), 0, level);
    if let Ok((_, n)) = phrase(bytes, tokens(bytes), 0, level) {
        lemma_unexpected_points(tokens(bytes), n as int, Expected::End);
    }
}

} // verus!
