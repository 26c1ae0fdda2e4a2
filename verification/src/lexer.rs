//! Tokens: how the bytes of a line fall into numbers, names and operator
//! signs.
//!
//! The input is read as bytes. Every sign of the language is an ASCII
//! character, so a byte outside ASCII never belongs to a token. At each place
//! the longest token that starts there is taken. White space separates tokens
//! and is otherwise ignored.
use vstd::prelude::*;
use crate::text::{digits, is_name_text, is_number_split, is_number_text, text};

verus! {

/// `0`
pub const DIGIT_0: u8 = 48;

/// `9`
pub const DIGIT_9: u8 = 57;

/// `a`
pub const LOWER_A: u8 = 97;

/// `z`
pub const LOWER_Z: u8 = 122;

/// `A`
pub const UPPER_A: u8 = 65;

/// `Z`
pub const UPPER_Z: u8 = 90;

/// `_`
pub const UNDERSCORE: u8 = 95;

/// A space.
pub const SPACE: u8 = 32;

/// `.`
pub const POINT: u8 = 46;

/// `e`
pub const LOWER_E: u8 = 101;

/// `E`
pub const UPPER_E: u8 = 69;

/// `(`
pub const LEFT_PAREN: u8 = 40;

/// `)`
pub const RIGHT_PAREN: u8 = 41;

/// `,`
pub const COMMA: u8 = 44;

/// `?`
pub const QUESTION: u8 = 63;

/// `:`
pub const COLON: u8 = 58;

/// `+`
pub const PLUS: u8 = 43;

/// `-`
pub const MINUS: u8 = 45;

/// `*`
pub const STAR: u8 = 42;

/// `/`
pub const SLASH: u8 = 47;

/// `%`
pub const PERCENT: u8 = 37;

/// `<`
pub const LESS: u8 = 60;

/// `>`
pub const GREATER: u8 = 62;

/// `!`
pub const BANG: u8 = 33;

/// `=`
pub const EQUAL: u8 = 61;

/// `&`
pub const AMPERSAND: u8 = 38;

/// `|`
pub const BAR: u8 = 124;

/// A tab, the first of the five control characters that are white space.
pub const TAB: u8 = 9;

/// A carriage return, the last of them.
pub const CARRIAGE_RETURN: u8 = 13;

/// What a token is.
#[derive(Debug, Clone, Copy, PartialEq, Eq, Structural)]
pub enum TokenKind {
    /// Digits, an optional fraction, an optional exponent.
    Number,
    /// A letter or underscore followed by letters, digits and underscores.
    Name,
    /// `(`
    LeftParen,
    /// `)`
    RightParen,
    /// `,`
    Comma,
    /// `?`
    Question,
    /// `:`
    Colon,
    /// `+`
    Plus,
    /// `-`
    Minus,
    /// `*`
    Star,
    /// `/`
    Slash,
    /// `%`
    Percent,
    /// `!`
    Bang,
    /// `<`
    Less,
    /// `>`
    Greater,
    /// `<=`
    LessEqual,
    /// `>=`
    GreaterEqual,
    /// `==`
    EqualEqual,
    /// `!=`
    BangEqual,
    /// `&&`
    AndAnd,
    /// `||`
    OrOr,
    /// The end of the input.
    End,
    /// A byte with which no token starts.
    Invalid,
}

/// A token and the place of its bytes in the input: from `start` up to, not
/// including, `end`.
#[derive(Debug, Clone, Copy, PartialEq, Eq, Structural)]
pub struct Token {
    pub kind: TokenKind,
    pub start: usize,
    pub end: usize,
}

/// A class of bytes of which a token takes as many as follow one another.
#[derive(Debug, Clone, Copy, PartialEq, Eq, Structural)]
pub enum Class {
    /// Space, tab, line feed, vertical tab, form feed, carriage return.
    Space,
    /// `0` to `9`.
    Digit,
    /// What a name continues with: a letter, a digit or an underscore.
    NamePart,
}

/// `0` to `9`.
pub open spec fn is_digit(b: u8) -> bool {
    DIGIT_0 <= b <= DIGIT_9
}

/// What a name starts with: `a` to `z`, `A` to `Z`, or an underscore.
pub open spec fn is_name_start(b: u8) -> bool {
    LOWER_A <= b <= LOWER_Z || UPPER_A <= b <= UPPER_Z || b == UNDERSCORE
}

/// Whether a byte belongs to a class.
pub open spec fn in_class(class: Class, b: u8) -> bool {
    match class {
        Class::Space => b == SPACE || TAB <= b <= CARRIAGE_RETURN,
        Class::Digit => is_digit(b),
        Class::NamePart => is_name_start(b) || is_digit(b),
    }
}

/// The byte at a place, and zero beyond the input. Zero starts no token and
/// belongs to no class.
pub open spec fn byte_at(bytes: Seq<u8>, i: int) -> u8 {
    if 0 <= i < bytes.len() {
        bytes[i]
    } else {
        0
    }
}

/// How many bytes of a class follow one another from `pos` on.
pub open spec fn span(bytes: Seq<u8>, pos: int, class: Class) -> nat
    decreases bytes.len() - pos,
{
    if 0 <= pos < bytes.len() && in_class(class, bytes[pos]) {
        1 + span(bytes, pos + 1, class)
    } else {
        0
    }
}

/// The length of a fraction at `pos`: a point and at least one digit. Zero
/// where there is none.
pub open spec fn fraction_len(bytes: Seq<u8>, pos: int) -> nat {
    if byte_at(bytes, pos) == POINT && is_digit(byte_at(bytes, pos + 1)) {
        2 + span(bytes, pos + 2, Class::Digit)
    } else {
        0
    }
}

/// The length of an exponent at `pos`: `e` or `E`, an optional sign and at
/// least one digit. Zero where there is none.
pub open spec fn exponent_len(bytes: Seq<u8>, pos: int) -> nat {
    if byte_at(bytes, pos) == LOWER_E || byte_at(bytes, pos) == UPPER_E {
        let sign: nat = if byte_at(bytes, pos + 1) == PLUS || byte_at(bytes, pos + 1) == MINUS {
            1
        } else {
            0
        };
        if is_digit(byte_at(bytes, pos + 1 + sign)) {
            2 + sign + span(bytes, pos + 2 + sign, Class::Digit)
        } else {
            0
        }
    } else {
        0
    }
}

/// The length of the numeric literal that starts with the digit at `pos`.
pub open spec fn number_len(bytes: Seq<u8>, pos: int) -> nat {
    let whole = 1 + span(bytes, pos + 1, Class::Digit);
    let fraction = fraction_len(bytes, pos + whole);
    whole + fraction + exponent_len(bytes, pos + whole + fraction)
}

/// The kind of a sign of one byte, or of two bytes where `second` completes
/// it, together with its length. A byte that starts no sign is invalid.
pub open spec fn sign_at(first: u8, second: u8) -> (TokenKind, nat) {
    if first == LEFT_PAREN {
        (TokenKind::LeftParen, 1)
    } else if first == RIGHT_PAREN {
        (TokenKind::RightParen, 1)
    } else if first == COMMA {
        (TokenKind::Comma, 1)
    } else if first == QUESTION {
        (TokenKind::Question, 1)
    } else if first == COLON {
        (TokenKind::Colon, 1)
    } else if first == PLUS {
        (TokenKind::Plus, 1)
    } else if first == MINUS {
        (TokenKind::Minus, 1)
    } else if first == STAR {
        (TokenKind::Star, 1)
    } else if first == SLASH {
        (TokenKind::Slash, 1)
    } else if first == PERCENT {
        (TokenKind::Percent, 1)
    } else if first == LESS {
        if second == EQUAL {
            (TokenKind::LessEqual, 2)
        } else {
            (TokenKind::Less, 1)
        }
    } else if first == GREATER {
        if second == EQUAL {
            (TokenKind::GreaterEqual, 2)
        } else {
            (TokenKind::Greater, 1)
        }
    } else if first == BANG {
        if second == EQUAL {
            (TokenKind::BangEqual, 2)
        } else {
            (TokenKind::Bang, 1)
        }
    } else if first == EQUAL && second == EQUAL {
        (TokenKind::EqualEqual, 2)
    } else if first == AMPERSAND && second == AMPERSAND {
        (TokenKind::AndAnd, 2)
    } else if first == BAR && second == BAR {
        (TokenKind::OrOr, 2)
    } else {
        (TokenKind::Invalid, 1)
    }
}

/// The longest token that starts at `pos`, a place inside the input that
/// holds no white space: its kind and its length, which is at least one.
pub open spec fn token_at(bytes: Seq<u8>, pos: int) -> (TokenKind, nat) {
    let first = byte_at(bytes, pos);
    if is_digit(first) {
        (TokenKind::Number, number_len(bytes, pos))
    } else if is_name_start(first) {
        (TokenKind::Name, 1 + span(bytes, pos + 1, Class::NamePart))
    } else {
        sign_at(first, byte_at(bytes, pos + 1))
    }
}

/// The number of bytes from `pos` to the end of the input.
pub open spec fn rest(bytes: Seq<u8>, pos: int) -> nat {
    if pos < bytes.len() {
        (bytes.len() - pos) as nat
    } else {
        0
    }
}

/// The tokens of the input from `pos` on. The last one is the end of the
/// input, or the first invalid byte: nothing is read beyond that.
pub open spec fn tokens_from(bytes: Seq<u8>, pos: int) -> Seq<Token>
    decreases rest(bytes, pos),
{
    let start = pos + span(bytes, pos, Class::Space);
    if start >= bytes.len() {
        seq![Token { kind: TokenKind::End, start: start as usize, end: start as usize }]
    } else {
        let (kind, len) = token_at(bytes, start);
        let token = Token { kind, start: start as usize, end: (start + len) as usize };
        if kind == TokenKind::Invalid {
            seq![token]
        } else {
            seq![token] + tokens_from(bytes, start + len)
        }
    }
}

/// The tokens of the input.
pub open spec fn tokens(bytes: Seq<u8>) -> Seq<Token> {
    tokens_from(bytes, 0)
}

/// Whether a byte belongs to a class.
pub(crate) fn class_has(class: Class, b: u8) -> (r: bool)
    ensures
        r == in_class(class, b),
{
    match class {
        Class::Space => b == SPACE || (TAB <= b && b <= CARRIAGE_RETURN),
        Class::Digit => DIGIT_0 <= b && b <= DIGIT_9,
        Class::NamePart => (LOWER_A <= b && b <= LOWER_Z) || (UPPER_A <= b && b <= UPPER_Z)
            || b == UNDERSCORE || (DIGIT_0 <= b && b <= DIGIT_9),
    }
}

/// The byte `ahead` places after `pos`, and zero beyond the input.
fn get(bytes: &[u8], pos: usize, ahead: usize) -> (r: u8)
    ensures
        r == byte_at(bytes@, pos + ahead),
{
    if ahead < bytes.len() && pos < bytes.len() - ahead {
        bytes[pos + ahead]
    } else {
        0
    }
}

/// The first place at or after `pos` whose byte is not of the class.
pub(crate) fn skip(bytes: &[u8], pos: usize, class: Class) -> (end: usize)
    requires
        pos <= bytes@.len(),
    ensures
        end == pos + span(bytes@, pos as int, class),
        end <= bytes@.len(),
{
    let mut i: usize = pos;
    while i < bytes.len() && class_has(class, bytes[i])
        invariant
            pos <= i <= bytes@.len(),
            pos + span(bytes@, pos as int, class) == i + span(bytes@, i as int, class),
        decreases bytes@.len() - i,
    {
        i += 1;
    }
    i
}

/// The end of the numeric literal that starts with the digit at `pos`.
fn scan_number(bytes: &[u8], pos: usize) -> (end: usize)
    requires
        pos < bytes@.len(),
        is_digit(bytes@[pos as int]),
    ensures
        end == pos + number_len(bytes@, pos as int),
        pos < end <= bytes@.len(),
{
    let len = bytes.len();
    let mut end = skip(bytes, pos + 1, Class::Digit);
    if get(bytes, end, 0) == POINT && class_has(Class::Digit, get(bytes, end, 1)) {
        end = skip(bytes, end + 2, Class::Digit);
    }
    let mark = get(bytes, end, 0);
    if mark == LOWER_E || mark == UPPER_E {
        let after = get(bytes, end, 1);
        let sign: usize = if after == PLUS || after == MINUS {
            1
        } else {
            0
        };
        if class_has(Class::Digit, get(bytes, end, 1 + sign)) {
            end = skip(bytes, end + 2 + sign, Class::Digit);
        }
    }
    end
}

/// The longest token that starts at `pos`: its kind and its end.
fn scan(bytes: &[u8], pos: usize) -> (r: (TokenKind, usize))
    requires
        pos < bytes@.len(),
    ensures
        (r.0, (r.1 - pos) as nat) == token_at(bytes@, pos as int),
        pos < r.1 <= bytes@.len(),
{
    let first = bytes[pos];
    let second = get(bytes, pos, 1);
    if class_has(Class::Digit, first) {
        (TokenKind::Number, scan_number(bytes, pos))
    } else if class_has(Class::NamePart, first) {
        (TokenKind::Name, skip(bytes, pos + 1, Class::NamePart))
    } else if first == LEFT_PAREN {
        (TokenKind::LeftParen, pos + 1)
    } else if first == RIGHT_PAREN {
        (TokenKind::RightParen, pos + 1)
    } else if first == COMMA {
        (TokenKind::Comma, pos + 1)
    } else if first == QUESTION {
        (TokenKind::Question, pos + 1)
    } else if first == COLON {
        (TokenKind::Colon, pos + 1)
    } else if first == PLUS {
        (TokenKind::Plus, pos + 1)
    } else if first == MINUS {
        (TokenKind::Minus, pos + 1)
    } else if first == STAR {
        (TokenKind::Star, pos + 1)
    } else if first == SLASH {
        (TokenKind::Slash, pos + 1)
    } else if first == PERCENT {
        (TokenKind::Percent, pos + 1)
    } else if first == LESS {
        if second == EQUAL {
            (TokenKind::LessEqual, pos + 2)
        } else {
            (TokenKind::Less, pos + 1)
        }
    } else if first == GREATER {
        if second == EQUAL {
            (TokenKind::GreaterEqual, pos + 2)
        } else {
            (TokenKind::Greater, pos + 1)
        }
    } else if first == BANG {
        if second == EQUAL {
            (TokenKind::BangEqual, pos + 2)
        } else {
            (TokenKind::Bang, pos + 1)
        }
    } else if first == EQUAL && second == EQUAL {
        (TokenKind::EqualEqual, pos + 2)
    } else if first == AMPERSAND && second == AMPERSAND {
        (TokenKind::AndAnd, pos + 2)
    } else if first == BAR && second == BAR {
        (TokenKind::OrOr, pos + 2)
    } else {
        (TokenKind::Invalid, pos + 1)
    }
}

/// Splits the input into its tokens. Each of them lies inside the input and
/// is what its kind says.
pub fn tokenize(bytes: &[u8]) -> (r: Vec<Token>)
    ensures
        r@ == tokens(bytes@),
        lexemes(bytes@, r@),
        bytes@.len() <= usize::MAX,
{
    let len = bytes.len();
    proof {
        law_tokens_are_lexemes(bytes@);
    }
    let mut out: Vec<Token> = Vec::new();
    let mut pos: usize = 0;
    loop
        invariant
            pos <= bytes@.len() == len,
            tokens(bytes@) == out@ + tokens_from(bytes@, pos as int),
            lexemes(bytes@, tokens(bytes@)),
        decreases rest(bytes@, pos as int),
    {
        let start = skip(bytes, pos, Class::Space);
        if start >= len {
            out.push(Token { kind: TokenKind::End, start, end: start });
            assert(out@ =~= tokens(bytes@));
            return out;
        }
        let (kind, end) = scan(bytes, start);
        let ghost before = out@;
        out.push(Token { kind, start, end });
        if kind == TokenKind::Invalid {
            assert(out@ =~= tokens(bytes@));
            return out;
        }
        assert(before + tokens_from(bytes@, pos as int) =~= out@ + tokens_from(bytes@, end as int));
        pos = end;
    }
}

/// Whether the bytes of a token are what its kind says: those of a name a
/// name, those of a number a numeric literal. Every token lies inside the
/// input.
pub open spec fn is_lexeme(bytes: Seq<u8>, token: Token) -> bool {
    &&& token.start <= token.end <= bytes.len()
    &&& token.kind == TokenKind::Name ==> is_name_text(
        text(bytes, token.start as int, token.end as int),
    )
    &&& token.kind == TokenKind::Number ==> is_number_text(
        text(bytes, token.start as int, token.end as int),
    )
}

/// Whether every token of a sequence is what its kind says.
pub open spec fn lexemes(bytes: Seq<u8>, tokens: Seq<Token>) -> bool {
    forall|i: int| 0 <= i < tokens.len() ==> is_lexeme(bytes, #[trigger] tokens[i])
}

/// A run of bytes of one class holds only bytes of that class, and ends
/// inside the input.
pub proof fn lemma_span_holds(bytes: Seq<u8>, pos: int, class: Class)
    requires
        0 <= pos <= bytes.len(),
    ensures
        pos + span(bytes, pos, class) <= bytes.len(),
        forall|i: int|
            pos <= i < pos + span(bytes, pos, class) ==> in_class(class, #[trigger] bytes[i]),
    decreases bytes.len() - pos,
{
    if pos < bytes.len() && in_class(class, bytes[pos]) {
        lemma_span_holds(bytes, pos + 1, class);
    }
}

/// A run of bytes of one class that ends before a byte of another class,
/// or at the end of the input, spans exactly those bytes.
pub proof fn lemma_span_exact(bytes: Seq<u8>, from: int, to: int, class: Class)
    requires
        0 <= from <= to <= bytes.len(),
        forall|i: int| from <= i < to ==> in_class(class, #[trigger] bytes[i]),
        to == bytes.len() || !in_class(class, bytes[to]),
    ensures
        span(bytes, from, class) == to - from,
    decreases to - from,
{
    if from < to {
        lemma_span_exact(bytes, from + 1, to, class);
    }
}

/// The numeric literal that starts with the digit at `pos` is a numeric
/// literal.
proof fn lemma_number_is_lexeme(bytes: Seq<u8>, pos: int)
    requires
        0 <= pos < bytes.len(),
        is_digit(bytes[pos]),
    ensures
        pos + number_len(bytes, pos) <= bytes.len(),
        is_number_text(text(bytes, pos, pos + number_len(bytes, pos))),
{
    let whole = 1 + span(bytes, pos + 1, Class::Digit);
    lemma_span_holds(bytes, pos + 1, Class::Digit);
    let fraction = fraction_len(bytes, pos + whole);
    if fraction > 0 {
        lemma_span_holds(bytes, pos + whole + 2, Class::Digit);
    }
    let mark = pos + whole + fraction;
    let exponent = exponent_len(bytes, mark);
    if exponent > 0 {
        let sign: nat = if byte_at(bytes, mark + 1) == PLUS || byte_at(bytes, mark + 1) == MINUS {
            1
        } else {
            0
        };
        lemma_span_holds(bytes, mark + 2 + sign, Class::Digit);
    }
    let t = text(bytes, pos, pos + number_len(bytes, pos));
    assert(t.len() == whole + fraction + exponent);
    assert(digits(t, 0, whole as int));
    assert(is_number_split(t, whole as int, (whole + fraction) as int));
}

/// The token at a place is what its kind says, and lies inside the input.
proof fn lemma_token_is_lexeme(bytes: Seq<u8>, pos: int)
    requires
        0 <= pos < bytes.len() <= usize::MAX,
    ensures
        pos + token_at(bytes, pos).1 <= bytes.len(),
        is_lexeme(
            bytes,
            Token {
                kind: token_at(bytes, pos).0,
                start: pos as usize,
                end: (pos + token_at(bytes, pos).1) as usize,
            },
        ),
{
    let first = bytes[pos];
    if is_digit(first) {
        lemma_number_is_lexeme(bytes, pos);
    } else if is_name_start(first) {
        lemma_span_holds(bytes, pos + 1, Class::NamePart);
        let t = text(bytes, pos, pos + 1 + span(bytes, pos + 1, Class::NamePart));
        assert(is_name_text(t));
    }
}

/// Every token of an input is what its kind says, and lies inside the
/// input.
proof fn lemma_tokens_are_lexemes(bytes: Seq<u8>, pos: int)
    requires
        0 <= pos <= bytes.len() <= usize::MAX,
    ensures
        forall|i: int|
            0 <= i < tokens_from(bytes, pos).len() ==> is_lexeme(
                bytes,
                #[trigger] tokens_from(bytes, pos)[i],
            ),
    decreases rest(bytes, pos),
{
    lemma_span_holds(bytes, pos, Class::Space);
    let start = pos + span(bytes, pos, Class::Space);
    if start < bytes.len() {
        lemma_token_is_lexeme(bytes, start);
        let (kind, len) = token_at(bytes, start);
        if kind != TokenKind::Invalid {
            lemma_tokens_are_lexemes(bytes, start + len);
            let later = tokens_from(bytes, start + len);
            assert forall|i: int| 0 <= i < tokens_from(bytes, pos).len() implies is_lexeme(
                bytes,
                #[trigger] tokens_from(bytes, pos)[i],
            ) by {
                if i > 0 {
                    assert(tokens_from(bytes, pos)[i] == later[i - 1]);
                }
            }
        }
    }
}

/// Whether a sequence of tokens ends where reading ends: with the end of
/// the input or with an invalid byte.
pub open spec fn closed(tokens: Seq<Token>) -> bool {
    tokens.len() > 0 && (tokens.last().kind == TokenKind::End || tokens.last().kind
        == TokenKind::Invalid)
}

/// The tokens of an input end with the end of the input or with an invalid
/// byte.
proof fn lemma_tokens_are_closed(bytes: Seq<u8>, pos: int)
    ensures
        closed(tokens_from(bytes, pos)),
    decreases rest(bytes, pos),
{
    let start = pos + span(bytes, pos, Class::Space);
    if start < bytes.len() {
        let (kind, len) = token_at(bytes, start);
        if kind != TokenKind::Invalid {
            lemma_tokens_are_closed(bytes, start + len);
            let later = tokens_from(bytes, start + len);
            assert(tokens_from(bytes, pos).last() == later.last());
        }
    }
}

/// The tokens of an input end with the end of the input or with an invalid
/// byte.
pub proof fn law_tokens_are_closed(bytes: Seq<u8>)
    ensures
        closed(tokens(bytes)),
{
    lemma_tokens_are_closed(bytes, 0);
}

/// The bytes of every name among the tokens of an input are a name, and
/// those of every number a numeric literal.
pub proof fn law_tokens_are_lexemes(bytes: Seq<u8>)
    requires
        bytes.len() <= usize::MAX,
    ensures
        lexemes(bytes, tokens(bytes)),
{
    lemma_tokens_are_lexemes(bytes, 0);
}

/// Whether all bytes from `from` up to `to` are white space.
pub open spec fn blank(bytes: Seq<u8>, from: int, to: int) -> bool {
    forall|i: int| from <= i < to ==> in_class(Class::Space, #[trigger] bytes[i])
}

/// Whether tokens stand in a line in their order from `pos` on, with
/// nothing but white space before the first of them and between each two,
/// and each but the last of them at least one byte long and neither the
/// end of the input nor an invalid byte.
pub open spec fn tiles(bytes: Seq<u8>, pos: int, tokens: Seq<Token>) -> bool {
    &&& tokens.len() > 0
    &&& pos <= tokens[0].start
    &&& blank(bytes, pos, tokens[0].start as int)
    &&& forall|i: int|
        0 <= i < tokens.len() - 1 ==> {
            &&& (#[trigger] tokens[i]).start < tokens[i].end
            &&& tokens[i].kind != TokenKind::End
            &&& tokens[i].kind != TokenKind::Invalid
        }
    &&& forall|i: int, j: int|
        0 <= i && j == i + 1 && j < tokens.len() ==> {
            &&& (#[trigger] tokens[i]).end <= (#[trigger] tokens[j]).start
            &&& blank(bytes, tokens[i].end as int, tokens[j].start as int)
        }
}

/// The first token from a place on, and the tokens after it: the first
/// one starts after white space only, is at least one byte long and lies
/// inside the line.
proof fn lemma_first_token(bytes: Seq<u8>, pos: int)
    requires
        0 <= pos <= bytes.len() <= usize::MAX,
    ensures
        ({
            let all = tokens_from(bytes, pos);
            let first = all[0];
            &&& all.len() > 0
            &&& pos <= first.start <= first.end <= bytes.len()
            &&& blank(bytes, pos, first.start as int)
            &&& all.len() > 1 ==> {
                &&& first.start < first.end
                &&& first.kind != TokenKind::End
                &&& first.kind != TokenKind::Invalid
                &&& all == seq![first] + tokens_from(bytes, first.end as int)
            }
        }),
{
    lemma_span_holds(bytes, pos, Class::Space);
    let start = pos + span(bytes, pos, Class::Space);
    if start < bytes.len() {
        lemma_token_is_lexeme(bytes, start);
    }
}

/// The tokens from a place on stand in the line in their order, with
/// nothing but white space between them.
proof fn lemma_tokens_tile(bytes: Seq<u8>, pos: int)
    requires
        0 <= pos <= bytes.len() <= usize::MAX,
    ensures
        tiles(bytes, pos, tokens_from(bytes, pos)),
    decreases tokens_from(bytes, pos).len(),
{
    lemma_first_token(bytes, pos);
    let all = tokens_from(bytes, pos);
    if all.len() > 1 {
        let later = tokens_from(bytes, all[0].end as int);
        assert(later.len() == all.len() - 1);
        lemma_tokens_tile(bytes, all[0].end as int);
        assert forall|i: int| 0 <= i < all.len() - 1 implies {
            &&& (#[trigger] all[i]).start < all[i].end
            &&& all[i].kind != TokenKind::End
            &&& all[i].kind != TokenKind::Invalid
        } by {
            if i > 0 {
                assert(all[i] == later[i - 1]);
            }
        }
        assert forall|i: int, j: int| 0 <= i && j == i + 1 && j < all.len() implies {
            &&& (#[trigger] all[i]).end <= (#[trigger] all[j]).start
            &&& blank(bytes, all[i].end as int, all[j].start as int)
        } by {
            assert(all[j] == later[j - 1]);
            if i > 0 {
                assert(all[i] == later[i - 1]);
            }
        }
    }
}

/// The tokens of a line stand in it in their order. What lies before the
/// first and between each two is white space and nothing else, so no byte
/// of the line before its last token is passed over but white space.
pub proof fn law_only_white_space_is_skipped(bytes: Seq<u8>)
    requires
        bytes.len() <= usize::MAX,
    ensures
        tiles(bytes, 0, tokens(bytes)),
{
    lemma_tokens_tile(bytes, 0);
}

} // verus!
