//! From words to bytes: how a written expression is spelled as a line, and
//! the proof that the line parses to the expression.
use vstd::prelude::*;
use crate::ast::Ast;
use crate::lexer::{
    exponent_len, fraction_len, in_class, lemma_span_exact, number_len, span, token_at, tokens,
    tokens_from, Class, Token, TokenKind, AMPERSAND, BANG, BAR, COLON, COMMA, EQUAL, GREATER,
    LEFT_PAREN, LESS, MINUS, PERCENT, PLUS, QUESTION, RIGHT_PAREN, SLASH, SPACE, STAR,
};
use crate::notation::{
    bare, infix_token, law_written_is_parsed, level_of, listed, prefix_token, reads_word, sign,
    written, Word,
};
use crate::parser::{parsed, peek, Level, SyntaxError};
use crate::text::{digits, is_digit_char, is_name_text, is_number_split, is_number_text, text};

verus! {

/// The bytes of an operator or a punctuation mark.
pub open spec fn sign_bytes(kind: TokenKind) -> Seq<u8> {
    match kind {
        TokenKind::LeftParen => seq![LEFT_PAREN],
        TokenKind::RightParen => seq![RIGHT_PAREN],
        TokenKind::Comma => seq![COMMA],
        TokenKind::Question => seq![QUESTION],
        TokenKind::Colon => seq![COLON],
        TokenKind::Plus => seq![PLUS],
        TokenKind::Minus => seq![MINUS],
        TokenKind::Star => seq![STAR],
        TokenKind::Slash => seq![SLASH],
        TokenKind::Percent => seq![PERCENT],
        TokenKind::Bang => seq![BANG],
        TokenKind::Less => seq![LESS],
        TokenKind::Greater => seq![GREATER],
        TokenKind::LessEqual => seq![LESS, EQUAL],
        TokenKind::GreaterEqual => seq![GREATER, EQUAL],
        TokenKind::EqualEqual => seq![EQUAL, EQUAL],
        TokenKind::BangEqual => seq![BANG, EQUAL],
        TokenKind::AndAnd => seq![AMPERSAND, AMPERSAND],
        TokenKind::OrOr => seq![BAR, BAR],
        _ => Seq::empty(),
    }
}

/// The bytes of a text of ASCII characters.
pub open spec fn codes(t: Seq<char>) -> Seq<u8> {
    Seq::new(t.len(), |i: int| t[i] as u8)
}

/// The bytes of a word.
pub open spec fn word_bytes(word: Word) -> Seq<u8> {
    if word.kind == TokenKind::Number || word.kind == TokenKind::Name {
        codes(word.text)
    } else {
        sign_bytes(word.kind)
    }
}

/// The line that spells the words from the one at `from` on: each word,
/// and a space after it.
pub open spec fn spelled(words: Seq<Word>, from: nat) -> Seq<u8>
    decreases words.len() - from,
{
    if from >= words.len() {
        Seq::empty()
    } else {
        word_bytes(words[from as int]) + seq![SPACE] + spelled(words, from + 1)
    }
}

/// The line that spells an expression as an operand of a level.
pub open spec fn spelling(e: Ast, level: Level) -> Seq<u8> {
    spelled(written(e, level), 0)
}

/// Whether a word can be spelled: a number is a numeric literal, a name is
/// a name, and the word is neither the end of the input nor invalid.
pub open spec fn is_word(word: Word) -> bool {
    match word.kind {
        TokenKind::Number => is_number_text(word.text),
        TokenKind::Name => is_name_text(word.text),
        TokenKind::End => false,
        TokenKind::Invalid => false,
        _ => true,
    }
}

/// Whether all words of a sequence can be spelled.
pub open spec fn are_words(words: Seq<Word>) -> bool {
    forall|i: int| 0 <= i < words.len() ==> is_word(#[trigger] words[i])
}

/// Whether the bytes at `pos` are those of a word, with a space after them.
pub open spec fn stands_at(bytes: Seq<u8>, pos: int, word: Word) -> bool {
    let n = word_bytes(word).len();
    &&& 0 <= pos
    &&& pos + n < bytes.len()
    &&& forall|k: int| 0 <= k < n ==> bytes[pos + k] == #[trigger] word_bytes(word)[k]
    &&& bytes[pos + n] == SPACE
}

/// A name that stands in a line is the token at its place.
proof fn lemma_name_is_token(bytes: Seq<u8>, pos: int, word: Word)
    requires
        word.kind == TokenKind::Name,
        is_name_text(word.text),
        stands_at(bytes, pos, word),
    ensures
        token_at(bytes, pos) == (TokenKind::Name, word.text.len()),
        text(bytes, pos, pos + word.text.len()) == word.text,
{
    let t = word.text;
    let n = t.len() as int;
    assert forall|i: int| 0 <= i < n implies bytes[pos + i] == t[i] as u8 by {
        assert(word_bytes(word)[i] == t[i] as u8);
    }
    assert forall|i: int| pos + 1 <= i < pos + n implies in_class(
        Class::NamePart,
        #[trigger] bytes[i],
    ) by {
        assert(bytes[pos + (i - pos)] == t[i - pos] as u8);
    }
    lemma_span_exact(bytes, pos + 1, pos + n, Class::NamePart);
    assert(bytes[pos + 0] == t[0] as u8);
    assert(text(bytes, pos, pos + n) =~= t);
}

/// A numeric literal that stands in a line is the token at its place.
proof fn lemma_number_is_token(bytes: Seq<u8>, pos: int, word: Word)
    requires
        word.kind == TokenKind::Number,
        is_number_text(word.text),
        stands_at(bytes, pos, word),
    ensures
        token_at(bytes, pos) == (TokenKind::Number, word.text.len()),
        text(bytes, pos, pos + word.text.len()) == word.text,
{
    let t = word.text;
    let n = t.len() as int;
    let (a, b) = choose|a: int, b: int| is_number_split(t, a, b);
    assert forall|i: int| 0 <= i < n implies bytes[pos + i] == t[i] as u8 by {
        assert(word_bytes(word)[i] == t[i] as u8);
    }
    // The whole part.
    assert forall|i: int| pos + 1 <= i < pos + a implies in_class(
        Class::Digit,
        #[trigger] bytes[i],
    ) by {
        assert(bytes[pos + (i - pos)] == t[i - pos] as u8);
    }
    assert(bytes[pos + 0] == t[0] as u8);
    if a < n {
        assert(bytes[pos + a] == t[a] as u8);
    }
    lemma_span_exact(bytes, pos + 1, pos + a, Class::Digit);
    assert(1 + span(bytes, pos + 1, Class::Digit) == a);
    // The fraction.
    if b > a {
        assert forall|i: int| pos + a + 2 <= i < pos + b implies in_class(
            Class::Digit,
            #[trigger] bytes[i],
        ) by {
            assert(bytes[pos + (i - pos)] == t[i - pos] as u8);
        }
        assert(bytes[pos + (a + 1)] == t[a + 1] as u8);
        if b < n {
            assert(bytes[pos + b] == t[b] as u8);
        }
        lemma_span_exact(bytes, pos + a + 2, pos + b, Class::Digit);
    }
    assert(fraction_len(bytes, pos + a) == b - a);
    // The exponent.
    if b < n {
        assert(bytes[pos + b] == t[b] as u8);
        assert(bytes[pos + (b + 1)] == t[b + 1] as u8);
        let s: int = if digits(t, b + 1, n) {
            0
        } else {
            1
        };
        assert forall|i: int| pos + b + 2 + s <= i < pos + n implies in_class(
            Class::Digit,
            #[trigger] bytes[i],
        ) by {
            assert(bytes[pos + (i - pos)] == t[i - pos] as u8);
        }
        assert(bytes[pos + (b + 1 + s)] == t[b + 1 + s] as u8);
        lemma_span_exact(bytes, pos + b + 2 + s, pos + n, Class::Digit);
    }
    assert(exponent_len(bytes, pos + b) == n - b);
    assert(number_len(bytes, pos) == n);
    assert forall|i: int| 0 <= i < n implies (t[i] as u8) as char == #[trigger] t[i] by {
        if a < i < b || i > b + 1 {
            assert(is_digit_char(t[i]));
        }
    }
    assert(text(bytes, pos, pos + n) =~= t);
}

/// A word that stands in a line is the token at its place, and reads as
/// that word.
proof fn lemma_word_is_token(bytes: Seq<u8>, pos: int, word: Word)
    requires
        is_word(word),
        stands_at(bytes, pos, word),
    ensures
        word_bytes(word).len() > 0,
        span(bytes, pos, Class::Space) == 0,
        token_at(bytes, pos) == (word.kind, word_bytes(word).len()),
        word.kind == TokenKind::Number || word.kind == TokenKind::Name ==> text(
            bytes,
            pos,
            pos + word_bytes(word).len(),
        ) == word.text,
{
    if word.kind == TokenKind::Number {
        lemma_number_is_token(bytes, pos, word);
        let (a, b) = choose|a: int, b: int| is_number_split(word.text, a, b);
        assert(bytes[pos + 0] == word_bytes(word)[0]);
    } else if word.kind == TokenKind::Name {
        lemma_name_is_token(bytes, pos, word);
        assert(bytes[pos + 0] == word_bytes(word)[0]);
    } else {
        let n = word_bytes(word).len();
        assert(bytes[pos + 0] == word_bytes(word)[0]);
        if n == 2 {
            assert(bytes[pos + 1] == word_bytes(word)[1]);
        }
    }
}

/// White space before a token belongs to no token.
proof fn lemma_space_is_skipped(bytes: Seq<u8>, pos: int)
    requires
        0 <= pos < bytes.len(),
        bytes[pos] == SPACE,
    ensures
        tokens_from(bytes, pos) == tokens_from(bytes, pos + 1),
{
}

/// The tokens of a line that spells words are those words, and then the
/// end of the input.
proof fn lemma_spelled_is_read(bytes: Seq<u8>, pos: int, words: Seq<Word>, from: nat)
    requires
        bytes.len() <= usize::MAX,
        0 <= pos <= bytes.len(),
        from <= words.len(),
        are_words(words),
        bytes.subrange(pos, bytes.len() as int) == spelled(words, from),
    ensures
        tokens_from(bytes, pos).len() == words.len() - from + 1,
        forall|j: int|
            0 <= j < words.len() - from ==> reads_word(
                bytes,
                tokens_from(bytes, pos)[j],
                #[trigger] words[from + j],
            ),
        tokens_from(bytes, pos)[words.len() - from].kind == TokenKind::End,
    decreases words.len() - from,
{
    let tail = bytes.subrange(pos, bytes.len() as int);
    if from < words.len() {
        let word = words[from as int];
        let n = word_bytes(word).len();
        let later = spelled(words, from + 1);
        assert(tail == word_bytes(word) + seq![SPACE] + later);
        assert(tail.len() == n + 1 + later.len());
        assert forall|k: int| 0 <= k < n implies bytes[pos + k] == #[trigger] word_bytes(word)[k] by {
            assert(tail[k] == bytes[pos + k]);
        }
        assert(bytes[pos + n] == SPACE) by {
            assert(tail[n as int] == bytes[pos + n]);
        }
        assert(stands_at(bytes, pos, word));
        lemma_word_is_token(bytes, pos, word);
        lemma_space_is_skipped(bytes, pos + n);
        assert(bytes.subrange(pos + n + 1, bytes.len() as int) =~= later) by {
            assert forall|k: int| 0 <= k < later.len() implies bytes[pos + n + 1 + k]
                == later[k] by {
                assert(tail[n + 1 + k] == bytes[pos + n + 1 + k]);
                assert(tail[n + 1 + k] == later[k]);
            }
        }
        lemma_spelled_is_read(bytes, pos + n + 1, words, from + 1);
        let first = Token { kind: word.kind, start: pos as usize, end: (pos + n) as usize };
        let others = tokens_from(bytes, pos + n + 1);
        assert(tokens_from(bytes, pos) == seq![first] + others);
        assert forall|j: int| 0 <= j < words.len() - from implies reads_word(
            bytes,
            tokens_from(bytes, pos)[j],
            #[trigger] words[from + j],
        ) by {
            if j > 0 {
                assert(tokens_from(bytes, pos)[j] == others[j - 1]);
                assert(reads_word(bytes, others[j - 1], words[from + 1 + (j - 1)]));
            }
        }
    } else {
        assert(tail.len() == 0);
    }
}

/// Words put together can be spelled where each part can.
proof fn lemma_words_both(first: Seq<Word>, second: Seq<Word>)
    requires
        are_words(first),
        are_words(second),
    ensures
        are_words(first + second),
{
    assert forall|i: int| 0 <= i < (first + second).len() implies is_word(
        #[trigger] (first + second)[i],
    ) by {
        if i >= first.len() {
            assert((first + second)[i] == second[i - first.len()]);
        }
    }
}

/// A single mark can be spelled.
proof fn lemma_mark_is_word(kind: TokenKind)
    requires
        kind != TokenKind::Number,
        kind != TokenKind::Name,
        kind != TokenKind::End,
        kind != TokenKind::Invalid,
    ensures
        are_words(seq![sign(kind)]),
{
}

/// What is written of a well-formed expression can be spelled.
proof fn lemma_written_is_words(e: Ast, level: Level)
    requires
        e.well_formed(),
    ensures
        are_words(written(e, level)),
        are_words(bare(e)),
    decreases e, 0nat,
{
    match e {
        Ast::Number(_) => {},
        Ast::Variable(_) => {},
        Ast::Unary(op, operand) => {
            lemma_written_is_words(*operand, Level::Factor);
            lemma_mark_is_word(prefix_token(op));
            lemma_words_both(
                seq![sign(prefix_token(op))],
                written(*operand, Level::Factor),
            );
        },
        Ast::Binary(left, op, right) => {
            let level = level_of(op);
            lemma_written_is_words(*left, level);
            lemma_written_is_words(*right, level.tighter_spec());
            lemma_mark_is_word(infix_token(op));
            lemma_words_both(written(*left, level), seq![sign(infix_token(op))]);
            lemma_words_both(
                written(*left, level) + seq![sign(infix_token(op))],
                written(*right, level.tighter_spec()),
            );
        },
        Ast::Ternary(condition, then, otherwise) => {
            let a = written(*condition, Level::LogicOr);
            let q = seq![sign(TokenKind::Question)];
            let b = written(*then, Level::Conditional);
            let c = seq![sign(TokenKind::Colon)];
            let d = written(*otherwise, Level::Conditional);
            lemma_written_is_words(*condition, Level::LogicOr);
            lemma_written_is_words(*then, Level::Conditional);
            lemma_written_is_words(*otherwise, Level::Conditional);
            lemma_words_both(a, q);
            lemma_words_both(a + q, b);
            lemma_words_both(a + q + b, c);
            lemma_words_both(a + q + b + c, d);
        },
        Ast::Function(name, args) => {
            let head = seq![Word { kind: TokenKind::Name, text: name }, sign(TokenKind::LeftParen)];
            lemma_listed_is_words(args, 0);
            lemma_words_both(head, listed(args, 0));
            lemma_words_both(head + listed(args, 0), seq![sign(TokenKind::RightParen)]);
        },
    }
    let open = seq![sign(TokenKind::LeftParen)];
    let close = seq![sign(TokenKind::RightParen)];
    lemma_words_both(open, bare(e));
    lemma_words_both(open + bare(e), close);
}

/// The written arguments of a well-formed call can be spelled.
proof fn lemma_listed_is_words(args: Seq<Ast>, from: nat)
    requires
        forall|i: int| 0 <= i < args.len() ==> (#[trigger] args[i]).well_formed(),
    ensures
        are_words(listed(args, from)),
    decreases args, args.len() - from,
{
    if from < args.len() {
        let first = written(args[from as int], Level::Conditional);
        lemma_written_is_words(args[from as int], Level::Conditional);
        if from + 1 < args.len() {
            lemma_listed_is_words(args, from + 1);
            lemma_words_both(first, seq![sign(TokenKind::Comma)]);
            lemma_words_both(first + seq![sign(TokenKind::Comma)], listed(args, from + 1));
        }
    }
}

/// Every well-formed expression has a line that parses to it: the line
/// that spells the expression as it is written. The law holds for every
/// level of the grammar, and for every line that the machine can hold.
pub proof fn law_spelling_is_parsed(e: Ast, level: Level)
    requires
        e.well_formed(),
        spelling(e, level).len() <= usize::MAX,
    ensures
        parsed(spelling(e, level), level) == Ok::<Ast, SyntaxError>(e),
{
    let words = written(e, level);
    let bytes = spelling(e, level);
    lemma_written_is_words(e, level);
    assert(bytes.subrange(0, bytes.len() as int) =~= bytes);
    lemma_spelled_is_read(bytes, 0, words, 0);
    assert forall|i: int| 0 <= i < words.len() implies reads_word(
        bytes,
        peek(tokens(bytes), 0 + i),
        #[trigger] words[i],
    ) by {
        assert(reads_word(bytes, tokens_from(bytes, 0)[i], words[0 + i]));
    }
    law_written_is_parsed(bytes, tokens(bytes), e, level);
}

} // verus!
