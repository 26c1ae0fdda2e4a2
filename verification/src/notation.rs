//! The grammar read backwards: how an expression is written down, and the
//! proof that what is written down parses to the expression it was written
//! from.
//!
//! [`written`] writes an expression as a sequence of words with as few
//! parentheses as the grammar allows: an operand stands bare where its own
//! operator binds at least as tightly as the place asks for, and in
//! parentheses everywhere else. [`law_written_is_parsed`] states that the
//! grammar inverts it. Precedence and associativity are cases of that law:
//! `a * b + c` is how the sum of a product is written, and `a - b - c` how a
//! difference is written whose left operand is a difference.
use vstd::prelude::*;
use crate::ast::{Ast, Operator};
use crate::lexer::{Token, TokenKind};
use crate::parser::{
    advance, arguments, chain, infix, peek, phrase, primary, sentence, Level, SyntaxError,
};
use crate::text::text;

verus! {

/// A token as it is written: its kind, and its text where it is a number or
/// a name.
pub struct Word {
    pub kind: TokenKind,
    pub text: Seq<char>,
}

/// The word of an operator or a punctuation mark.
pub open spec fn sign(kind: TokenKind) -> Word {
    Word { kind, text: Seq::empty() }
}

/// The level at which an infix operator joins its operands.
pub open spec fn level_of(op: Operator) -> Level {
    match op {
        Operator::OR => Level::LogicOr,
        Operator::AND => Level::LogicAnd,
        Operator::EQ | Operator::NEQ => Level::Equality,
        Operator::LT | Operator::GT | Operator::LE | Operator::GE => Level::Relational,
        Operator::ADD | Operator::SUB => Level::Additive,
        _ => Level::Multiplicative,
    }
}

/// The token of an infix operator.
pub open spec fn infix_token(op: Operator) -> TokenKind {
    match op {
        Operator::ADD => TokenKind::Plus,
        Operator::SUB => TokenKind::Minus,
        Operator::MUL => TokenKind::Star,
        Operator::DIV => TokenKind::Slash,
        Operator::REM => TokenKind::Percent,
        Operator::AND => TokenKind::AndAnd,
        Operator::OR => TokenKind::OrOr,
        Operator::NOT => TokenKind::Bang,
        Operator::EQ => TokenKind::EqualEqual,
        Operator::NEQ => TokenKind::BangEqual,
        Operator::LT => TokenKind::Less,
        Operator::GT => TokenKind::Greater,
        Operator::LE => TokenKind::LessEqual,
        Operator::GE => TokenKind::GreaterEqual,
    }
}

/// The token of a prefix operator.
pub open spec fn prefix_token(op: Operator) -> TokenKind {
    if op == Operator::NOT {
        TokenKind::Bang
    } else {
        TokenKind::Minus
    }
}

/// The level of the grammar to which an expression belongs by its
/// outermost node.
pub open spec fn own_level(e: Ast) -> Level {
    match e {
        Ast::Binary(_, op, _) => level_of(op),
        Ast::Ternary(_, _, _) => Level::Conditional,
        _ => Level::Factor,
    }
}

/// An expression as an operand of a level: bare where it belongs to that
/// level or a tighter one, in parentheses where it belongs to a weaker one.
pub open spec fn written(e: Ast, level: Level) -> Seq<Word>
    decreases e, 1nat,
{
    if own_level(e).height() > level.height() {
        seq![sign(TokenKind::LeftParen)] + bare(e) + seq![sign(TokenKind::RightParen)]
    } else {
        bare(e)
    }
}

/// An expression without parentheses around it.
pub open spec fn bare(e: Ast) -> Seq<Word>
    decreases e, 0nat,
{
    match e {
        Ast::Number(lexeme) => seq![Word { kind: TokenKind::Number, text: lexeme }],
        Ast::Variable(name) => seq![Word { kind: TokenKind::Name, text: name }],
        Ast::Unary(op, operand) => seq![sign(prefix_token(op))] + written(*operand, Level::Factor),
        Ast::Binary(left, op, right) => written(*left, level_of(op)) + seq![sign(infix_token(op))]
            + written(*right, level_of(op).tighter_spec()),
        Ast::Ternary(condition, then, otherwise) => written(*condition, Level::LogicOr)
            + seq![sign(TokenKind::Question)] + written(*then, Level::Conditional)
            + seq![sign(TokenKind::Colon)] + written(*otherwise, Level::Conditional),
        Ast::Function(name, args) => seq![
            Word { kind: TokenKind::Name, text: name },
            sign(TokenKind::LeftParen),
        ] + listed(args, 0) + seq![sign(TokenKind::RightParen)],
    }
}

/// The arguments of a call from the one at `from` on, with a comma between
/// each two.
pub open spec fn listed(args: Seq<Ast>, from: nat) -> Seq<Word>
    decreases args, args.len() - from,
{
    if from >= args.len() {
        Seq::empty()
    } else if from + 1 == args.len() {
        written(args[from as int], Level::Conditional)
    } else {
        written(args[from as int], Level::Conditional) + seq![sign(TokenKind::Comma)] + listed(
            args,
            from + 1,
        )
    }
}

/// Whether a token is a word: of its kind and, where it is a number or a
/// name, with its text.
pub open spec fn reads_word(bytes: Seq<u8>, token: Token, word: Word) -> bool {
    &&& token.kind == word.kind
    &&& token.kind == TokenKind::Number || token.kind == TokenKind::Name ==> text(
        bytes,
        token.start as int,
        token.end as int,
    ) == word.text
}

/// Whether the tokens from `pos` on are the given words.
pub open spec fn reads(bytes: Seq<u8>, tokens: Seq<Token>, pos: int, words: Seq<Word>) -> bool {
    forall|i: int|
        0 <= i < words.len() ==> reads_word(bytes, peek(tokens, pos + i), #[trigger] words[i])
}

/// The level at which a token joins two operands, if it does.
pub open spec fn joins_at(kind: TokenKind) -> Option<Level> {
    match kind {
        TokenKind::OrOr => Some(Level::LogicOr),
        TokenKind::AndAnd => Some(Level::LogicAnd),
        TokenKind::EqualEqual | TokenKind::BangEqual => Some(Level::Equality),
        TokenKind::Less | TokenKind::Greater => Some(Level::Relational),
        TokenKind::LessEqual | TokenKind::GreaterEqual => Some(Level::Relational),
        TokenKind::Plus | TokenKind::Minus => Some(Level::Additive),
        TokenKind::Star | TokenKind::Slash | TokenKind::Percent => Some(Level::Multiplicative),
        _ => None,
    }
}

/// Whether a token ends an operand of a level: it opens no call, joins no
/// operands of a tighter level, and after a conditional starts no further
/// one.
pub open spec fn ends(level: Level, kind: TokenKind) -> bool {
    &&& kind != TokenKind::LeftParen
    &&& joins_at(kind) matches Some(j) ==> j.height() >= level.height()
    &&& level == Level::Conditional ==> kind != TokenKind::Question
}

/// What a level does with an operand `e` that ends at token `pos`: an infix
/// level goes on with its chain, the others are done.
pub open spec fn after(
    bytes: Seq<u8>,
    tokens: Seq<Token>,
    pos: int,
    level: Level,
    e: Ast,
) -> Result<(Ast, nat), SyntaxError> {
    if level.is_infix() {
        chain(bytes, tokens, pos, level, e)
    } else {
        Ok((e, 0))
    }
}

/// Words read one after the other are read as one sequence.
proof fn lemma_reads_both(
    bytes: Seq<u8>,
    tokens: Seq<Token>,
    pos: int,
    first: Seq<Word>,
    second: Seq<Word>,
)
    ensures
        reads(bytes, tokens, pos, first + second) <==> reads(bytes, tokens, pos, first) && reads(
            bytes,
            tokens,
            pos + first.len(),
            second,
        ),
{
    let both = first + second;
    if reads(bytes, tokens, pos, both) {
        assert forall|i: int| 0 <= i < first.len() implies reads_word(
            bytes,
            peek(tokens, pos + i),
            #[trigger] first[i],
        ) by {
            assert(both[i] == first[i]);
        }
        assert forall|i: int| 0 <= i < second.len() implies reads_word(
            bytes,
            peek(tokens, pos + first.len() + i),
            #[trigger] second[i],
        ) by {
            assert(both[first.len() + i] == second[i]);
        }
    }
    if reads(bytes, tokens, pos, first) && reads(bytes, tokens, pos + first.len(), second) {
        assert forall|i: int| 0 <= i < both.len() implies reads_word(
            bytes,
            peek(tokens, pos + i),
            #[trigger] both[i],
        ) by {
            if i < first.len() {
                assert(both[i] == first[i]);
            } else {
                assert(both[i] == second[i - first.len()]);
            }
        }
    }
}

/// What is written starts with a number, a name, a parenthesis or a prefix
/// operator.
proof fn lemma_first_word(e: Ast, level: Level)
    requires
        e.well_formed(),
    ensures
        written(e, level).len() > 0,
        bare(e).len() > 0,
        ({
            let kind = written(e, level)[0].kind;
            kind == TokenKind::Number || kind == TokenKind::Name || kind == TokenKind::LeftParen
                || kind == TokenKind::Bang || kind == TokenKind::Minus
        }),
        ({
            let kind = bare(e)[0].kind;
            kind == TokenKind::Number || kind == TokenKind::Name || kind == TokenKind::LeftParen
                || kind == TokenKind::Bang || kind == TokenKind::Minus
        }),
    decreases e,
{
    match e {
        Ast::Binary(left, op, _) => {
            lemma_first_word(*left, level_of(op));
        },
        Ast::Ternary(condition, _, _) => {
            lemma_first_word(*condition, Level::LogicOr);
        },
        _ => {},
    }
}

/// An operand of a level is an operand of every weaker level, as long as
/// the token that follows it ends it there.
proof fn lemma_rise(
    bytes: Seq<u8>,
    tokens: Seq<Token>,
    pos: int,
    len: nat,
    e: Ast,
    from: Level,
    to: Level,
)
    requires
        from.height() <= to.height(),
        phrase(bytes, tokens, pos, from) == advance(after(bytes, tokens, pos + len, from, e), len),
        ends(to, peek(tokens, pos + len).kind),
    ensures
        phrase(bytes, tokens, pos, to) == advance(after(bytes, tokens, pos + len, to, e), len),
    decreases to.height(),
{
    if from != to {
        let below = to.tighter_spec();
        lemma_rise(bytes, tokens, pos, len, e, from, below);
        assert(after(bytes, tokens, pos + len, below, e) == Ok::<(Ast, nat), SyntaxError>((e, 0)));
        assert(phrase(bytes, tokens, pos, below) == Ok::<(Ast, nat), SyntaxError>((e, len)));
    }
}

/// What is written as an operand of a level is read back as that operand.
proof fn lemma_written(bytes: Seq<u8>, tokens: Seq<Token>, pos: int, e: Ast, level: Level)
    requires
        e.well_formed(),
        reads(bytes, tokens, pos, written(e, level)),
        ends(level, peek(tokens, pos + written(e, level).len()).kind),
    ensures
        phrase(bytes, tokens, pos, level) == advance(
            after(bytes, tokens, pos + written(e, level).len(), level, e),
            written(e, level).len(),
        ),
    decreases e, 2nat,
{
    let own = own_level(e);
    if own.height() > level.height() {
        let inner = bare(e);
        let open = seq![sign(TokenKind::LeftParen)];
        let close = seq![sign(TokenKind::RightParen)];
        lemma_reads_both(bytes, tokens, pos, open + inner, close);
        lemma_reads_both(bytes, tokens, pos, open, inner);
        assert(reads_word(bytes, peek(tokens, pos + 0), open[0]));
        assert(reads_word(bytes, peek(tokens, pos + 1 + inner.len() + 0), close[0]));
        lemma_bare(bytes, tokens, pos + 1, e);
        lemma_rise(bytes, tokens, pos + 1, inner.len(), e, own, Level::Conditional);
        assert(phrase(bytes, tokens, pos + 1, Level::Conditional) == Ok::<(Ast, nat), SyntaxError>(
            (e, inner.len()),
        ));
        assert(primary(bytes, tokens, pos) == Ok::<(Ast, nat), SyntaxError>(
            (e, inner.len() + 2),
        ));
        assert(phrase(bytes, tokens, pos, Level::Factor) == primary(bytes, tokens, pos));
        lemma_rise(bytes, tokens, pos, inner.len() + 2, e, Level::Factor, level);
    } else {
        lemma_bare(bytes, tokens, pos, e);
        lemma_rise(bytes, tokens, pos, bare(e).len(), e, own, level);
    }
}

/// What is written without parentheses is read back at its own level.
proof fn lemma_bare(bytes: Seq<u8>, tokens: Seq<Token>, pos: int, e: Ast)
    requires
        e.well_formed(),
        reads(bytes, tokens, pos, bare(e)),
        ends(own_level(e), peek(tokens, pos + bare(e).len()).kind),
    ensures
        phrase(bytes, tokens, pos, own_level(e)) == advance(
            after(bytes, tokens, pos + bare(e).len(), own_level(e), e),
            bare(e).len(),
        ),
    decreases e, 1nat,
{
    match e {
        Ast::Number(_) => lemma_bare_leaf(bytes, tokens, pos, e),
        Ast::Variable(_) => lemma_bare_leaf(bytes, tokens, pos, e),
        Ast::Unary(_, _) => lemma_bare_prefix(bytes, tokens, pos, e),
        Ast::Binary(_, _, _) => lemma_bare_infix(bytes, tokens, pos, e),
        Ast::Ternary(_, _, _) => lemma_bare_conditional(bytes, tokens, pos, e),
        Ast::Function(_, _) => lemma_bare_call(bytes, tokens, pos, e),
    }
}

/// A number or a name alone is read back as it is.
proof fn lemma_bare_leaf(bytes: Seq<u8>, tokens: Seq<Token>, pos: int, e: Ast)
    requires
        e.well_formed(),
        reads(bytes, tokens, pos, bare(e)),
        ends(own_level(e), peek(tokens, pos + bare(e).len()).kind),
        e is Number || e is Variable,
    ensures
        phrase(bytes, tokens, pos, own_level(e)) == advance(
            after(bytes, tokens, pos + bare(e).len(), own_level(e), e),
            bare(e).len(),
        ),
{
    assert(reads_word(bytes, peek(tokens, pos + 0), bare(e)[0]));
    assert(bare(e).len() == 1);
    assert(primary(bytes, tokens, pos) == Ok::<(Ast, nat), SyntaxError>((e, 1)));
    assert(phrase(bytes, tokens, pos, Level::Factor) == primary(bytes, tokens, pos));
}

/// A prefix operator before its operand is read back as that operation.
proof fn lemma_bare_prefix(bytes: Seq<u8>, tokens: Seq<Token>, pos: int, e: Ast)
    requires
        e.well_formed(),
        reads(bytes, tokens, pos, bare(e)),
        ends(own_level(e), peek(tokens, pos + bare(e).len()).kind),
        e is Unary,
    ensures
        phrase(bytes, tokens, pos, own_level(e)) == advance(
            after(bytes, tokens, pos + bare(e).len(), own_level(e), e),
            bare(e).len(),
        ),
    decreases e, 0nat,
{
    let op = e->Unary_0;
    let operand = *e->Unary_1;
    let head = seq![sign(prefix_token(op))];
    let tail = written(operand, Level::Factor);
    lemma_reads_both(bytes, tokens, pos, head, tail);
    assert(reads_word(bytes, peek(tokens, pos + 0), head[0]));
    lemma_written(bytes, tokens, pos + 1, operand, Level::Factor);
}

/// Two operands with their operator between them are read back as that
/// operation: the chain of the operator's level, which has read the left
/// operand, goes on with the operator and the right operand.
proof fn lemma_bare_infix(bytes: Seq<u8>, tokens: Seq<Token>, pos: int, e: Ast)
    requires
        e.well_formed(),
        reads(bytes, tokens, pos, bare(e)),
        ends(own_level(e), peek(tokens, pos + bare(e).len()).kind),
        e is Binary,
    ensures
        phrase(bytes, tokens, pos, own_level(e)) == advance(
            after(bytes, tokens, pos + bare(e).len(), own_level(e), e),
            bare(e).len(),
        ),
    decreases e, 0nat,
{
    let left = *e->Binary_0;
    let op = e->Binary_1;
    let right = *e->Binary_2;
    let level = level_of(op);
    let first = written(left, level);
    let middle = seq![sign(infix_token(op))];
    let last = written(right, level.tighter_spec());
    lemma_reads_both(bytes, tokens, pos, first + middle, last);
    lemma_reads_both(bytes, tokens, pos, first, middle);
    assert(reads_word(bytes, peek(tokens, pos + first.len() + 0), middle[0]));
    lemma_written(bytes, tokens, pos, left, level);
    let at = pos + first.len();
    assert(infix(level, peek(tokens, at).kind) == Some(op));
    lemma_written(bytes, tokens, at + 1, right, level.tighter_spec());
    assert(after(bytes, tokens, at + 1 + last.len(), level.tighter_spec(), right) == Ok::<
        (Ast, nat),
        SyntaxError,
    >((right, 0)));
    assert(phrase(bytes, tokens, at + 1, level.tighter_spec()) == Ok::<(Ast, nat), SyntaxError>(
        (right, last.len()),
    ));
    assert(chain(bytes, tokens, at, level, left) == advance(
        chain(bytes, tokens, at + 1 + last.len(), level, e),
        1 + last.len(),
    ));
}

/// A condition, `?`, a branch, `:` and a branch are read back as that
/// conditional.
proof fn lemma_bare_conditional(bytes: Seq<u8>, tokens: Seq<Token>, pos: int, e: Ast)
    requires
        e.well_formed(),
        reads(bytes, tokens, pos, bare(e)),
        ends(own_level(e), peek(tokens, pos + bare(e).len()).kind),
        e is Ternary,
    ensures
        phrase(bytes, tokens, pos, own_level(e)) == advance(
            after(bytes, tokens, pos + bare(e).len(), own_level(e), e),
            bare(e).len(),
        ),
    decreases e, 0nat,
{
    let condition = *e->Ternary_0;
    let then = *e->Ternary_1;
    let otherwise = *e->Ternary_2;
    let a = written(condition, Level::LogicOr);
    let q = seq![sign(TokenKind::Question)];
    let b = written(then, Level::Conditional);
    let c = seq![sign(TokenKind::Colon)];
    let d = written(otherwise, Level::Conditional);
    lemma_reads_both(bytes, tokens, pos, a + q + b + c, d);
    lemma_reads_both(bytes, tokens, pos, a + q + b, c);
    lemma_reads_both(bytes, tokens, pos, a + q, b);
    lemma_reads_both(bytes, tokens, pos, a, q);
    let mark = pos + a.len();
    let colon = mark + 1 + b.len();
    assert(reads_word(bytes, peek(tokens, mark + 0), q[0]));
    assert(reads_word(bytes, peek(tokens, colon + 0), c[0]));
    lemma_written(bytes, tokens, pos, condition, Level::LogicOr);
    assert(phrase(bytes, tokens, pos, Level::LogicOr) == Ok::<(Ast, nat), SyntaxError>(
        (condition, a.len()),
    ));
    lemma_written(bytes, tokens, mark + 1, then, Level::Conditional);
    lemma_written(bytes, tokens, colon + 1, otherwise, Level::Conditional);
}

/// A name, and its arguments in parentheses, are read back as that call.
proof fn lemma_bare_call(bytes: Seq<u8>, tokens: Seq<Token>, pos: int, e: Ast)
    requires
        e.well_formed(),
        reads(bytes, tokens, pos, bare(e)),
        ends(own_level(e), peek(tokens, pos + bare(e).len()).kind),
        e is Function,
    ensures
        phrase(bytes, tokens, pos, own_level(e)) == advance(
            after(bytes, tokens, pos + bare(e).len(), own_level(e), e),
            bare(e).len(),
        ),
    decreases e, 0nat,
{
    let name = e->Function_0;
    let args = e->Function_1;
    let head = seq![Word { kind: TokenKind::Name, text: name }, sign(TokenKind::LeftParen)];
    let list = listed(args, 0);
    let close = seq![sign(TokenKind::RightParen)];
    lemma_reads_both(bytes, tokens, pos, head + list, close);
    lemma_reads_both(bytes, tokens, pos, head, list);
    assert(reads_word(bytes, peek(tokens, pos + 0), head[0]));
    assert(reads_word(bytes, peek(tokens, pos + 1), head[1]));
    assert(reads_word(bytes, peek(tokens, pos + 2 + list.len() + 0), close[0]));
    assert(bare(e).len() == list.len() + 3);
    if args.len() == 0 {
        assert(args =~= Seq::<Ast>::empty());
    } else {
        lemma_first_word(args[0], Level::Conditional);
        assert(list[0] == written(args[0], Level::Conditional)[0]);
        assert(reads_word(bytes, peek(tokens, pos + 2 + 0), list[0]));
        lemma_listed(bytes, tokens, pos + 2, args, 0, Seq::empty());
        assert(Seq::<Ast>::empty() + args.subrange(0, args.len() as int) =~= args);
        assert(arguments(bytes, tokens, pos + 2, Seq::empty()) == Ok::<
            (Seq<Ast>, nat),
            SyntaxError,
        >((args, list.len() + 1)));
    }
    assert(primary(bytes, tokens, pos) == Ok::<(Ast, nat), SyntaxError>((e, list.len() + 3)));
    assert(phrase(bytes, tokens, pos, Level::Factor) == primary(bytes, tokens, pos));
}

/// The arguments that are written from the one at `from` on are read back
/// as those arguments, after the ones read before.
proof fn lemma_listed(
    bytes: Seq<u8>,
    tokens: Seq<Token>,
    pos: int,
    args: Seq<Ast>,
    from: nat,
    before: Seq<Ast>,
)
    requires
        from < args.len(),
        forall|i: int| 0 <= i < args.len() ==> (#[trigger] args[i]).well_formed(),
        reads(bytes, tokens, pos, listed(args, from)),
        peek(tokens, pos + listed(args, from).len()).kind == TokenKind::RightParen,
    ensures
        arguments(bytes, tokens, pos, before) == Ok::<(Seq<Ast>, nat), SyntaxError>(
            (before + args.subrange(from as int, args.len() as int), listed(args, from).len() + 1),
        ),
    decreases args, args.len() - from,
{
    let argument = args[from as int];
    let first = written(argument, Level::Conditional);
    if from + 1 == args.len() {
        lemma_written(bytes, tokens, pos, argument, Level::Conditional);
        assert(before + args.subrange(from as int, args.len() as int) =~= before.push(argument));
    } else {
        let comma = seq![sign(TokenKind::Comma)];
        let others = listed(args, from + 1);
        lemma_reads_both(bytes, tokens, pos, first + comma, others);
        lemma_reads_both(bytes, tokens, pos, first, comma);
        assert(reads_word(bytes, peek(tokens, pos + first.len() + 0), comma[0]));
        lemma_written(bytes, tokens, pos, argument, Level::Conditional);
        lemma_listed(bytes, tokens, pos + first.len() + 1, args, from + 1, before.push(argument));
        assert(before + args.subrange(from as int, args.len() as int) =~= before.push(argument)
            + args.subrange(from as int + 1, args.len() as int));
    }
}

/// A well-formed expression that is written down as an operand of a level,
/// and nothing after it, parses at that level to the expression itself.
/// So every well-formed expression can be written, and the parentheses
/// that [`written`] leaves out are those that the grammar does not need.
pub proof fn law_written_is_parsed(bytes: Seq<u8>, tokens: Seq<Token>, e: Ast, level: Level)
    requires
        e.well_formed(),
        reads(bytes, tokens, 0, written(e, level)),
        peek(tokens, written(e, level).len() as int).kind == TokenKind::End,
    ensures
        sentence(bytes, tokens, level) == Ok::<Ast, SyntaxError>(e),
{
    lemma_written(bytes, tokens, 0, e, level);
}

/// Whether an expression is a factor: a number, a name, a call or a prefix
/// operation. A factor is written without parentheses at every level.
pub open spec fn is_factor(e: Ast) -> bool {
    e is Number || e is Variable || e is Function || e is Unary
}

/// Precedence and associativity of the infix operators: three factors with
/// two operators between them, `x op y op' z`, group to the left, as
/// `(x op y) op' z`, unless the second operator binds tighter than the
/// first: then they group as `x op (y op' z)`.
pub proof fn law_infix_operators_group(
    bytes: Seq<u8>,
    tokens: Seq<Token>,
    x: Ast,
    first: Operator,
    y: Ast,
    second: Operator,
    z: Ast,
)
    requires
        x.well_formed() && y.well_formed() && z.well_formed(),
        is_factor(x) && is_factor(y) && is_factor(z),
        first != Operator::NOT && second != Operator::NOT,
        reads(
            bytes,
            tokens,
            0,
            bare(x) + seq![sign(infix_token(first))] + bare(y) + seq![sign(infix_token(second))]
                + bare(z),
        ),
        peek(tokens, (bare(x).len() + bare(y).len() + bare(z).len() + 2) as int).kind
            == TokenKind::End,
    ensures
        sentence(bytes, tokens, Level::Conditional) == Ok::<Ast, SyntaxError>(
            if level_of(second).height() < level_of(first).height() {
                Ast::Binary(
                    Box::new(x),
                    first,
                    Box::new(Ast::Binary(Box::new(y), second, Box::new(z))),
                )
            } else {
                Ast::Binary(
                    Box::new(Ast::Binary(Box::new(x), first, Box::new(y))),
                    second,
                    Box::new(z),
                )
            },
        ),
{
    let words = bare(x) + seq![sign(infix_token(first))] + bare(y) + seq![
        sign(infix_token(second)),
    ] + bare(z);
    if level_of(second).height() < level_of(first).height() {
        let inner = Ast::Binary(Box::new(y), second, Box::new(z));
        let whole = Ast::Binary(Box::new(x), first, Box::new(inner));
        assert(inner.well_formed());
        assert(whole.well_formed());
        assert(written(y, level_of(second)) == bare(y));
        assert(written(z, level_of(second).tighter_spec()) == bare(z));
        assert(bare(inner) == bare(y) + seq![sign(infix_token(second))] + bare(z));
        assert(written(inner, level_of(first).tighter_spec()) == bare(inner));
        assert(written(x, level_of(first)) == bare(x));
        assert(bare(whole) == bare(x) + seq![sign(infix_token(first))] + bare(inner));
        assert(written(whole, Level::Conditional) == bare(whole));
        assert(written(whole, Level::Conditional) =~= words);
        law_written_is_parsed(bytes, tokens, whole, Level::Conditional);
    } else {
        let inner = Ast::Binary(Box::new(x), first, Box::new(y));
        let whole = Ast::Binary(Box::new(inner), second, Box::new(z));
        assert(inner.well_formed());
        assert(whole.well_formed());
        assert(written(x, level_of(first)) == bare(x));
        assert(written(y, level_of(first).tighter_spec()) == bare(y));
        assert(bare(inner) == bare(x) + seq![sign(infix_token(first))] + bare(y));
        assert(written(inner, level_of(second)) == bare(inner));
        assert(written(z, level_of(second).tighter_spec()) == bare(z));
        assert(bare(whole) == bare(inner) + seq![sign(infix_token(second))] + bare(z));
        assert(written(whole, Level::Conditional) == bare(whole));
        assert(written(whole, Level::Conditional) =~= words);
        law_written_is_parsed(bytes, tokens, whole, Level::Conditional);
    }
}

/// Associativity of the conditional: `a ? b : c ? d : e`, over five
/// factors, is `a ? b : (c ? d : e)`.
pub proof fn law_conditionals_group_to_the_right(
    bytes: Seq<u8>,
    tokens: Seq<Token>,
    a: Ast,
    b: Ast,
    c: Ast,
    d: Ast,
    e: Ast,
)
    requires
        a.well_formed() && b.well_formed() && c.well_formed() && d.well_formed()
            && e.well_formed(),
        is_factor(a) && is_factor(b) && is_factor(c) && is_factor(d) && is_factor(e),
        reads(
            bytes,
            tokens,
            0,
            bare(a) + seq![sign(TokenKind::Question)] + bare(b) + seq![sign(TokenKind::Colon)]
                + bare(c) + seq![sign(TokenKind::Question)] + bare(d) + seq![
                sign(TokenKind::Colon),
            ] + bare(e),
        ),
        peek(
            tokens,
            (bare(a).len() + bare(b).len() + bare(c).len() + bare(d).len() + bare(e).len()
                + 4) as int,
        ).kind == TokenKind::End,
    ensures
        sentence(bytes, tokens, Level::Conditional) == Ok::<Ast, SyntaxError>(
            Ast::Ternary(
                Box::new(a),
                Box::new(b),
                Box::new(Ast::Ternary(Box::new(c), Box::new(d), Box::new(e))),
            ),
        ),
{
    let words = bare(a) + seq![sign(TokenKind::Question)] + bare(b) + seq![
        sign(TokenKind::Colon),
    ] + bare(c) + seq![sign(TokenKind::Question)] + bare(d) + seq![sign(TokenKind::Colon)]
        + bare(e);
    let inner = Ast::Ternary(Box::new(c), Box::new(d), Box::new(e));
    let whole = Ast::Ternary(Box::new(a), Box::new(b), Box::new(inner));
    assert(inner.well_formed());
    assert(whole.well_formed());
    assert(written(c, Level::LogicOr) == bare(c));
    assert(written(d, Level::Conditional) == bare(d));
    assert(written(e, Level::Conditional) == bare(e));
    assert(bare(inner) == bare(c) + seq![sign(TokenKind::Question)] + bare(d) + seq![
        sign(TokenKind::Colon),
    ] + bare(e));
    assert(written(inner, Level::Conditional) == bare(inner));
    assert(written(a, Level::LogicOr) == bare(a));
    assert(written(b, Level::Conditional) == bare(b));
    assert(bare(whole) == bare(a) + seq![sign(TokenKind::Question)] + bare(b) + seq![
        sign(TokenKind::Colon),
    ] + bare(inner));
    assert(written(whole, Level::Conditional) == bare(whole));
    assert(written(whole, Level::Conditional) =~= words);
    law_written_is_parsed(bytes, tokens, whole, Level::Conditional);
}

} // verus!
