use calculator::{
    parse, parse_at, parse_bytes, tokenize, Expected, Expression, Level, MathFunction, Operator,
    SyntaxError, Token, TokenKind,
};

fn number(text: &str) -> Box<Expression> {
    Box::new(Expression::Number(text.to_string()))
}

fn variable(name: &str) -> Box<Expression> {
    Box::new(Expression::Variable(name.to_string()))
}

fn binary(left: Box<Expression>, op: Operator, right: Box<Expression>) -> Box<Expression> {
    Box::new(Expression::Binary(left, op, right))
}

fn kinds(line: &str) -> Vec<TokenKind> {
    tokenize(line.as_bytes()).iter().map(|t| t.kind).collect()
}

fn error(position: usize, found: TokenKind, expected: Expected) -> SyntaxError {
    SyntaxError { position, found, expected }
}

#[test]
fn tokens_are_the_longest_that_fit() {
    assert_eq!(kinds(""), vec![TokenKind::End]);
    assert_eq!(kinds("  \t\r\n "), vec![TokenKind::End]);
    assert_eq!(kinds("1"), vec![TokenKind::Number, TokenKind::End]);
    assert_eq!(
        kinds("<=<>=> ==!=!&&||"),
        vec![
            TokenKind::LessEqual,
            TokenKind::Less,
            TokenKind::GreaterEqual,
            TokenKind::Greater,
            TokenKind::EqualEqual,
            TokenKind::BangEqual,
            TokenKind::Bang,
            TokenKind::AndAnd,
            TokenKind::OrOr,
            TokenKind::End
        ]
    );
    assert_eq!(
        kinds("( ) , ? : + - * / %"),
        vec![
            TokenKind::LeftParen,
            TokenKind::RightParen,
            TokenKind::Comma,
            TokenKind::Question,
            TokenKind::Colon,
            TokenKind::Plus,
            TokenKind::Minus,
            TokenKind::Star,
            TokenKind::Slash,
            TokenKind::Percent,
            TokenKind::End
        ]
    );
    assert_eq!(
        kinds("a1_b 1a"),
        vec![TokenKind::Name, TokenKind::Number, TokenKind::Name, TokenKind::End]
    );
    assert_eq!(
        kinds("1e5 1e 1e+ 1.e5 1.5.2"),
        vec![
            TokenKind::Number,
            TokenKind::Number,
            TokenKind::Name,
            TokenKind::Number,
            TokenKind::Name,
            TokenKind::Plus,
            TokenKind::Number,
            TokenKind::Invalid
        ]
    );
}

#[test]
fn tokens_carry_their_places() {
    assert_eq!(
        tokenize(b" 12.5e-3+ab"),
        vec![
            Token { kind: TokenKind::Number, start: 1, end: 8 },
            Token { kind: TokenKind::Plus, start: 8, end: 9 },
            Token { kind: TokenKind::Name, start: 9, end: 11 },
            Token { kind: TokenKind::End, start: 11, end: 11 },
        ]
    );
    assert_eq!(
        tokenize(b"2.5E+10"),
        vec![
            Token { kind: TokenKind::Number, start: 0, end: 7 },
            Token { kind: TokenKind::End, start: 7, end: 7 },
        ]
    );
}

#[test]
fn nothing_is_read_beyond_an_invalid_byte() {
    assert_eq!(
        tokenize(b"1 $ 2"),
        vec![
            Token { kind: TokenKind::Number, start: 0, end: 1 },
            Token { kind: TokenKind::Invalid, start: 2, end: 3 },
        ]
    );
    assert_eq!(kinds("a = b"), vec![TokenKind::Name, TokenKind::Invalid]);
    assert_eq!(kinds("a & b"), vec![TokenKind::Name, TokenKind::Invalid]);
    assert_eq!(kinds("a | b"), vec![TokenKind::Name, TokenKind::Invalid]);
    assert_eq!(kinds(".5"), vec![TokenKind::Invalid]);
    assert_eq!(kinds("\u{e9}"), vec![TokenKind::Invalid]);
    assert_eq!(kinds("\0"), vec![TokenKind::Invalid]);
}

#[test]
fn a_product_binds_tighter_than_a_sum() {
    assert_eq!(
        parse("1 * 2 + 3").unwrap(),
        *binary(
            binary(number("1"), Operator::MUL, number("2")),
            Operator::ADD,
            number("3")
        )
    );
    assert_eq!(
        parse("1 + 2 * 3").unwrap(),
        *binary(
            number("1"),
            Operator::ADD,
            binary(number("2"), Operator::MUL, number("3"))
        )
    );
}

#[test]
fn every_level_binds_tighter_than_the_one_before() {
    // a || b && c == d < e + f * -g
    let expected = binary(
        variable("a"),
        Operator::OR,
        binary(
            variable("b"),
            Operator::AND,
            binary(
                variable("c"),
                Operator::EQ,
                binary(
                    variable("d"),
                    Operator::LT,
                    binary(
                        variable("e"),
                        Operator::ADD,
                        binary(
                            variable("f"),
                            Operator::MUL,
                            Box::new(Expression::Unary(Operator::SUB, variable("g"))),
                        ),
                    ),
                ),
            ),
        ),
    );
    assert_eq!(parse("a || b && c == d < e + f * -g").unwrap(), *expected);
}

#[test]
fn infix_chains_lean_left() {
    assert_eq!(
        parse("8 - 3 - 2").unwrap(),
        *binary(
            binary(number("8"), Operator::SUB, number("3")),
            Operator::SUB,
            number("2")
        )
    );
    assert_eq!(
        parse("a < b < c").unwrap(),
        *binary(
            binary(variable("a"), Operator::LT, variable("b")),
            Operator::LT,
            variable("c")
        )
    );
    assert_eq!(
        parse("a % b / c * d").unwrap(),
        *binary(
            binary(
                binary(variable("a"), Operator::REM, variable("b")),
                Operator::DIV,
                variable("c")
            ),
            Operator::MUL,
            variable("d")
        )
    );
}

#[test]
fn conditionals_lean_right() {
    assert_eq!(
        parse("a ? b : c ? d : e").unwrap(),
        Expression::Ternary(
            variable("a"),
            variable("b"),
            Box::new(Expression::Ternary(variable("c"), variable("d"), variable("e")))
        )
    );
    assert_eq!(
        parse("a ? b ? c : d : e").unwrap(),
        Expression::Ternary(
            variable("a"),
            Box::new(Expression::Ternary(variable("b"), variable("c"), variable("d"))),
            variable("e")
        )
    );
}

#[test]
fn every_operator_has_its_tag() {
    let cases = [
        ("a + b", Operator::ADD),
        ("a - b", Operator::SUB),
        ("a * b", Operator::MUL),
        ("a / b", Operator::DIV),
        ("a % b", Operator::REM),
        ("a && b", Operator::AND),
        ("a || b", Operator::OR),
        ("a == b", Operator::EQ),
        ("a != b", Operator::NEQ),
        ("a < b", Operator::LT),
        ("a > b", Operator::GT),
        ("a <= b", Operator::LE),
        ("a >= b", Operator::GE),
    ];
    for (line, op) in cases {
        assert_eq!(
            parse(line).unwrap(),
            *binary(variable("a"), op, variable("b")),
            "{line}"
        );
    }
}

#[test]
fn prefix_operators_nest() {
    assert_eq!(
        parse("!-!a").unwrap(),
        Expression::Unary(
            Operator::NOT,
            Box::new(Expression::Unary(
                Operator::SUB,
                Box::new(Expression::Unary(Operator::NOT, variable("a")))
            ))
        )
    );
    assert_eq!(
        parse("1 - -2").unwrap(),
        *binary(
            number("1"),
            Operator::SUB,
            Box::new(Expression::Unary(Operator::SUB, number("2")))
        )
    );
}

#[test]
fn parentheses_stand_for_what_they_hold() {
    assert_eq!(parse("((a))").unwrap(), *variable("a"));
    assert_eq!(
        parse("(1 + 2) * 3").unwrap(),
        *binary(
            binary(number("1"), Operator::ADD, number("2")),
            Operator::MUL,
            number("3")
        )
    );
}

#[test]
fn calls_keep_their_arguments_in_order() {
    assert_eq!(
        parse("f()").unwrap(),
        Expression::Function("f".to_string(), vec![])
    );
    assert_eq!(
        parse("f ( a ? b : c , g(1), 2 )").unwrap(),
        Expression::Function(
            "f".to_string(),
            vec![
                Box::new(Expression::Ternary(variable("a"), variable("b"), variable("c"))),
                Box::new(Expression::Function("g".to_string(), vec![number("1")])),
                number("2"),
            ]
        )
    );
}

#[test]
fn white_space_is_ignored() {
    let spaced = parse(" \t1\n*\r2 +\x0b3\x0c").unwrap();
    assert_eq!(spaced, parse("1*2+3").unwrap());
}

#[test]
fn literals_are_kept_as_written() {
    assert_eq!(parse("2.5e10").unwrap(), *number("2.5e10"));
    assert_eq!(parse("007").unwrap(), *number("007"));
    assert_eq!(parse("1E-5").unwrap(), *number("1E-5"));
}

#[test]
fn a_name_is_a_variable() {
    for name in ["abc", "_", "_a1", "A", "sqrt", "e", "x_y_9"] {
        assert_eq!(parse(name).unwrap(), *variable(name), "{name}");
    }
}

#[test]
fn a_dangling_operator_is_an_error() {
    assert_eq!(
        parse("1 +"),
        Err(error(3, TokenKind::End, Expected::Operand))
    );
    assert_eq!(parse(""), Err(error(0, TokenKind::End, Expected::Operand)));
    assert_eq!(
        parse("   "),
        Err(error(3, TokenKind::End, Expected::Operand))
    );
    assert_eq!(
        parse("* 2"),
        Err(error(0, TokenKind::Star, Expected::Operand))
    );
    assert_eq!(
        parse("1 + * 2"),
        Err(error(4, TokenKind::Star, Expected::Operand))
    );
}

#[test]
fn what_follows_an_expression_must_continue_it() {
    assert_eq!(
        parse("1 2"),
        Err(error(2, TokenKind::Number, Expected::End))
    );
    assert_eq!(
        parse("a b"),
        Err(error(2, TokenKind::Name, Expected::End))
    );
    assert_eq!(
        parse("1)"),
        Err(error(1, TokenKind::RightParen, Expected::End))
    );
    assert_eq!(
        parse("1e"),
        Err(error(1, TokenKind::Name, Expected::End))
    );
    assert_eq!(
        parse("a : b"),
        Err(error(2, TokenKind::Colon, Expected::End))
    );
}

#[test]
fn parentheses_must_balance() {
    assert_eq!(
        parse("(1 + 2"),
        Err(error(6, TokenKind::End, Expected::RightParen))
    );
    assert_eq!(
        parse("(1 2)"),
        Err(error(3, TokenKind::Number, Expected::RightParen))
    );
    assert_eq!(
        parse("()"),
        Err(error(1, TokenKind::RightParen, Expected::Operand))
    );
    assert_eq!(
        parse("f(1"),
        Err(error(3, TokenKind::End, Expected::CommaOrRightParen))
    );
    assert_eq!(
        parse("f(1,)"),
        Err(error(4, TokenKind::RightParen, Expected::Operand))
    );
    assert_eq!(
        parse("f(,1)"),
        Err(error(2, TokenKind::Comma, Expected::Operand))
    );
    assert_eq!(
        parse("f(1 2)"),
        Err(error(4, TokenKind::Number, Expected::CommaOrRightParen))
    );
}

#[test]
fn a_conditional_needs_its_colon() {
    assert_eq!(
        parse("a ? b"),
        Err(error(5, TokenKind::End, Expected::Colon))
    );
    assert_eq!(
        parse("a ? b c"),
        Err(error(6, TokenKind::Name, Expected::Colon))
    );
    assert_eq!(
        parse("a ? : c"),
        Err(error(4, TokenKind::Colon, Expected::Operand))
    );
    assert_eq!(
        parse("a ? b :"),
        Err(error(7, TokenKind::End, Expected::Operand))
    );
}

#[test]
fn an_invalid_byte_is_an_error_where_it_is_reached() {
    assert_eq!(
        parse("1 + $"),
        Err(error(4, TokenKind::Invalid, Expected::Operand))
    );
    assert_eq!(
        parse("1 $ 2"),
        Err(error(2, TokenKind::Invalid, Expected::End))
    );
    assert_eq!(
        parse("a = b"),
        Err(error(2, TokenKind::Invalid, Expected::End))
    );
    assert_eq!(
        parse("1.5.2"),
        Err(error(3, TokenKind::Invalid, Expected::End))
    );
    assert_eq!(
        parse("\u{e9}t\u{e9}"),
        Err(error(0, TokenKind::Invalid, Expected::Operand))
    );
    // An earlier error wins over a later invalid byte.
    assert_eq!(
        parse("1 + * $"),
        Err(error(4, TokenKind::Star, Expected::Operand))
    );
}

#[test]
fn a_level_takes_no_weaker_operator() {
    assert_eq!(
        parse_at(Level::Multiplicative, "1 * 2").unwrap(),
        *binary(number("1"), Operator::MUL, number("2"))
    );
    assert_eq!(
        parse_at(Level::Multiplicative, "1 + 2"),
        Err(error(2, TokenKind::Plus, Expected::End))
    );
    assert_eq!(
        parse_at(Level::Factor, "1 * 2"),
        Err(error(2, TokenKind::Star, Expected::End))
    );
    assert_eq!(
        parse_at(Level::LogicOr, "a ? b : c"),
        Err(error(2, TokenKind::Question, Expected::End))
    );
    // Inside parentheses every level is open again.
    assert_eq!(
        parse_at(Level::Factor, "(1 + 2)").unwrap(),
        *binary(number("1"), Operator::ADD, number("2"))
    );
}

#[test]
fn bytes_and_text_parse_alike() {
    assert_eq!(
        parse_bytes(b"1 + 2", Level::Conditional),
        parse("1 + 2")
    );
    assert_eq!(
        parse_bytes(&[0x31, 0xff], Level::Conditional),
        Err(error(1, TokenKind::Invalid, Expected::End))
    );
}

#[test]
fn the_table_finds_each_function_by_its_name() {
    let all = [
        (MathFunction::Floor, "floor", 1),
        (MathFunction::Ceil, "ceil", 1),
        (MathFunction::Round, "round", 1),
        (MathFunction::Trunc, "trunc", 1),
        (MathFunction::Fract, "fract", 1),
        (MathFunction::Abs, "abs", 1),
        (MathFunction::Signum, "signum", 1),
        (MathFunction::MulAdd, "mul_add", 3),
        (MathFunction::DivEuclid, "div_euclid", 2),
        (MathFunction::RemEuclid, "rem_euclid", 2),
        (MathFunction::Powf, "powf", 2),
        (MathFunction::Sqrt, "sqrt", 1),
        (MathFunction::Exp, "exp", 1),
        (MathFunction::Exp2, "exp2", 1),
        (MathFunction::Ln, "ln", 1),
        (MathFunction::Log, "log", 2),
        (MathFunction::Log2, "log2", 1),
        (MathFunction::Log10, "log10", 1),
        (MathFunction::Cbrt, "cbrt", 1),
        (MathFunction::Hypot, "hypot", 2),
        (MathFunction::Sin, "sin", 1),
        (MathFunction::Cos, "cos", 1),
        (MathFunction::Tan, "tan", 1),
        (MathFunction::Asin, "asin", 1),
        (MathFunction::Acos, "acos", 1),
        (MathFunction::Atan, "atan", 1),
        (MathFunction::Atan2, "atan2", 2),
        (MathFunction::ExpM1, "exp_m1", 1),
        (MathFunction::Ln1p, "ln_1p", 1),
        (MathFunction::Sinh, "sinh", 1),
        (MathFunction::Cosh, "cosh", 1),
        (MathFunction::Tanh, "tanh", 1),
        (MathFunction::Asinh, "asinh", 1),
        (MathFunction::Acosh, "acosh", 1),
        (MathFunction::Atanh, "atanh", 1),
    ];
    assert_eq!(all.len(), 35);
    for (function, name, arity) in all {
        assert_eq!(function.name(), name);
        assert_eq!(function.arity(), arity, "{name}");
        assert_eq!(MathFunction::lookup(name), Some(function), "{name}");
    }
    for name in ["", "Floor", "abc", "sin ", "log1", "atan3", "f\u{e9}"] {
        assert_eq!(MathFunction::lookup(name), None, "{name}");
    }
}

fn height(level: Level) -> u8 {
    match level {
        Level::Conditional => 8,
        Level::LogicOr => 7,
        Level::LogicAnd => 6,
        Level::Equality => 5,
        Level::Relational => 4,
        Level::Additive => 3,
        Level::Multiplicative => 2,
        Level::Factor => 1,
    }
}

fn level_of(op: Operator) -> Level {
    match op {
        Operator::OR => Level::LogicOr,
        Operator::AND => Level::LogicAnd,
        Operator::EQ | Operator::NEQ => Level::Equality,
        Operator::LT | Operator::GT | Operator::LE | Operator::GE => Level::Relational,
        Operator::ADD | Operator::SUB => Level::Additive,
        _ => Level::Multiplicative,
    }
}

fn sign_of(op: Operator) -> &'static str {
    match op {
        Operator::ADD => "+",
        Operator::SUB => "-",
        Operator::MUL => "*",
        Operator::DIV => "/",
        Operator::REM => "%",
        Operator::AND => "&&",
        Operator::OR => "||",
        Operator::NOT => "!",
        Operator::EQ => "==",
        Operator::NEQ => "!=",
        Operator::LT => "<",
        Operator::GT => ">",
        Operator::LE => "<=",
        Operator::GE => ">=",
    }
}

fn own_level(e: &Expression) -> Level {
    match e {
        Expression::Binary(_, op, _) => level_of(*op),
        Expression::Ternary(_, _, _) => Level::Conditional,
        _ => Level::Factor,
    }
}

/// The words of an expression as an operand of a level, with parentheses
/// only where its own level is weaker.
fn written(e: &Expression, level: Level, out: &mut Vec<String>) {
    if height(own_level(e)) > height(level) {
        out.push("(".to_string());
        bare(e, out);
        out.push(")".to_string());
    } else {
        bare(e, out);
    }
}

fn bare(e: &Expression, out: &mut Vec<String>) {
    match e {
        Expression::Number(text) => out.push(text.clone()),
        Expression::Variable(name) => out.push(name.clone()),
        Expression::Unary(op, operand) => {
            out.push(sign_of(*op).to_string());
            written(operand, Level::Factor, out);
        }
        Expression::Binary(left, op, right) => {
            written(left, level_of(*op), out);
            out.push(sign_of(*op).to_string());
            written(right, level_of(*op).tighter(), out);
        }
        Expression::Ternary(condition, then, otherwise) => {
            written(condition, Level::LogicOr, out);
            out.push("?".to_string());
            written(then, Level::Conditional, out);
            out.push(":".to_string());
            written(otherwise, Level::Conditional, out);
        }
        Expression::Function(name, args) => {
            out.push(name.clone());
            out.push("(".to_string());
            for (i, arg) in args.iter().enumerate() {
                if i > 0 {
                    out.push(",".to_string());
                }
                written(arg, Level::Conditional, out);
            }
            out.push(")".to_string());
        }
    }
}

/// The line that spells an expression: each word, and a space after it.
fn spelling(e: &Expression, level: Level) -> String {
    let mut words = Vec::new();
    written(e, level, &mut words);
    let mut line = String::new();
    for word in words {
        line.push_str(&word);
        line.push(' ');
    }
    line
}

fn samples() -> Vec<Expression> {
    let a = || variable("a");
    let b = || variable("b");
    let c = || variable("c");
    let ops = [
        Operator::ADD,
        Operator::SUB,
        Operator::MUL,
        Operator::DIV,
        Operator::REM,
        Operator::AND,
        Operator::OR,
        Operator::EQ,
        Operator::NEQ,
        Operator::LT,
        Operator::GT,
        Operator::LE,
        Operator::GE,
    ];
    let mut all = vec![
        *number("2.5e10"),
        *a(),
        Expression::Function("f".to_string(), vec![]),
        Expression::Function("f".to_string(), vec![a()]),
        Expression::Function(
            "f".to_string(),
            vec![
                Box::new(Expression::Ternary(a(), b(), c())),
                binary(a(), Operator::OR, b()),
                number("1"),
            ],
        ),
        Expression::Unary(Operator::NOT, binary(a(), Operator::MUL, b())),
        Expression::Unary(
            Operator::SUB,
            Box::new(Expression::Unary(Operator::SUB, number("1"))),
        ),
        Expression::Ternary(
            Box::new(Expression::Ternary(a(), b(), c())),
            Box::new(Expression::Ternary(a(), b(), c())),
            Box::new(Expression::Ternary(a(), b(), c())),
        ),
    ];
    for first in ops {
        for second in ops {
            all.push(*binary(binary(a(), first, b()), second, c()));
            all.push(*binary(a(), first, binary(b(), second, c())));
            all.push(Expression::Unary(
                Operator::SUB,
                binary(binary(a(), first, b()), second, number("7")),
            ));
        }
        all.push(Expression::Ternary(
            binary(a(), first, b()),
            binary(b(), first, c()),
            binary(c(), first, a()),
        ));
        all.push(*binary(
            Box::new(Expression::Ternary(a(), b(), c())),
            first,
            Box::new(Expression::Ternary(c(), b(), a())),
        ));
    }
    all
}

#[test]
fn what_is_written_parses_to_what_it_was_written_from() {
    let levels = [
        Level::Conditional,
        Level::LogicOr,
        Level::LogicAnd,
        Level::Equality,
        Level::Relational,
        Level::Additive,
        Level::Multiplicative,
        Level::Factor,
    ];
    let all = samples();
    assert!(all.len() > 500);
    for e in &all {
        for level in levels {
            let line = spelling(e, level);
            assert_eq!(parse_at(level, &line).as_ref(), Ok(e), "{line}");
        }
    }
}

#[test]
fn parentheses_are_written_only_where_they_are_needed() {
    let a = || variable("a");
    let b = || variable("b");
    let c = || variable("c");
    let left = binary(binary(a(), Operator::SUB, b()), Operator::SUB, c());
    let right = binary(a(), Operator::SUB, binary(b(), Operator::SUB, c()));
    assert_eq!(spelling(&left, Level::Conditional), "a - b - c ");
    assert_eq!(spelling(&right, Level::Conditional), "a - ( b - c ) ");
    let sum_of_product = binary(binary(a(), Operator::MUL, b()), Operator::ADD, c());
    let product_of_sum = binary(binary(a(), Operator::ADD, b()), Operator::MUL, c());
    assert_eq!(spelling(&sum_of_product, Level::Conditional), "a * b + c ");
    assert_eq!(spelling(&product_of_sum, Level::Conditional), "( a + b ) * c ");
    assert_eq!(spelling(&sum_of_product, Level::Multiplicative), "( a * b + c ) ");
    let nested = Expression::Ternary(
        Box::new(Expression::Ternary(a(), b(), c())),
        Box::new(Expression::Ternary(a(), b(), c())),
        Box::new(Expression::Ternary(a(), b(), c())),
    );
    assert_eq!(
        spelling(&nested, Level::Conditional),
        "( a ? b : c ) ? a ? b : c : a ? b : c "
    );
}

#[test]
fn the_next_tighter_level() {
    assert_eq!(Level::Conditional.tighter(), Level::LogicOr);
    assert_eq!(Level::LogicOr.tighter(), Level::LogicAnd);
    assert_eq!(Level::LogicAnd.tighter(), Level::Equality);
    assert_eq!(Level::Equality.tighter(), Level::Relational);
    assert_eq!(Level::Relational.tighter(), Level::Additive);
    assert_eq!(Level::Additive.tighter(), Level::Multiplicative);
    assert_eq!(Level::Multiplicative.tighter(), Level::Factor);
    assert_eq!(Level::Factor.tighter(), Level::Factor);
}

#[test]
fn only_white_space_lies_between_tokens() {
    for line in [
        "",
        "   ",
        "1+2",
        " \t f ( a , 2.5e-3 ) >= -b ? c : !d \r\n",
        "a <= b $ c",
        "12 34 ab_9(x)",
    ] {
        let bytes = line.as_bytes();
        let tokens = tokenize(bytes);
        assert!(!tokens.is_empty());
        let mut at = 0;
        for (i, token) in tokens.iter().enumerate() {
            assert!(at <= token.start && token.start <= token.end && token.end <= bytes.len());
            assert!(bytes[at..token.start].iter().all(|b| b.is_ascii_whitespace() || *b == 11));
            let last = i + 1 == tokens.len();
            assert_eq!(
                last,
                token.kind == TokenKind::End || token.kind == TokenKind::Invalid
            );
            if !last {
                assert!(token.start < token.end);
            }
            at = token.end;
        }
    }
}
