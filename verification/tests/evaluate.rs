use calculator::{
    parse, parse_at, EvalError, Expression, Halt, Level, MathFunction, Operation, Operator,
};

/// Does the floating-point work that an evaluation asks for.
fn perform(operation: &Operation) -> u64 {
    let value = match operation {
        Operation::Literal(text) => text.parse::<f64>().unwrap(),
        Operation::Arithmetic(op, a, b) => {
            let (a, b) = (f64::from_bits(*a), f64::from_bits(*b));
            match op {
                Operator::ADD => a + b,
                Operator::SUB => a - b,
                Operator::MUL => a * b,
                Operator::DIV => a / b,
                Operator::REM => a % b,
                _ => unreachable!(),
            }
        }
        Operation::Call(function, values) => {
            assert_eq!(values.len(), function.arity());
            let x = |i: usize| f64::from_bits(values[i]);
            match function {
                MathFunction::Floor => x(0).floor(),
                MathFunction::Ceil => x(0).ceil(),
                MathFunction::Round => x(0).round(),
                MathFunction::Trunc => x(0).trunc(),
                MathFunction::Fract => x(0).fract(),
                MathFunction::Abs => x(0).abs(),
                MathFunction::Signum => x(0).signum(),
                MathFunction::MulAdd => x(0).mul_add(x(1), x(2)),
                MathFunction::DivEuclid => x(0).div_euclid(x(1)),
                MathFunction::RemEuclid => x(0).rem_euclid(x(1)),
                MathFunction::Powf => x(0).powf(x(1)),
                MathFunction::Sqrt => x(0).sqrt(),
                MathFunction::Exp => x(0).exp(),
                MathFunction::Exp2 => x(0).exp2(),
                MathFunction::Ln => x(0).ln(),
                MathFunction::Log => x(0).log(x(1)),
                MathFunction::Log2 => x(0).log2(),
                MathFunction::Log10 => x(0).log10(),
                MathFunction::Cbrt => x(0).cbrt(),
                MathFunction::Hypot => x(0).hypot(x(1)),
                MathFunction::Sin => x(0).sin(),
                MathFunction::Cos => x(0).cos(),
                MathFunction::Tan => x(0).tan(),
                MathFunction::Asin => x(0).asin(),
                MathFunction::Acos => x(0).acos(),
                MathFunction::Atan => x(0).atan(),
                MathFunction::Atan2 => x(0).atan2(x(1)),
                MathFunction::ExpM1 => x(0).exp_m1(),
                MathFunction::Ln1p => x(0).ln_1p(),
                MathFunction::Sinh => x(0).sinh(),
                MathFunction::Cosh => x(0).cosh(),
                MathFunction::Tanh => x(0).tanh(),
                MathFunction::Asinh => x(0).asinh(),
                MathFunction::Acosh => x(0).acosh(),
                MathFunction::Atanh => x(0).atanh(),
            }
        }
    };
    value.to_bits()
}

/// Evaluates to the end, and returns the value with the operations asked for.
fn trace(e: &Expression) -> (Result<f64, EvalError>, Vec<Operation>) {
    let mut answers = Vec::new();
    let mut asked = Vec::new();
    loop {
        match e.eval(&answers) {
            Ok(v) => return (Ok(f64::from_bits(v)), asked),
            Err(Halt::Ask(operation)) => {
                answers.push(perform(&operation));
                asked.push(operation);
            }
            Err(Halt::Fail(error)) => return (Err(error), asked),
        }
    }
}

fn evaluate(e: &Expression) -> Result<f64, EvalError> {
    trace(e).0
}

fn value_of(line: &str) -> f64 {
    evaluate(&parse(line).unwrap()).unwrap()
}

fn number(text: &str) -> Box<Expression> {
    Box::new(Expression::Number(text.to_string()))
}

#[test]
fn test_factor() {
    assert_eq!(
        evaluate(&parse_at(Level::Factor, "2.5e10").unwrap()).unwrap(),
        2.5e10
    );
    // `!` of a number other than zero is zero.
    assert_eq!(
        evaluate(&parse_at(Level::Factor, "!2.5e10").unwrap()).unwrap(),
        0.0
    );
    assert_eq!(
        parse_at(Level::Factor, "abc").unwrap(),
        Expression::Variable("abc".to_string())
    );
    assert_eq!(
        parse_at(Level::Factor, "abc(1, 2)").unwrap(),
        Expression::Function("abc".to_string(), vec![number("1"), number("2")])
    );
    assert_eq!(
        evaluate(&parse_at(Level::Factor, "abs(-1)").unwrap()).unwrap(),
        1.0
    );
}

#[test]
fn test_multiplicative() {
    assert_eq!(
        evaluate(&parse_at(Level::Multiplicative, "1 * 2").unwrap()).unwrap(),
        2.0
    )
}

#[test]
fn test_additive() {
    assert_eq!(
        evaluate(&parse_at(Level::Additive, "1 * 2 + 3").unwrap()).unwrap(),
        5.0
    )
}

#[test]
fn test_relational() {
    assert_eq!(
        evaluate(&parse_at(Level::Relational, "4 < 1 * 2 + 3").unwrap()).unwrap(),
        1.0
    )
}

#[test]
fn test_equality() {
    assert_eq!(
        evaluate(&parse_at(Level::Equality, "1 * 2 + 3 == 5").unwrap()).unwrap(),
        1.0
    )
}

#[test]
fn test_logic_and() {
    assert_eq!(
        evaluate(&parse_at(Level::LogicAnd, "1 * 2 + 3 && 4").unwrap()).unwrap(),
        1.0
    )
}

#[test]
fn test_logic_or() {
    assert_eq!(
        evaluate(&parse_at(Level::LogicOr, "1 * 2 + 3 || 0").unwrap()).unwrap(),
        1.0
    )
}

#[test]
fn test_conditional() {
    assert_eq!(
        evaluate(&parse_at(Level::Conditional, "1 ? 2 : 3").unwrap()).unwrap(),
        2.0
    )
}

#[test]
fn test_expression() {
    assert_eq!(
        evaluate(
            &parse("1 * 2 + 3 == 5 ? (6 < 4 || 7 >= 7) : (8 != 8 && 9 >= 10)").unwrap()
        )
        .unwrap(),
        1.0
    )
}

#[test]
fn precedence_of_product_over_sum_over_relation() {
    assert_eq!(value_of("1 * 2 + 3"), 5.0);
    assert_eq!(value_of("1 + 2 * 3"), 7.0);
    assert_eq!(value_of("4 < 1 * 2 + 3"), 1.0);
    assert_eq!(value_of("1 < 2 == 2 > 1"), 1.0);
    assert_eq!(value_of("1 || 0 && 0"), 1.0);
    assert_eq!(value_of("0 == 1 && 1"), 0.0);
}

#[test]
fn chains_lean_left_and_conditionals_right() {
    assert_eq!(value_of("8 - 3 - 2"), 3.0);
    assert_eq!(value_of("8 / 4 / 2"), 1.0);
    assert_eq!(value_of("1 ? 2 : 3"), 2.0);
    assert_eq!(value_of("0 ? 1 : 0 ? 2 : 3"), 3.0);
    assert_eq!(value_of("1 ? 0 ? 4 : 5 : 6"), 5.0);
    // A chain of relations folds left: (3 > 2) > 1 is 1 > 1.
    assert_eq!(value_of("3 > 2 > 1"), 0.0);
}

#[test]
fn not_of_a_number_is_one_only_for_zero() {
    for text in ["1", "2.5e10", "0.5", "1e-300", "1e999"] {
        let e = Expression::Unary(Operator::NOT, number(text));
        assert_eq!(evaluate(&e).unwrap(), 0.0, "{text}");
    }
    for text in ["0", "0.0", "0e5", "1e-999"] {
        let e = Expression::Unary(Operator::NOT, number(text));
        assert_eq!(evaluate(&e).unwrap(), 1.0, "{text}");
    }
    assert_eq!(value_of("!-0"), 1.0);
    assert_eq!(value_of("!!7"), 1.0);
    // What is not a number differs from zero.
    assert_eq!(value_of("!(0 / 0)"), 0.0);
}

#[test]
fn not_a_number_is_unequal_to_itself() {
    assert_eq!(value_of("0 / 0 == 0 / 0"), 0.0);
    assert_eq!(value_of("0 / 0 != 0 / 0"), 1.0);
    assert_eq!(value_of("0 / 0 < 1"), 0.0);
    assert_eq!(value_of("0 / 0 >= 1"), 0.0);
    assert_eq!(value_of("-0 == 0"), 1.0);
    assert_eq!(value_of("-0 < 0"), 0.0);
    assert_eq!(value_of("-1 < 0"), 1.0);
    assert_eq!(value_of("-1 < -2"), 0.0);
    assert_eq!(value_of("-1e999 < 1e999"), 1.0);
}

#[test]
fn both_operands_of_and_and_or_are_evaluated() {
    let (value, asked) = trace(&parse("0 && sqrt(4)").unwrap());
    assert_eq!(value.unwrap(), 0.0);
    assert_eq!(asked.len(), 3);
    assert_eq!(asked[2], Operation::Call(MathFunction::Sqrt, vec![4.0f64.to_bits()]));
    let (value, asked) = trace(&parse("1 || sqrt(4)").unwrap());
    assert_eq!(value.unwrap(), 1.0);
    assert_eq!(asked.len(), 3);
    // A second operand without a value leaves the whole without one.
    assert_eq!(
        evaluate(&parse("0 && nope(1)").unwrap()),
        Err(EvalError::UnknownFunction("nope".to_string()))
    );
    assert_eq!(
        evaluate(&parse("1 || nope(1)").unwrap()),
        Err(EvalError::UnknownFunction("nope".to_string()))
    );
}

#[test]
fn only_the_chosen_branch_of_a_conditional_is_evaluated() {
    let (value, asked) = trace(&parse("1 ? sqrt(4) : cbrt(8)").unwrap());
    assert_eq!(value.unwrap(), 2.0);
    assert_eq!(
        asked,
        vec![
            Operation::Literal("1".to_string()),
            Operation::Literal("4".to_string()),
            Operation::Call(MathFunction::Sqrt, vec![4.0f64.to_bits()]),
        ]
    );
    let (value, asked) = trace(&parse("0 ? sqrt(4) : cbrt(27)").unwrap());
    assert_eq!(value.unwrap(), 3.0);
    assert_eq!(
        asked[2],
        Operation::Call(MathFunction::Cbrt, vec![27.0f64.to_bits()])
    );
    assert_eq!(value_of("1 ? 2 : nope(1)"), 2.0);
    assert_eq!(value_of("0 ? nope(1) : 3"), 3.0);
    assert_eq!(
        evaluate(&parse("0 ? 2 : nope(1)").unwrap()),
        Err(EvalError::UnknownFunction("nope".to_string()))
    );
}

#[test]
fn calls_are_dispatched_by_name() {
    assert_eq!(value_of("abs(-1)"), 1.0);
    assert_eq!(value_of("floor(2.5)"), 2.0);
    assert_eq!(value_of("ceil(2.5)"), 3.0);
    assert_eq!(value_of("round(2.5)"), 3.0);
    assert_eq!(value_of("trunc(-2.5)"), -2.0);
    assert_eq!(value_of("fract(2.5)"), 0.5);
    assert_eq!(value_of("signum(-3)"), -1.0);
    assert_eq!(value_of("mul_add(2, 3, 4)"), 10.0);
    assert_eq!(value_of("div_euclid(-7, 2)"), -4.0);
    assert_eq!(value_of("rem_euclid(-7, 2)"), 1.0);
    assert_eq!(value_of("powf(2, 10)"), 1024.0);
    assert_eq!(value_of("sqrt(16)"), 4.0);
    assert_eq!(value_of("exp(0)"), 1.0);
    assert_eq!(value_of("exp2(3)"), 8.0);
    assert_eq!(value_of("ln(1)"), 0.0);
    assert_eq!(value_of("log(8, 2)"), 8.0f64.log(2.0));
    assert_eq!(value_of("log2(8)"), 3.0);
    assert_eq!(value_of("log10(1000)"), 1000.0f64.log10());
    assert_eq!(value_of("cbrt(27)"), 3.0);
    assert_eq!(value_of("hypot(3, 4)"), 5.0);
    assert_eq!(value_of("sin(0)"), 0.0);
    assert_eq!(value_of("cos(0)"), 1.0);
    assert_eq!(value_of("tan(0)"), 0.0);
    assert_eq!(value_of("asin(0)"), 0.0);
    assert_eq!(value_of("acos(1)"), 0.0);
    assert_eq!(value_of("atan(0)"), 0.0);
    assert_eq!(value_of("atan2(0, 1)"), 0.0);
    assert_eq!(value_of("exp_m1(0)"), 0.0);
    assert_eq!(value_of("ln_1p(0)"), 0.0);
    assert_eq!(value_of("sinh(0)"), 0.0);
    assert_eq!(value_of("cosh(0)"), 1.0);
    assert_eq!(value_of("tanh(0)"), 0.0);
    assert_eq!(value_of("asinh(0)"), 0.0);
    assert_eq!(value_of("acosh(1)"), 0.0);
    assert_eq!(value_of("atanh(0)"), 0.0);
}

#[test]
fn an_unknown_function_parses_and_then_fails() {
    let e = parse("abc(1, 2)").unwrap();
    assert_eq!(
        e,
        Expression::Function("abc".to_string(), vec![number("1"), number("2")])
    );
    assert_eq!(
        evaluate(&e),
        Err(EvalError::UnknownFunction("abc".to_string()))
    );
    // The name is looked up before any argument is evaluated.
    assert_eq!(
        e.eval(&Vec::new()),
        Err(Halt::Fail(EvalError::UnknownFunction("abc".to_string())))
    );
}

#[test]
fn a_missing_argument_is_an_error() {
    assert_eq!(
        evaluate(&parse("abs()").unwrap()),
        Err(EvalError::WrongArity(MathFunction::Abs, 0))
    );
    assert_eq!(
        evaluate(&parse("atan2(1)").unwrap()),
        Err(EvalError::WrongArity(MathFunction::Atan2, 1))
    );
    assert_eq!(
        evaluate(&parse("mul_add(1, 2)").unwrap()),
        Err(EvalError::WrongArity(MathFunction::MulAdd, 2))
    );
    // The number of arguments is looked at before any of them is evaluated.
    assert_eq!(
        parse("mul_add(nope(1))").unwrap().eval(&Vec::new()),
        Err(Halt::Fail(EvalError::WrongArity(MathFunction::MulAdd, 1)))
    );
}

#[test]
fn arguments_beyond_the_arity_are_not_evaluated() {
    let (value, asked) = trace(&parse("abs(-1, nope(2), 3)").unwrap());
    assert_eq!(value.unwrap(), 1.0);
    assert_eq!(
        asked,
        vec![
            Operation::Literal("1".to_string()),
            Operation::Call(MathFunction::Abs, vec![(-1.0f64).to_bits()]),
        ]
    );
}

#[test]
fn a_name_alone_is_zero() {
    assert_eq!(value_of("abc"), 0.0);
    assert_eq!(value_of("_"), 0.0);
    assert_eq!(value_of("sqrt"), 0.0);
    assert_eq!(value_of("x1 + 2"), 2.0);
    let (value, asked) = trace(&Expression::Variable("anything at all".to_string()));
    assert_eq!(value.unwrap().to_bits(), 0);
    assert!(asked.is_empty());
}

#[test]
fn literals_keep_their_exact_value() {
    assert_eq!(value_of("2.5e10"), 2.5e10);
    assert_eq!(value_of("2.5E+10"), 2.5e10);
    assert_eq!(value_of("25e-1"), 2.5);
    assert_eq!(value_of("0.1"), 0.1);
    assert_eq!(value_of("007"), 7.0);
    assert_eq!(value_of("1e999"), f64::INFINITY);
    assert_eq!(value_of("123456789012345678901234567890"), 123456789012345678901234567890.0);
}

#[test]
fn arithmetic_is_that_of_the_machine() {
    assert_eq!(value_of("0.1 + 0.2"), 0.1 + 0.2);
    assert_eq!(value_of("7 - 10"), -3.0);
    assert_eq!(value_of("1 / 0"), f64::INFINITY);
    assert_eq!(value_of("-1 / 0"), f64::NEG_INFINITY);
    // The remainder has the sign of the dividend.
    assert_eq!(value_of("-7 % 2"), -1.0);
    assert_eq!(value_of("7 % -2"), 1.0);
    assert_eq!(value_of("5.5 % 2"), 1.5);
    assert_eq!(value_of("--3"), 3.0);
    assert_eq!(value_of("-(2 + 3) * 2"), -10.0);
}

#[test]
fn negation_turns_the_sign_of_zero() {
    let v = evaluate(&parse("-0").unwrap()).unwrap();
    assert_eq!(v.to_bits(), (-0.0f64).to_bits());
}

#[test]
fn the_full_hierarchy() {
    assert_eq!(
        value_of("1*2+3==5 ? (6<4 || 7>=7) : (8!=8 && 9>=10)"),
        1.0
    );
    assert_eq!(
        value_of("1*2+3!=5 ? (6<4 || 7>=7) : (8!=8 && 9>=10)"),
        0.0
    );
}

#[test]
fn an_evaluation_asks_one_operation_at_a_time() {
    let e = parse("1 + 2 * 3").unwrap();
    let mut answers = Vec::new();
    assert_eq!(
        e.eval(&answers),
        Err(Halt::Ask(Operation::Literal("1".to_string())))
    );
    answers.push(1.0f64.to_bits());
    assert_eq!(
        e.eval(&answers),
        Err(Halt::Ask(Operation::Literal("2".to_string())))
    );
    answers.push(2.0f64.to_bits());
    assert_eq!(
        e.eval(&answers),
        Err(Halt::Ask(Operation::Literal("3".to_string())))
    );
    answers.push(3.0f64.to_bits());
    assert_eq!(
        e.eval(&answers),
        Err(Halt::Ask(Operation::Arithmetic(
            Operator::MUL,
            2.0f64.to_bits(),
            3.0f64.to_bits()
        )))
    );
    answers.push(6.0f64.to_bits());
    assert_eq!(
        e.eval(&answers),
        Err(Halt::Ask(Operation::Arithmetic(
            Operator::ADD,
            1.0f64.to_bits(),
            6.0f64.to_bits()
        )))
    );
    answers.push(7.0f64.to_bits());
    assert_eq!(e.eval(&answers), Ok(7.0f64.to_bits()));
    // Answers that the evaluation does not read change nothing.
    answers.push(99.0f64.to_bits());
    assert_eq!(e.eval(&answers), Ok(7.0f64.to_bits()));
}

#[test]
fn a_node_whose_operator_does_not_fit_is_zero() {
    let unary = Expression::Unary(Operator::ADD, number("5"));
    let (value, asked) = trace(&unary);
    assert_eq!(value.unwrap(), 0.0);
    assert!(asked.is_empty());
    let binary = Expression::Binary(number("5"), Operator::NOT, number("6"));
    let (value, asked) = trace(&binary);
    assert_eq!(value.unwrap(), 0.0);
    assert!(asked.is_empty());
}

/// The largest number of operations that an evaluation can ask for.
fn cost(e: &Expression) -> usize {
    match e {
        Expression::Number(_) => 1,
        Expression::Unary(_, operand) => cost(operand),
        Expression::Binary(left, _, right) => cost(left) + cost(right) + 1,
        Expression::Ternary(condition, then, otherwise) => {
            cost(condition) + cost(then) + cost(otherwise)
        }
        Expression::Variable(_) => 0,
        Expression::Function(_, args) => args.iter().map(|a| cost(a)).sum::<usize>() + 1,
    }
}

#[test]
fn an_evaluation_asks_no_more_than_its_cost() {
    let lines = [
        ("1 + 2 * 3", 5),
        ("abc", 0),
        ("!-7", 1),
        ("1 < 2 && 3 >= 4", 4),
        ("1 ? 2 + 3 : sqrt(4)", 4),
        ("0 ? 2 + 3 : sqrt(4)", 3),
        ("hypot(3, 4) % 2", 5),
        ("abs(-1, 2, 3)", 2),
    ];
    for (line, asked) in lines {
        let e = parse(line).unwrap();
        let (value, operations) = trace(&e);
        assert!(value.is_ok(), "{line}");
        assert_eq!(operations.len(), asked, "{line}");
        assert!(operations.len() <= cost(&e), "{line}");
    }
}

#[test]
fn what_is_asked_for_can_be_computed() {
    let e = parse("mul_add(1.5, 2e3, 7 % 4) - atan2(1, 2) / 3").unwrap();
    let (value, operations) = trace(&e);
    assert!(value.is_ok());
    for operation in &operations {
        match operation {
            Operation::Literal(text) => assert!(text.parse::<f64>().is_ok()),
            Operation::Arithmetic(op, _, _) => assert!(matches!(
                op,
                Operator::ADD | Operator::SUB | Operator::MUL | Operator::DIV | Operator::REM
            )),
            Operation::Call(function, values) => assert_eq!(values.len(), function.arity()),
        }
    }
}

#[test]
fn more_answers_leave_a_result_as_it_is() {
    let e = parse("2 * 3 + nope(1)").unwrap();
    let mut answers = vec![2.0f64.to_bits(), 3.0f64.to_bits(), 6.0f64.to_bits()];
    let failed = e.eval(&answers);
    assert_eq!(
        failed,
        Err(Halt::Fail(EvalError::UnknownFunction("nope".to_string())))
    );
    answers.push(1.0f64.to_bits());
    answers.push(2.0f64.to_bits());
    assert_eq!(e.eval(&answers), failed);
}

#[test]
fn a_copy_is_the_same_expression() {
    let e = parse("f(1, g(a ? -b : !c), 2.5e10) + d * (e - 1)").unwrap();
    let copy = e.clone();
    assert_eq!(copy, e);
    assert_eq!(
        parse("abs(-1)").unwrap().clone(),
        Expression::Function(
            "abs".to_string(),
            vec![Box::new(Expression::Unary(Operator::SUB, number("1")))]
        )
    );
}

#[test]
fn an_expression_whose_calls_fit_has_a_value() {
    for line in [
        "1",
        "a",
        "-(1 + 2) * 3 % 4 / 5 - 6",
        "1 < 2 == 3 >= 4 != 5 <= 6 > 7",
        "!a && b || c",
        "a ? b : c ? d : e",
        "hypot(sin(1), cos(2)) + mul_add(1, 2, 3)",
        "sqrt(-1)",
        "ln(0) + 1 / 0 - 0 / 0",
    ] {
        let e = parse(line).unwrap();
        assert!(evaluate(&e).is_ok(), "{line}");
    }
}
