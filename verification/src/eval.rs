//! Evaluation.
//!
//! The arithmetic of the language is floating-point arithmetic, which this
//! library leaves to its caller. An evaluation therefore runs against a log
//! of answers: each time it reaches an [`Operation`] it takes the next answer
//! from the log, and where the log has run out it stops and asks for that
//! operation. The caller computes it, appends the answer and evaluates again.
//! What an expression evaluates to, for a given log, is the function [`run`].
//!
//! Each call evaluates from the start of the expression, which keeps an
//! evaluation free of state: the log is all there is. An expression asks for
//! no more operations than its [`cost`], so a caller that answers each
//! request comes to the end after at most that many calls.
use vstd::prelude::*;
use crate::ast::{models, Ast, Expression, Operator};
use crate::function::{lookup_spec, MathFunction};
use crate::text::is_number_text;
use crate::value::{
    compare, compares, encode, from_bool, is_truthy, is_zero, negate, negated, truthy, ONE, ZERO,
};

verus! {

/// One piece of floating-point work that the caller does for an evaluation.
#[derive(Debug, PartialEq)]
pub enum Operation {
    /// The number that a numeric literal denotes, rounded to the nearest value.
    Literal(String),
    /// The sum, difference, product, quotient or remainder of two values. The
    /// remainder has the sign of the dividend.
    Arithmetic(Operator, u64, u64),
    /// A built-in function applied to as many values as it reads.
    Call(MathFunction, Vec<u64>),
}

/// The model of an [`Operation`].
pub enum OperationView {
    Literal(Seq<char>),
    Arithmetic(Operator, u64, u64),
    Call(MathFunction, Seq<u64>),
}

impl View for Operation {
    type V = OperationView;

    open spec fn view(&self) -> OperationView {
        match self {
            Operation::Literal(text) => OperationView::Literal(text@),
            Operation::Arithmetic(op, a, b) => OperationView::Arithmetic(*op, *a, *b),
            Operation::Call(function, values) => OperationView::Call(*function, values@),
        }
    }
}

/// Why an expression has no value.
#[derive(Debug, PartialEq)]
pub enum EvalError {
    /// A call names a function that the table does not hold.
    UnknownFunction(String),
    /// A call gives a function fewer arguments than it reads; the number is
    /// that of the arguments given.
    WrongArity(MathFunction, usize),
}

/// The model of an [`EvalError`].
pub enum EvalErrorView {
    UnknownFunction(Seq<char>),
    WrongArity(MathFunction, nat),
}

impl View for EvalError {
    type V = EvalErrorView;

    open spec fn view(&self) -> EvalErrorView {
        match self {
            EvalError::UnknownFunction(name) => EvalErrorView::UnknownFunction(name@),
            EvalError::WrongArity(function, given) => EvalErrorView::WrongArity(
                *function,
                *given as nat,
            ),
        }
    }
}

/// Why an evaluation stopped before it had a value.
#[derive(Debug, PartialEq)]
pub enum Halt {
    /// The log of answers has run out: this operation is the next one.
    Ask(Operation),
    /// The expression has no value.
    Fail(EvalError),
}

/// The model of a [`Halt`].
pub enum HaltView {
    Ask(OperationView),
    Fail(EvalErrorView),
}

impl View for Halt {
    type V = HaltView;

    open spec fn view(&self) -> HaltView {
        match self {
            Halt::Ask(operation) => HaltView::Ask(operation@),
            Halt::Fail(error) => HaltView::Fail(error@),
        }
    }
}

/// The answer to an operation when `used` answers of the log are spent: the
/// next one, or a stop that asks for the operation.
pub open spec fn supplied(operation: OperationView, log: Seq<u64>, used: nat) -> Result<
    (u64, nat),
    HaltView,
> {
    if used < log.len() {
        Ok((log[used as int], (used + 1) as nat))
    } else {
        Err(HaltView::Ask(operation))
    }
}

/// The value of `a op b` once both operands have their values.
pub open spec fn combined(op: Operator, a: u64, b: u64, log: Seq<u64>, used: nat) -> Result<
    (u64, nat),
    HaltView,
> {
    if op.is_arithmetic() {
        supplied(OperationView::Arithmetic(op, a, b), log, used)
    } else if op == Operator::AND {
        Ok((from_bool(truthy(a) && truthy(b)), used))
    } else if op == Operator::OR {
        Ok((from_bool(truthy(a) || truthy(b)), used))
    } else {
        Ok((from_bool(compares(op, a, b)), used))
    }
}

/// What an expression evaluates to when the answers to its operations are
/// those of `log`, taken in order from place `used` on: its value together
/// with the number of answers spent by then, or the reason why it stopped.
///
/// Operands are evaluated from left to right. Both operands of a binary
/// operator are evaluated whatever the first one yields; of the two branches
/// of a conditional only the chosen one is. A call evaluates the arguments
/// that its function reads and no further ones. A node whose operator does
/// not fit its shape has the value zero.
pub open spec fn run(e: Ast, log: Seq<u64>, used: nat) -> Result<(u64, nat), HaltView>
    decreases e, 0nat,
{
    match e {
        Ast::Number(text) => supplied(OperationView::Literal(text), log, used),
        Ast::Unary(op, operand) => if op.is_prefix() {
            match run(*operand, log, used) {
                Ok((v, n)) => Ok(
                    (
                        if op == Operator::SUB {
                            negated(v)
                        } else {
                            from_bool(!truthy(v))
                        },
                        n,
                    ),
                ),
                Err(halt) => Err(halt),
            }
        } else {
            Ok((ZERO, used))
        },
        Ast::Binary(left, op, right) => if op == Operator::NOT {
            Ok((ZERO, used))
        } else {
            match run(*left, log, used) {
                Ok((a, n)) => match run(*right, log, n) {
                    Ok((b, m)) => combined(op, a, b, log, m),
                    Err(halt) => Err(halt),
                },
                Err(halt) => Err(halt),
            }
        },
        Ast::Ternary(condition, then, otherwise) => match run(*condition, log, used) {
            Ok((v, n)) => if truthy(v) {
                run(*then, log, n)
            } else {
                run(*otherwise, log, n)
            },
            Err(halt) => Err(halt),
        },
        Ast::Variable(_) => Ok((ZERO, used)),
        Ast::Function(name, args) => match lookup_spec(name) {
            None => Err(HaltView::Fail(EvalErrorView::UnknownFunction(name))),
            Some(function) => if args.len() < function.arity_spec() {
                Err(HaltView::Fail(EvalErrorView::WrongArity(function, args.len())))
            } else {
                match run_args(args, function.arity_spec(), log, used) {
                    Ok((values, n)) => supplied(OperationView::Call(function, values), log, n),
                    Err(halt) => Err(halt),
                }
            },
        },
    }
}

/// The values of the first `count` arguments, evaluated in order.
pub open spec fn run_args(args: Seq<Ast>, count: nat, log: Seq<u64>, used: nat) -> Result<
    (Seq<u64>, nat),
    HaltView,
>
    decreases args, count,
{
    if count == 0 || count > args.len() {
        Ok((Seq::empty(), used))
    } else {
        match run_args(args, (count - 1) as nat, log, used) {
            Ok((values, n)) => match run(args[count - 1], log, n) {
                Ok((v, m)) => Ok((values.push(v), m)),
                Err(halt) => Err(halt),
            },
            Err(halt) => Err(halt),
        }
    }
}

/// What an expression evaluates to against a log of answers: its value, the
/// operation that the log lacks an answer to, or why it has no value.
pub open spec fn evaluation(e: Ast, log: Seq<u64>) -> Result<u64, HaltView> {
    match run(e, log, 0) {
        Ok((v, _)) => Ok(v),
        Err(halt) => Err(halt),
    }
}

/// The next answer of the log, if it has one left.
fn next_answer(answers: &Vec<u64>, used: usize) -> (r: Option<(u64, usize)>)
    requires
        used <= answers@.len(),
    ensures
        match r {
            Some((v, n)) => used < answers@.len() && v == answers@[used as int] && n == used + 1,
            None => used == answers@.len(),
        },
{
    if used < answers.len() {
        Some((answers[used], used + 1))
    } else {
        None
    }
}

/// The first `count` arguments of a call, evaluated in order.
fn walk_args(args: &Vec<Box<Expression>>, count: usize, answers: &Vec<u64>, used: usize) -> (r:
    Result<(Vec<u64>, usize), Halt>)
    requires
        used <= answers@.len(),
        count <= args@.len(),
    ensures
        match r {
            Ok((values, n)) => run_args(models(args@), count as nat, answers@, used as nat) == Ok::<
                (Seq<u64>, nat),
                HaltView,
            >((values@, n as nat)) && n <= answers@.len(),
            Err(halt) => run_args(models(args@), count as nat, answers@, used as nat) == Err::<
                (Seq<u64>, nat),
                HaltView,
            >(halt@),
        },
    decreases args, count,
{
    if count == 0 {
        Ok((Vec::new(), used))
    } else {
        match walk_args(args, count - 1, answers, used) {
            Ok((values, n)) => {
                let mut values = values;
                match args[count - 1].walk(answers, n) {
                    Ok((v, m)) => {
                        values.push(v);
                        Ok((values, m))
                    },
                    Err(halt) => Err(halt),
                }
            },
            Err(halt) => Err(halt),
        }
    }
}

impl Expression {
    /// Evaluates the expression from place `used` of the log on.
    fn walk(&self, answers: &Vec<u64>, used: usize) -> (r: Result<(u64, usize), Halt>)
        requires
            used <= answers@.len(),
        ensures
            match r {
                Ok((v, n)) => run(self@, answers@, used as nat) == Ok::<(u64, nat), HaltView>(
                    (v, n as nat),
                ) && n <= answers@.len(),
                Err(halt) => run(self@, answers@, used as nat) == Err::<(u64, nat), HaltView>(
                    halt@,
                ),
            },
        decreases self, 0nat,
    {
        match self {
            Expression::Number(text) => match next_answer(answers, used) {
                Some(answer) => Ok(answer),
                None => Err(Halt::Ask(Operation::Literal(text.clone()))),
            },
            Expression::Unary(op, operand) => match op {
                Operator::SUB => match operand.walk(answers, used) {
                    Ok((v, n)) => Ok((negate(v), n)),
                    Err(halt) => Err(halt),
                },
                Operator::NOT => match operand.walk(answers, used) {
                    Ok((v, n)) => Ok((encode(!is_truthy(v)), n)),
                    Err(halt) => Err(halt),
                },
                _ => Ok((ZERO, used)),
            },
            Expression::Binary(left, op, right) => match op {
                Operator::NOT => Ok((ZERO, used)),
                _ => match left.walk(answers, used) {
                    Ok((a, n)) => match right.walk(answers, n) {
                        Ok((b, m)) => combine(*op, a, b, answers, m),
                        Err(halt) => Err(halt),
                    },
                    Err(halt) => Err(halt),
                },
            },
            Expression::Ternary(condition, then, otherwise) => match condition.walk(
                answers,
                used,
            ) {
                Ok((v, n)) => if is_truthy(v) {
                    then.walk(answers, n)
                } else {
                    otherwise.walk(answers, n)
                },
                Err(halt) => Err(halt),
            },
            Expression::Variable(_) => Ok((ZERO, used)),
            Expression::Function(name, args) => match MathFunction::lookup(name.as_str()) {
                None => Err(Halt::Fail(EvalError::UnknownFunction(name.clone()))),
                Some(function) => {
                    let arity = function.arity();
                    assert(models(args@).len() == args@.len());
                    if args.len() < arity {
                        Err(Halt::Fail(EvalError::WrongArity(function, args.len())))
                    } else {
                        match walk_args(args, arity, answers, used) {
                            Ok((values, n)) => match next_answer(answers, n) {
                                Some(answer) => Ok(answer),
                                None => Err(Halt::Ask(Operation::Call(function, values))),
                            },
                            Err(halt) => Err(halt),
                        }
                    }
                },
            },
        }
    }

    /// Evaluates the expression against the answers given so far.
    ///
    /// Returns the value once the answers reach to the end of the
    /// evaluation. Before that it returns the operation to compute next: the
    /// caller appends its result to `answers` and calls again. Answers beyond
    /// those that the evaluation reads are ignored.
    ///
    /// An operation that is asked for can be computed, and with as many
    /// answers as the [`cost`] of the expression none is asked for any more.
    pub fn eval(&self, answers: &Vec<u64>) -> (r: Result<u64, Halt>)
        ensures
            match r {
                Ok(v) => evaluation(self@, answers@) == Ok::<u64, HaltView>(v),
                Err(halt) => evaluation(self@, answers@) == Err::<u64, HaltView>(halt@),
            },
            r matches Err(Halt::Ask(operation)) ==> is_asked(operation@, self@.well_formed())
                && answers@.len() < cost(self@),
    {
        proof {
            law_operations_are_computable(self@, answers@, 0);
            law_evaluation_is_bounded(self@, answers@, 0);
        }
        match self.walk(answers, 0) {
            Ok((v, _)) => Ok(v),
            Err(halt) => Err(halt),
        }
    }
}

/// The value of `a op b`, for an operator other than `NOT`.
fn combine(op: Operator, a: u64, b: u64, answers: &Vec<u64>, used: usize) -> (r: Result<
    (u64, usize),
    Halt,
>)
    requires
        used <= answers@.len(),
    ensures
        match r {
            Ok((v, n)) => combined(op, a, b, answers@, used as nat) == Ok::<(u64, nat), HaltView>(
                (v, n as nat),
            ) && n <= answers@.len(),
            Err(halt) => combined(op, a, b, answers@, used as nat) == Err::<(u64, nat), HaltView>(
                halt@,
            ),
        },
{
    match op {
        Operator::ADD | Operator::SUB | Operator::MUL | Operator::DIV | Operator::REM => {
            match next_answer(answers, used) {
                Some(answer) => Ok(answer),
                None => Err(Halt::Ask(Operation::Arithmetic(op, a, b))),
            }
        },
        Operator::AND => {
            let both = is_truthy(a) && is_truthy(b);
            Ok((encode(both), used))
        },
        Operator::OR => {
            let either = is_truthy(a) || is_truthy(b);
            Ok((encode(either), used))
        },
        _ => Ok((encode(compare(op, a, b)), used)),
    }
}

/// The logical negation of an expression is one where the expression is
/// zero, and zero where it is anything else: a number that is not zero, an
/// infinity, or no number at all. It reads the answers that the expression
/// reads.
pub proof fn law_not_encodes_truth(operand: Ast, log: Seq<u64>, used: nat)
    ensures
        match run(operand, log, used) {
            Ok((x, n)) => run(Ast::Unary(Operator::NOT, Box::new(operand)), log, used) == Ok::<
                (u64, nat),
                HaltView,
            >(
                (
                    if is_zero(x) {
                        ONE
                    } else {
                        ZERO
                    },
                    n,
                ),
            ),
            Err(halt) => run(Ast::Unary(Operator::NOT, Box::new(operand)), log, used) == Err::<
                (u64, nat),
                HaltView,
            >(halt),
        },
{
}

/// The negation of a numeric literal whose value is `x`: zero for every `x`
/// other than zero, one for zero.
pub proof fn law_not_of_number(text: Seq<char>, x: u64, log: Seq<u64>)
    requires
        log.len() > 0,
        log[0] == x,
    ensures
        !is_zero(x) ==> evaluation(Ast::Unary(Operator::NOT, Box::new(Ast::Number(text))), log)
            == Ok::<u64, HaltView>(ZERO),
        is_zero(x) ==> evaluation(Ast::Unary(Operator::NOT, Box::new(Ast::Number(text))), log)
            == Ok::<u64, HaltView>(ONE),
{
    law_not_encodes_truth(Ast::Number(text), log, 0);
}

/// Negating twice gives the truth value of an expression.
pub proof fn law_not_not(operand: Ast, log: Seq<u64>, used: nat)
    ensures
        run(operand, log, used) matches Ok((x, n)) ==> run(
            Ast::Unary(
                Operator::NOT,
                Box::new(Ast::Unary(Operator::NOT, Box::new(operand))),
            ),
            log,
            used,
        ) == Ok::<(u64, nat), HaltView>((from_bool(truthy(x)), n)),
{
    law_not_encodes_truth(operand, log, used);
    law_not_encodes_truth(Ast::Unary(Operator::NOT, Box::new(operand)), log, used);
}

/// `&&` and `||` evaluate both operands, the right one after the left one
/// and whatever the left one yielded. So where the right operand stops, to
/// ask for an operation or because it has no value, the whole stops in the
/// same way, even where the left operand alone would decide the result.
pub proof fn law_and_or_evaluate_both(left: Ast, op: Operator, right: Ast, log: Seq<u64>, used: nat)
    requires
        op == Operator::AND || op == Operator::OR,
    ensures
        match run(left, log, used) {
            Ok((a, n)) => match run(right, log, n) {
                Ok((b, m)) => run(Ast::Binary(Box::new(left), op, Box::new(right)), log, used)
                    == Ok::<(u64, nat), HaltView>(
                    (
                        from_bool(
                            if op == Operator::AND {
                                truthy(a) && truthy(b)
                            } else {
                                truthy(a) || truthy(b)
                            },
                        ),
                        m,
                    ),
                ),
                Err(halt) => run(Ast::Binary(Box::new(left), op, Box::new(right)), log, used)
                    == Err::<(u64, nat), HaltView>(halt),
            },
            Err(halt) => run(Ast::Binary(Box::new(left), op, Box::new(right)), log, used) == Err::<
                (u64, nat),
                HaltView,
            >(halt),
        },
{
}

/// A conditional evaluates its condition and then the branch that the
/// condition chooses, and nothing of the other branch.
pub proof fn law_conditional_takes_one_branch(
    condition: Ast,
    then: Ast,
    otherwise: Ast,
    log: Seq<u64>,
    used: nat,
)
    ensures
        match run(condition, log, used) {
            Ok((c, n)) => run(
                Ast::Ternary(Box::new(condition), Box::new(then), Box::new(otherwise)),
                log,
                used,
            ) == if truthy(c) {
                run(then, log, n)
            } else {
                run(otherwise, log, n)
            },
            Err(halt) => run(
                Ast::Ternary(Box::new(condition), Box::new(then), Box::new(otherwise)),
                log,
                used,
            ) == Err::<(u64, nat), HaltView>(halt),
        },
{
}

/// What a conditional evaluates to does not depend on the branch that its
/// condition does not choose: any expression may stand there, one without a
/// value too.
pub proof fn law_conditional_ignores_the_other_branch(
    condition: Ast,
    then: Ast,
    otherwise: Ast,
    other: Ast,
    log: Seq<u64>,
    used: nat,
)
    ensures
        run(condition, log, used) matches Ok((c, _)) ==> if truthy(c) {
            run(Ast::Ternary(Box::new(condition), Box::new(then), Box::new(otherwise)), log, used)
                == run(
                Ast::Ternary(Box::new(condition), Box::new(then), Box::new(other)),
                log,
                used,
            )
        } else {
            run(Ast::Ternary(Box::new(condition), Box::new(then), Box::new(otherwise)), log, used)
                == run(
                Ast::Ternary(Box::new(condition), Box::new(other), Box::new(otherwise)),
                log,
                used,
            )
        },
{
}

/// A name that stands alone evaluates to zero, whatever the name, and
/// reads no answer.
pub proof fn law_variable_is_zero(name: Seq<char>, log: Seq<u64>, used: nat)
    ensures
        run(Ast::Variable(name), log, used) == Ok::<(u64, nat), HaltView>((ZERO, used)),
        evaluation(Ast::Variable(name), log) == Ok::<u64, HaltView>(ZERO),
{
}

/// The largest number of operations that an evaluation of the expression
/// can ask for.
pub open spec fn cost(e: Ast) -> nat
    decreases e, 0nat,
{
    match e {
        Ast::Number(_) => 1,
        Ast::Unary(_, operand) => cost(*operand),
        Ast::Binary(left, _, right) => cost(*left) + cost(*right) + 1,
        Ast::Ternary(condition, then, otherwise) => cost(*condition) + cost(*then) + cost(
            *otherwise,
        ),
        Ast::Variable(_) => 0,
        Ast::Function(_, args) => costs(args, args.len()) + 1,
    }
}

/// The sum of the costs of the first `count` arguments.
pub open spec fn costs(args: Seq<Ast>, count: nat) -> nat
    decreases args, count,
{
    if count == 0 || count > args.len() {
        0
    } else {
        costs(args, (count - 1) as nat) + cost(args[count - 1])
    }
}

/// The cost of the first arguments does not shrink as more are counted.
proof fn lemma_costs_grow(args: Seq<Ast>, few: nat, many: nat)
    requires
        few <= many <= args.len(),
    ensures
        costs(args, few) <= costs(args, many),
    decreases many,
{
    if few < many {
        lemma_costs_grow(args, few, (many - 1) as nat);
    }
}

/// An evaluation reads answers in order and never more than the cost of its
/// expression: with that many answers in the log beyond those spent, it
/// does not stop to ask.
pub proof fn law_evaluation_is_bounded(e: Ast, log: Seq<u64>, used: nat)
    requires
        used <= log.len(),
    ensures
        match run(e, log, used) {
            Ok((_, n)) => used <= n <= log.len() && n <= used + cost(e),
            Err(HaltView::Ask(_)) => log.len() < used + cost(e),
            Err(HaltView::Fail(_)) => true,
        },
    decreases e, 0nat,
{
    match e {
        Ast::Number(_) => {},
        Ast::Unary(op, operand) => {
            law_evaluation_is_bounded(*operand, log, used);
        },
        Ast::Binary(left, op, right) => {
            law_evaluation_is_bounded(*left, log, used);
            if let Ok((_, n)) = run(*left, log, used) {
                law_evaluation_is_bounded(*right, log, n);
            }
        },
        Ast::Ternary(condition, then, otherwise) => {
            law_evaluation_is_bounded(*condition, log, used);
            if let Ok((_, n)) = run(*condition, log, used) {
                law_evaluation_is_bounded(*then, log, n);
                law_evaluation_is_bounded(*otherwise, log, n);
            }
        },
        Ast::Variable(_) => {},
        Ast::Function(name, args) => {
            if let Some(function) = lookup_spec(name) {
                if args.len() >= function.arity_spec() {
                    lemma_arguments_are_bounded(args, function.arity_spec(), log, used);
                    lemma_costs_grow(args, function.arity_spec(), args.len());
                }
            }
        },
    }
}

/// The same bound for the arguments of a call.
proof fn lemma_arguments_are_bounded(args: Seq<Ast>, count: nat, log: Seq<u64>, used: nat)
    requires
        used <= log.len(),
        count <= args.len(),
    ensures
        match run_args(args, count, log, used) {
            Ok((values, n)) => used <= n <= log.len() && n <= used + costs(args, count)
                && values.len() == count,
            Err(HaltView::Ask(_)) => log.len() < used + costs(args, count),
            Err(HaltView::Fail(_)) => true,
        },
    decreases args, count,
{
    if count > 0 {
        lemma_arguments_are_bounded(args, (count - 1) as nat, log, used);
        if let Ok((_, n)) = run_args(args, (count - 1) as nat, log, used) {
            law_evaluation_is_bounded(args[count - 1], log, n);
        }
    }
}

/// With as many answers as the cost of the expression, an evaluation ends:
/// it has a value, or the expression has none.
pub proof fn law_evaluation_ends(e: Ast, log: Seq<u64>)
    requires
        log.len() >= cost(e),
    ensures
        !(evaluation(e, log) matches Err(HaltView::Ask(_))),
{
    law_evaluation_is_bounded(e, log, 0);
}

/// Whether `short` is the beginning of `long`.
pub open spec fn begins(short: Seq<u64>, long: Seq<u64>) -> bool {
    short.len() <= long.len() && forall|i: int| 0 <= i < short.len() ==> short[i] == long[i]
}

/// More answers take an evaluation further and change nothing of what it
/// did: once it has a value, or has failed, it has the same value, or has
/// failed in the same way, with every log that begins with this one.
pub proof fn law_more_answers_change_nothing(e: Ast, short: Seq<u64>, long: Seq<u64>, used: nat)
    requires
        begins(short, long),
        used <= short.len(),
    ensures
        match run(e, short, used) {
            Ok(done) => run(e, long, used) == Ok::<(u64, nat), HaltView>(done),
            Err(HaltView::Fail(error)) => run(e, long, used) == Err::<(u64, nat), HaltView>(
                HaltView::Fail(error),
            ),
            Err(HaltView::Ask(_)) => true,
        },
    decreases e, 0nat,
{
    match e {
        Ast::Number(_) => {},
        Ast::Unary(op, operand) => {
            law_more_answers_change_nothing(*operand, short, long, used);
        },
        Ast::Binary(left, op, right) => {
            law_more_answers_change_nothing(*left, short, long, used);
            law_evaluation_is_bounded(*left, short, used);
            if let Ok((_, n)) = run(*left, short, used) {
                law_more_answers_change_nothing(*right, short, long, n);
                law_evaluation_is_bounded(*right, short, n);
            }
        },
        Ast::Ternary(condition, then, otherwise) => {
            law_more_answers_change_nothing(*condition, short, long, used);
            law_evaluation_is_bounded(*condition, short, used);
            if let Ok((_, n)) = run(*condition, short, used) {
                law_more_answers_change_nothing(*then, short, long, n);
                law_more_answers_change_nothing(*otherwise, short, long, n);
            }
        },
        Ast::Variable(_) => {},
        Ast::Function(name, args) => {
            if let Some(function) = lookup_spec(name) {
                if args.len() >= function.arity_spec() {
                    lemma_more_answers_change_no_argument(
                        args,
                        function.arity_spec(),
                        short,
                        long,
                        used,
                    );
                    lemma_arguments_are_bounded(args, function.arity_spec(), short, used);
                }
            }
        },
    }
}

/// The same for the arguments of a call.
proof fn lemma_more_answers_change_no_argument(
    args: Seq<Ast>,
    count: nat,
    short: Seq<u64>,
    long: Seq<u64>,
    used: nat,
)
    requires
        begins(short, long),
        used <= short.len(),
        count <= args.len(),
    ensures
        match run_args(args, count, short, used) {
            Ok(done) => run_args(args, count, long, used) == Ok::<(Seq<u64>, nat), HaltView>(done),
            Err(HaltView::Fail(error)) => run_args(args, count, long, used) == Err::<
                (Seq<u64>, nat),
                HaltView,
            >(HaltView::Fail(error)),
            Err(HaltView::Ask(_)) => true,
        },
    decreases args, count,
{
    if count > 0 {
        lemma_more_answers_change_no_argument(args, (count - 1) as nat, short, long, used);
        lemma_arguments_are_bounded(args, (count - 1) as nat, short, used);
        if let Ok((_, n)) = run_args(args, (count - 1) as nat, short, used) {
            law_more_answers_change_nothing(args[count - 1], short, long, n);
        }
    }
}

/// Whether an operation is one that an evaluation asks for. The conversion
/// of a literal is, once the expression is known to be well formed, that of
/// a numeric literal; an arithmetic operation carries one of the five
/// arithmetic operators; a call carries as many values as its function
/// reads.
pub open spec fn is_asked(operation: OperationView, literals: bool) -> bool {
    match operation {
        OperationView::Literal(text) => literals ==> is_number_text(text),
        OperationView::Arithmetic(op, _, _) => op.is_arithmetic(),
        OperationView::Call(function, values) => values.len() == function.arity_spec(),
    }
}

/// Every operation that an evaluation asks for is one that can be
/// computed: its operator is an arithmetic one, its function has exactly
/// the values that it reads, and its literal, in a well-formed expression,
/// is a numeric literal.
pub proof fn law_operations_are_computable(e: Ast, log: Seq<u64>, used: nat)
    ensures
        run(e, log, used) matches Err(HaltView::Ask(operation)) ==> is_asked(
            operation,
            e.well_formed(),
        ),
    decreases e, 0nat,
{
    match e {
        Ast::Number(_) => {},
        Ast::Unary(op, operand) => {
            law_operations_are_computable(*operand, log, used);
        },
        Ast::Binary(left, op, right) => {
            law_operations_are_computable(*left, log, used);
            if let Ok((_, n)) = run(*left, log, used) {
                law_operations_are_computable(*right, log, n);
            }
        },
        Ast::Ternary(condition, then, otherwise) => {
            law_operations_are_computable(*condition, log, used);
            if let Ok((_, n)) = run(*condition, log, used) {
                law_operations_are_computable(*then, log, n);
                law_operations_are_computable(*otherwise, log, n);
            }
        },
        Ast::Variable(_) => {},
        Ast::Function(name, args) => {
            if let Some(function) = lookup_spec(name) {
                if args.len() >= function.arity_spec() {
                    lemma_arguments_are_computable(
                        args,
                        function.arity_spec(),
                        log,
                        used,
                        e.well_formed(),
                    );
                }
            }
        },
    }
}

/// The same for the arguments of a call, of which there are as many values
/// as arguments counted.
proof fn lemma_arguments_are_computable(
    args: Seq<Ast>,
    count: nat,
    log: Seq<u64>,
    used: nat,
    literals: bool,
)
    requires
        count <= args.len(),
        literals ==> forall|i: int| 0 <= i < args.len() ==> (#[trigger] args[i]).well_formed(),
    ensures
        match run_args(args, count, log, used) {
            Ok((values, _)) => values.len() == count,
            Err(HaltView::Ask(operation)) => is_asked(operation, literals),
            Err(HaltView::Fail(_)) => true,
        },
    decreases args, count,
{
    if count > 0 {
        lemma_arguments_are_computable(args, (count - 1) as nat, log, used, literals);
        if let Ok((_, n)) = run_args(args, (count - 1) as nat, log, used) {
            law_operations_are_computable(args[count - 1], log, n);
        }
    }
}

/// Whether every call in an expression names a function of the table and
/// gives it at least the arguments that it reads.
pub open spec fn calls_fit(e: Ast) -> bool
    decreases e,
{
    match e {
        Ast::Number(_) => true,
        Ast::Unary(_, operand) => calls_fit(*operand),
        Ast::Binary(left, _, right) => calls_fit(*left) && calls_fit(*right),
        Ast::Ternary(condition, then, otherwise) => calls_fit(*condition) && calls_fit(*then)
            && calls_fit(*otherwise),
        Ast::Variable(_) => true,
        Ast::Function(name, args) => {
            &&& lookup_spec(name) matches Some(function)
            &&& args.len() >= function.arity_spec()
            &&& forall|i: int| 0 <= i < args.len() ==> calls_fit(#[trigger] args[i])
        },
    }
}

/// An evaluation fails only at a call: an expression in which every call
/// names a function of the table, with the arguments that it reads, has a
/// value for every log that reaches far enough.
pub proof fn law_evaluation_fails_only_at_calls(e: Ast, log: Seq<u64>, used: nat)
    requires
        calls_fit(e),
    ensures
        !(run(e, log, used) matches Err(HaltView::Fail(_))),
    decreases e, 0nat,
{
    match e {
        Ast::Number(_) => {},
        Ast::Unary(op, operand) => {
            law_evaluation_fails_only_at_calls(*operand, log, used);
        },
        Ast::Binary(left, op, right) => {
            law_evaluation_fails_only_at_calls(*left, log, used);
            if let Ok((_, n)) = run(*left, log, used) {
                law_evaluation_fails_only_at_calls(*right, log, n);
            }
        },
        Ast::Ternary(condition, then, otherwise) => {
            law_evaluation_fails_only_at_calls(*condition, log, used);
            if let Ok((_, n)) = run(*condition, log, used) {
                law_evaluation_fails_only_at_calls(*then, log, n);
                law_evaluation_fails_only_at_calls(*otherwise, log, n);
            }
        },
        Ast::Variable(_) => {},
        Ast::Function(name, args) => {
            let function = lookup_spec(name)->Some_0;
            lemma_arguments_fail_only_at_calls(args, function.arity_spec(), log, used);
        },
    }
}

/// The same for the arguments of a call.
proof fn lemma_arguments_fail_only_at_calls(args: Seq<Ast>, count: nat, log: Seq<u64>, used: nat)
    requires
        count <= args.len(),
        forall|i: int| 0 <= i < args.len() ==> calls_fit(#[trigger] args[i]),
    ensures
        !(run_args(args, count, log, used) matches Err(HaltView::Fail(_))),
    decreases args, count,
{
    if count > 0 {
        lemma_arguments_fail_only_at_calls(args, (count - 1) as nat, log, used);
        if let Ok((_, n)) = run_args(args, (count - 1) as nat, log, used) {
            law_evaluation_fails_only_at_calls(args[count - 1], log, n);
        }
    }
}

/// An expression whose calls fit has a value once the log holds as many
/// answers as its cost.
pub proof fn law_evaluation_has_a_value(e: Ast, log: Seq<u64>)
    requires
        calls_fit(e),
        log.len() >= cost(e),
    ensures
        evaluation(e, log) is Ok,
{
    law_evaluation_fails_only_at_calls(e, log, 0);
    law_evaluation_is_bounded(e, log, 0);
}

} // verus!
