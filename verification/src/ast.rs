//! The syntax tree, and the mathematical model that contracts speak of.
use vstd::prelude::*;
use crate::text::{is_name_text, is_number_text};

verus! {

/// The tag of an operation. `NOT` is unary, `SUB` is unary or binary
/// depending on the node that carries it, all others are binary.
#[derive(Debug, Clone, Copy, PartialEq, Eq, Structural)]
pub enum Operator {
    /// ADD `+`
    ADD,
    /// SUB `-`
    SUB,
    /// MUL `*`
    MUL,
    /// DIV `/`
    DIV,
    /// REM `%`
    REM,
    /// AND `&&`
    AND,
    /// OR `||`
    OR,
    /// NOT `!`
    NOT,
    /// EQ `==`
    EQ,
    /// NEQ `!=`
    NEQ,
    /// LT `<`
    LT,
    /// GT `>`
    GT,
    /// LE `<=`
    LE,
    /// GE `>=`
    GE,
}

impl Operator {
    /// The operators that a `Unary` node may carry.
    pub open spec fn is_prefix(self) -> bool {
        self == Operator::SUB || self == Operator::NOT
    }

    /// The operators whose result is computed by floating-point arithmetic.
    pub open spec fn is_arithmetic(self) -> bool {
        self == Operator::ADD || self == Operator::SUB || self == Operator::MUL || self
            == Operator::DIV || self == Operator::REM
    }

    /// The operators that order or equate two numbers.
    pub open spec fn is_comparison(self) -> bool {
        self == Operator::EQ || self == Operator::NEQ || self == Operator::LT || self
            == Operator::GT || self == Operator::LE || self == Operator::GE
    }
}

/// A parsed expression. Every node owns its children.
#[derive(Debug, PartialEq)]
pub enum Expression {
    /// A numeric literal, kept as it was written: digits, an optional
    /// fraction, an optional exponent.
    Number(String),
    /// A prefix operation, `!` or `-`.
    Unary(Operator, Box<Expression>),
    /// An infix operation.
    Binary(Box<Expression>, Operator, Box<Expression>),
    /// `condition ? then : else`.
    Ternary(Box<Expression>, Box<Expression>, Box<Expression>),
    /// A name that stands alone. It has no binding and evaluates to zero.
    Variable(String),
    /// A call of a named function with its arguments in order.
    Function(String, Vec<Box<Expression>>),
}

/// The mathematical model of an [`Expression`]: the same tree over sequences.
pub enum Ast {
    Number(Seq<char>),
    Unary(Operator, Box<Ast>),
    Binary(Box<Ast>, Operator, Box<Ast>),
    Ternary(Box<Ast>, Box<Ast>, Box<Ast>),
    Variable(Seq<char>),
    Function(Seq<char>, Seq<Ast>),
}

/// The models of a list of argument expressions, in order.
pub open spec fn models(args: Seq<Box<Expression>>) -> Seq<Ast>
    decreases args,
{
    Seq::new(
        args.len(),
        |i: int|
            if 0 <= i < args.len() {
                args[i].model()
            } else {
                Ast::Variable(Seq::empty())
            },
    )
}

impl Ast {
    /// Whether the tree is one that the grammar can give: every literal is
    /// a numeric literal, every name is a name, and every operator fits the
    /// node that carries it, a prefix operator on a `Unary` node and any
    /// other than `NOT` on a `Binary` node.
    pub open spec fn well_formed(self) -> bool
        decreases self,
    {
        match self {
            Ast::Number(text) => is_number_text(text),
            Ast::Unary(op, operand) => op.is_prefix() && operand.well_formed(),
            Ast::Binary(left, op, right) => op != Operator::NOT && left.well_formed()
                && right.well_formed(),
            Ast::Ternary(condition, then, otherwise) => condition.well_formed()
                && then.well_formed() && otherwise.well_formed(),
            Ast::Variable(name) => is_name_text(name),
            Ast::Function(name, args) => is_name_text(name) && forall|i: int|
                0 <= i < args.len() ==> (#[trigger] args[i]).well_formed(),
        }
    }
}

impl Expression {
    /// The model of this expression.
    pub open spec fn model(&self) -> Ast
        decreases self,
    {
        match self {
            Expression::Number(text) => Ast::Number(text@),
            Expression::Unary(op, operand) => Ast::Unary(*op, Box::new(operand.model())),
            Expression::Binary(left, op, right) => Ast::Binary(
                Box::new(left.model()),
                *op,
                Box::new(right.model()),
            ),
            Expression::Ternary(condition, then, otherwise) => Ast::Ternary(
                Box::new(condition.model()),
                Box::new(then.model()),
                Box::new(otherwise.model()),
            ),
            Expression::Variable(name) => Ast::Variable(name@),
            Expression::Function(name, args) => Ast::Function(name@, models(args@)),
        }
    }
}

impl View for Expression {
    type V = Ast;

    open spec fn view(&self) -> Ast {
        self.model()
    }
}

/// Appending an argument appends its model.
pub proof fn lemma_models_push(args: Seq<Box<Expression>>, last: Box<Expression>)
    ensures
        models(args.push(last)) == models(args).push(last.model()),
{
    assert(models(args.push(last)) =~= models(args).push(last.model()));
}

/// Copies of the first `count` arguments of a call.
fn clone_args(args: &Vec<Box<Expression>>, count: usize) -> (r: Vec<Box<Expression>>)
    requires
        count <= args@.len(),
    ensures
        models(r@) == models(args@).take(count as int),
    decreases args, count,
{
    if count == 0 {
        let r: Vec<Box<Expression>> = Vec::new();
        assert(models(r@) =~= models(args@).take(0));
        r
    } else {
        let mut r = clone_args(args, count - 1);
        let last = Box::new((*args[count - 1]).clone());
        proof {
            lemma_models_push(r@, last);
            assert(models(args@).take(count - 1).push(last.model()) =~= models(args@).take(
                count as int,
            ));
        }
        r.push(last);
        r
    }
}

impl Clone for Expression {
    /// A copy of the whole tree.
    fn clone(&self) -> (r: Expression)
        ensures
            r@ == self@,
        decreases self, 0nat,
    {
        match self {
            Expression::Number(text) => Expression::Number(text.clone()),
            Expression::Unary(op, operand) => Expression::Unary(*op, Box::new((**operand).clone())),
            Expression::Binary(left, op, right) => Expression::Binary(
                Box::new((**left).clone()),
                *op,
                Box::new((**right).clone()),
            ),
            Expression::Ternary(condition, then, otherwise) => Expression::Ternary(
                Box::new((**condition).clone()),
                Box::new((**then).clone()),
                Box::new((**otherwise).clone()),
            ),
            Expression::Variable(name) => Expression::Variable(name.clone()),
            Expression::Function(name, args) => {
                let copies = clone_args(args, args.len());
                assert(models(args@).take(args@.len() as int) =~= models(args@));
                Expression::Function(name.clone(), copies)
            },
        }
    }
}

} // verus!
