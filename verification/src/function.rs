//! The table of built-in functions: their names and how many arguments
//! each of them reads.
use vstd::prelude::*;
use crate::text::texts_equal;

verus! {

/// A built-in function. The table is closed: a call of any other name fails.
#[derive(Debug, Clone, Copy, PartialEq, Eq, Structural)]
pub enum MathFunction {
    /// `floor`: the largest integer at or below the argument.
    Floor,
    /// `ceil`: the smallest integer at or above the argument.
    Ceil,
    /// `round`: the nearest integer, halves away from zero.
    Round,
    /// `trunc`: the integer part.
    Trunc,
    /// `fract`: the fractional part.
    Fract,
    /// `abs`: the absolute value.
    Abs,
    /// `signum`: the sign, as one or minus one.
    Signum,
    /// `mul_add`: the first argument times the second plus the third, rounded once.
    MulAdd,
    /// `div_euclid`: the quotient of Euclidean division.
    DivEuclid,
    /// `rem_euclid`: the remainder of Euclidean division, never negative.
    RemEuclid,
    /// `powf`: the first argument raised to the second.
    Powf,
    /// `sqrt`: the square root.
    Sqrt,
    /// `exp`: the exponential function.
    Exp,
    /// `exp2`: two raised to the argument.
    Exp2,
    /// `ln`: the natural logarithm.
    Ln,
    /// `log`: the logarithm of the first argument to the base given second.
    Log,
    /// `log2`: the logarithm to base two.
    Log2,
    /// `log10`: the logarithm to base ten.
    Log10,
    /// `cbrt`: the cube root.
    Cbrt,
    /// `hypot`: the length of the hypotenuse over the two arguments.
    Hypot,
    /// `sin`: the sine.
    Sin,
    /// `cos`: the cosine.
    Cos,
    /// `tan`: the tangent.
    Tan,
    /// `asin`: the arcsine.
    Asin,
    /// `acos`: the arccosine.
    Acos,
    /// `atan`: the arctangent.
    Atan,
    /// `atan2`: the four-quadrant arctangent of the first argument over the second.
    Atan2,
    /// `exp_m1`: the exponential function minus one.
    ExpM1,
    /// `ln_1p`: the natural logarithm of one plus the argument.
    Ln1p,
    /// `sinh`: the hyperbolic sine.
    Sinh,
    /// `cosh`: the hyperbolic cosine.
    Cosh,
    /// `tanh`: the hyperbolic tangent.
    Tanh,
    /// `asinh`: the inverse hyperbolic sine.
    Asinh,
    /// `acosh`: the inverse hyperbolic cosine.
    Acosh,
    /// `atanh`: the inverse hyperbolic tangent.
    Atanh,
}

impl MathFunction {
    /// The name by which the function is called.
    pub open spec fn name_spec(self) -> Seq<char> {
        match self {
            MathFunction::Floor => "floor"@,
            MathFunction::Ceil => "ceil"@,
            MathFunction::Round => "round"@,
            MathFunction::Trunc => "trunc"@,
            MathFunction::Fract => "fract"@,
            MathFunction::Abs => "abs"@,
            MathFunction::Signum => "signum"@,
            MathFunction::MulAdd => "mul_add"@,
            MathFunction::DivEuclid => "div_euclid"@,
            MathFunction::RemEuclid => "rem_euclid"@,
            MathFunction::Powf => "powf"@,
            MathFunction::Sqrt => "sqrt"@,
            MathFunction::Exp => "exp"@,
            MathFunction::Exp2 => "exp2"@,
            MathFunction::Ln => "ln"@,
            MathFunction::Log => "log"@,
            MathFunction::Log2 => "log2"@,
            MathFunction::Log10 => "log10"@,
            MathFunction::Cbrt => "cbrt"@,
            MathFunction::Hypot => "hypot"@,
            MathFunction::Sin => "sin"@,
            MathFunction::Cos => "cos"@,
            MathFunction::Tan => "tan"@,
            MathFunction::Asin => "asin"@,
            MathFunction::Acos => "acos"@,
            MathFunction::Atan => "atan"@,
            MathFunction::Atan2 => "atan2"@,
            MathFunction::ExpM1 => "exp_m1"@,
            MathFunction::Ln1p => "ln_1p"@,
            MathFunction::Sinh => "sinh"@,
            MathFunction::Cosh => "cosh"@,
            MathFunction::Tanh => "tanh"@,
            MathFunction::Asinh => "asinh"@,
            MathFunction::Acosh => "acosh"@,
            MathFunction::Atanh => "atanh"@,
        }
    }

    /// The number of arguments that the function reads.
    pub open spec fn arity_spec(self) -> nat {
        match self {
            MathFunction::MulAdd => 3,
            MathFunction::DivEuclid
            | MathFunction::RemEuclid
            | MathFunction::Powf
            | MathFunction::Log
            | MathFunction::Hypot
            | MathFunction::Atan2 => 2,
            _ => 1,
        }
    }

    /// The name by which the function is called.
    pub fn name(self) -> (r: &'static str)
        ensures
            r@ == self.name_spec(),
    {
        match self {
            MathFunction::Floor => "floor",
            MathFunction::Ceil => "ceil",
            MathFunction::Round => "round",
            MathFunction::Trunc => "trunc",
            MathFunction::Fract => "fract",
            MathFunction::Abs => "abs",
            MathFunction::Signum => "signum",
            MathFunction::MulAdd => "mul_add",
            MathFunction::DivEuclid => "div_euclid",
            MathFunction::RemEuclid => "rem_euclid",
            MathFunction::Powf => "powf",
            MathFunction::Sqrt => "sqrt",
            MathFunction::Exp => "exp",
            MathFunction::Exp2 => "exp2",
            MathFunction::Ln => "ln",
            MathFunction::Log => "log",
            MathFunction::Log2 => "log2",
            MathFunction::Log10 => "log10",
            MathFunction::Cbrt => "cbrt",
            MathFunction::Hypot => "hypot",
            MathFunction::Sin => "sin",
            MathFunction::Cos => "cos",
            MathFunction::Tan => "tan",
            MathFunction::Asin => "asin",
            MathFunction::Acos => "acos",
            MathFunction::Atan => "atan",
            MathFunction::Atan2 => "atan2",
            MathFunction::ExpM1 => "exp_m1",
            MathFunction::Ln1p => "ln_1p",
            MathFunction::Sinh => "sinh",
            MathFunction::Cosh => "cosh",
            MathFunction::Tanh => "tanh",
            MathFunction::Asinh => "asinh",
            MathFunction::Acosh => "acosh",
            MathFunction::Atanh => "atanh",
        }
    }

    /// The number of arguments that the function reads: one, two or three.
    pub fn arity(self) -> (r: usize)
        ensures
            r == self.arity_spec(),
            1 <= r <= 3,
    {
        match self {
            MathFunction::MulAdd => 3,
            MathFunction::DivEuclid
            | MathFunction::RemEuclid
            | MathFunction::Powf
            | MathFunction::Log
            | MathFunction::Hypot
            | MathFunction::Atan2 => 2,
            _ => 1,
        }
    }

    /// Finds the function that a name stands for, if it stands for one.
    pub fn lookup(name: &str) -> (r: Option<MathFunction>)
        ensures
            r == lookup_spec(name@),
    {
        if texts_equal(name, "floor") {
            Some(MathFunction::Floor)
        } else if texts_equal(name, "ceil") {
            Some(MathFunction::Ceil)
        } else if texts_equal(name, "round") {
            Some(MathFunction::Round)
        } else if texts_equal(name, "trunc") {
            Some(MathFunction::Trunc)
        } else if texts_equal(name, "fract") {
            Some(MathFunction::Fract)
        } else if texts_equal(name, "abs") {
            Some(MathFunction::Abs)
        } else if texts_equal(name, "signum") {
            Some(MathFunction::Signum)
        } else if texts_equal(name, "mul_add") {
            Some(MathFunction::MulAdd)
        } else if texts_equal(name, "div_euclid") {
            Some(MathFunction::DivEuclid)
        } else if texts_equal(name, "rem_euclid") {
            Some(MathFunction::RemEuclid)
        } else if texts_equal(name, "powf") {
            Some(MathFunction::Powf)
        } else if texts_equal(name, "sqrt") {
            Some(MathFunction::Sqrt)
        } else if texts_equal(name, "exp") {
            Some(MathFunction::Exp)
        } else if texts_equal(name, "exp2") {
            Some(MathFunction::Exp2)
        } else if texts_equal(name, "ln") {
            Some(MathFunction::Ln)
        } else if texts_equal(name, "log") {
            Some(MathFunction::Log)
        } else if texts_equal(name, "log2") {
            Some(MathFunction::Log2)
        } else if texts_equal(name, "log10") {
            Some(MathFunction::Log10)
        } else if texts_equal(name, "cbrt") {
            Some(MathFunction::Cbrt)
        } else if texts_equal(name, "hypot") {
            Some(MathFunction::Hypot)
        } else if texts_equal(name, "sin") {
            Some(MathFunction::Sin)
        } else if texts_equal(name, "cos") {
            Some(MathFunction::Cos)
        } else if texts_equal(name, "tan") {
            Some(MathFunction::Tan)
        } else if texts_equal(name, "asin") {
            Some(MathFunction::Asin)
        } else if texts_equal(name, "acos") {
            Some(MathFunction::Acos)
        } else if texts_equal(name, "atan") {
            Some(MathFunction::Atan)
        } else if texts_equal(name, "atan2") {
            Some(MathFunction::Atan2)
        } else if texts_equal(name, "exp_m1") {
            Some(MathFunction::ExpM1)
        } else if texts_equal(name, "ln_1p") {
            Some(MathFunction::Ln1p)
        } else if texts_equal(name, "sinh") {
            Some(MathFunction::Sinh)
        } else if texts_equal(name, "cosh") {
            Some(MathFunction::Cosh)
        } else if texts_equal(name, "tanh") {
            Some(MathFunction::Tanh)
        } else if texts_equal(name, "asinh") {
            Some(MathFunction::Asinh)
        } else if texts_equal(name, "acosh") {
            Some(MathFunction::Acosh)
        } else if texts_equal(name, "atanh") {
            Some(MathFunction::Atanh)
        } else {
            None
        }
    }
}

/// The function that a name stands for: the table, read from its top.
pub open spec fn lookup_spec(name: Seq<char>) -> Option<MathFunction> {
    if name == "floor"@ {
        Some(MathFunction::Floor)
    } else if name == "ceil"@ {
        Some(MathFunction::Ceil)
    } else if name == "round"@ {
        Some(MathFunction::Round)
    } else if name == "trunc"@ {
        Some(MathFunction::Trunc)
    } else if name == "fract"@ {
        Some(MathFunction::Fract)
    } else if name == "abs"@ {
        Some(MathFunction::Abs)
    } else if name == "signum"@ {
        Some(MathFunction::Signum)
    } else if name == "mul_add"@ {
        Some(MathFunction::MulAdd)
    } else if name == "div_euclid"@ {
        Some(MathFunction::DivEuclid)
    } else if name == "rem_euclid"@ {
        Some(MathFunction::RemEuclid)
    } else if name == "powf"@ {
        Some(MathFunction::Powf)
    } else if name == "sqrt"@ {
        Some(MathFunction::Sqrt)
    } else if name == "exp"@ {
        Some(MathFunction::Exp)
    } else if name == "exp2"@ {
        Some(MathFunction::Exp2)
    } else if name == "ln"@ {
        Some(MathFunction::Ln)
    } else if name == "log"@ {
        Some(MathFunction::Log)
    } else if name == "log2"@ {
        Some(MathFunction::Log2)
    } else if name == "log10"@ {
        Some(MathFunction::Log10)
    } else if name == "cbrt"@ {
        Some(MathFunction::Cbrt)
    } else if name == "hypot"@ {
        Some(MathFunction::Hypot)
    } else if name == "sin"@ {
        Some(MathFunction::Sin)
    } else if name == "cos"@ {
        Some(MathFunction::Cos)
    } else if name == "tan"@ {
        Some(MathFunction::Tan)
    } else if name == "asin"@ {
        Some(MathFunction::Asin)
    } else if name == "acos"@ {
        Some(MathFunction::Acos)
    } else if name == "atan"@ {
        Some(MathFunction::Atan)
    } else if name == "atan2"@ {
        Some(MathFunction::Atan2)
    } else if name == "exp_m1"@ {
        Some(MathFunction::ExpM1)
    } else if name == "ln_1p"@ {
        Some(MathFunction::Ln1p)
    } else if name == "sinh"@ {
        Some(MathFunction::Sinh)
    } else if name == "cosh"@ {
        Some(MathFunction::Cosh)
    } else if name == "tanh"@ {
        Some(MathFunction::Tanh)
    } else if name == "asinh"@ {
        Some(MathFunction::Asinh)
    } else if name == "acosh"@ {
        Some(MathFunction::Acosh)
    } else if name == "atanh"@ {
        Some(MathFunction::Atanh)
    } else {
        None
    }
}

/// What the name of a function is made of: its length, and the characters
/// that tell it from the other names of its length.
proof fn lemma_names_are_known()
    ensures
        "floor"@.len() == 5,
        "ceil"@.len() == 4,
        "round"@.len() == 5,
        "trunc"@.len() == 5,
        "fract"@.len() == 5,
        "abs"@.len() == 3,
        "signum"@.len() == 6,
        "mul_add"@.len() == 7,
        "div_euclid"@.len() == 10,
        "rem_euclid"@.len() == 10,
        "powf"@.len() == 4,
        "sqrt"@.len() == 4,
        "exp"@.len() == 3,
        "exp2"@.len() == 4,
        "ln"@.len() == 2,
        "log"@.len() == 3,
        "log2"@.len() == 4,
        "log10"@.len() == 5,
        "cbrt"@.len() == 4,
        "hypot"@.len() == 5,
        "sin"@.len() == 3,
        "cos"@.len() == 3,
        "tan"@.len() == 3,
        "asin"@.len() == 4,
        "acos"@.len() == 4,
        "atan"@.len() == 4,
        "atan2"@.len() == 5,
        "exp_m1"@.len() == 6,
        "ln_1p"@.len() == 5,
        "sinh"@.len() == 4,
        "cosh"@.len() == 4,
        "tanh"@.len() == 4,
        "asinh"@.len() == 5,
        "acosh"@.len() == 5,
        "atanh"@.len() == 5,
        "floor"@[0] == 'f' && "floor"@[1] == 'l' && "floor"@[2] == 'o' && "floor"@[3] == 'o'
            && "floor"@[4] == 'r',
        "ceil"@[0] == 'c' && "ceil"@[1] == 'e' && "ceil"@[2] == 'i' && "ceil"@[3] == 'l',
        "round"@[0] == 'r' && "round"@[1] == 'o' && "round"@[2] == 'u' && "round"@[3] == 'n'
            && "round"@[4] == 'd',
        "trunc"@[0] == 't' && "trunc"@[1] == 'r' && "trunc"@[2] == 'u' && "trunc"@[3] == 'n'
            && "trunc"@[4] == 'c',
        "fract"@[0] == 'f' && "fract"@[1] == 'r' && "fract"@[2] == 'a' && "fract"@[3] == 'c'
            && "fract"@[4] == 't',
        "abs"@[0] == 'a' && "abs"@[1] == 'b' && "abs"@[2] == 's',
        "signum"@[0] == 's' && "signum"@[1] == 'i' && "signum"@[2] == 'g' && "signum"@[3] == 'n'
            && "signum"@[4] == 'u' && "signum"@[5] == 'm',
        "mul_add"@[0] == 'm' && "mul_add"@[1] == 'u' && "mul_add"@[2] == 'l'
            && "mul_add"@[3] == '_' && "mul_add"@[4] == 'a' && "mul_add"@[5] == 'd'
            && "mul_add"@[6] == 'd',
        "div_euclid"@[0] == 'd' && "div_euclid"@[1] == 'i' && "div_euclid"@[2] == 'v'
            && "div_euclid"@[3] == '_' && "div_euclid"@[4] == 'e' && "div_euclid"@[5] == 'u'
            && "div_euclid"@[6] == 'c' && "div_euclid"@[7] == 'l' && "div_euclid"@[8] == 'i'
            && "div_euclid"@[9] == 'd',
        "rem_euclid"@[0] == 'r' && "rem_euclid"@[1] == 'e' && "rem_euclid"@[2] == 'm'
            && "rem_euclid"@[3] == '_' && "rem_euclid"@[4] == 'e' && "rem_euclid"@[5] == 'u'
            && "rem_euclid"@[6] == 'c' && "rem_euclid"@[7] == 'l' && "rem_euclid"@[8] == 'i'
            && "rem_euclid"@[9] == 'd',
        "powf"@[0] == 'p' && "powf"@[1] == 'o' && "powf"@[2] == 'w' && "powf"@[3] == 'f',
        "sqrt"@[0] == 's' && "sqrt"@[1] == 'q' && "sqrt"@[2] == 'r' && "sqrt"@[3] == 't',
        "exp"@[0] == 'e' && "exp"@[1] == 'x' && "exp"@[2] == 'p',
        "exp2"@[0] == 'e' && "exp2"@[1] == 'x' && "exp2"@[2] == 'p' && "exp2"@[3] == '2',
        "ln"@[0] == 'l' && "ln"@[1] == 'n',
        "log"@[0] == 'l' && "log"@[1] == 'o' && "log"@[2] == 'g',
        "log2"@[0] == 'l' && "log2"@[1] == 'o' && "log2"@[2] == 'g' && "log2"@[3] == '2',
        "log10"@[0] == 'l' && "log10"@[1] == 'o' && "log10"@[2] == 'g' && "log10"@[3] == '1'
            && "log10"@[4] == '0',
        "cbrt"@[0] == 'c' && "cbrt"@[1] == 'b' && "cbrt"@[2] == 'r' && "cbrt"@[3] == 't',
        "hypot"@[0] == 'h' && "hypot"@[1] == 'y' && "hypot"@[2] == 'p' && "hypot"@[3] == 'o'
            && "hypot"@[4] == 't',
        "sin"@[0] == 's' && "sin"@[1] == 'i' && "sin"@[2] == 'n',
        "cos"@[0] == 'c' && "cos"@[1] == 'o' && "cos"@[2] == 's',
        "tan"@[0] == 't' && "tan"@[1] == 'a' && "tan"@[2] == 'n',
        "asin"@[0] == 'a' && "asin"@[1] == 's' && "asin"@[2] == 'i' && "asin"@[3] == 'n',
        "acos"@[0] == 'a' && "acos"@[1] == 'c' && "acos"@[2] == 'o' && "acos"@[3] == 's',
        "atan"@[0] == 'a' && "atan"@[1] == 't' && "atan"@[2] == 'a' && "atan"@[3] == 'n',
        "atan2"@[0] == 'a' && "atan2"@[1] == 't' && "atan2"@[2] == 'a' && "atan2"@[3] == 'n'
            && "atan2"@[4] == '2',
        "exp_m1"@[0] == 'e' && "exp_m1"@[1] == 'x' && "exp_m1"@[2] == 'p' && "exp_m1"@[3] == '_'
            && "exp_m1"@[4] == 'm' && "exp_m1"@[5] == '1',
        "ln_1p"@[0] == 'l' && "ln_1p"@[1] == 'n' && "ln_1p"@[2] == '_' && "ln_1p"@[3] == '1'
            && "ln_1p"@[4] == 'p',
        "sinh"@[0] == 's' && "sinh"@[1] == 'i' && "sinh"@[2] == 'n' && "sinh"@[3] == 'h',
        "cosh"@[0] == 'c' && "cosh"@[1] == 'o' && "cosh"@[2] == 's' && "cosh"@[3] == 'h',
        "tanh"@[0] == 't' && "tanh"@[1] == 'a' && "tanh"@[2] == 'n' && "tanh"@[3] == 'h',
        "asinh"@[0] == 'a' && "asinh"@[1] == 's' && "asinh"@[2] == 'i' && "asinh"@[3] == 'n'
            && "asinh"@[4] == 'h',
        "acosh"@[0] == 'a' && "acosh"@[1] == 'c' && "acosh"@[2] == 'o' && "acosh"@[3] == 's'
            && "acosh"@[4] == 'h',
        "atanh"@[0] == 'a' && "atanh"@[1] == 't' && "atanh"@[2] == 'a' && "atanh"@[3] == 'n'
            && "atanh"@[4] == 'h',
{
    reveal_strlit("floor");
    reveal_strlit("ceil");
    reveal_strlit("round");
    reveal_strlit("trunc");
    reveal_strlit("fract");
    reveal_strlit("abs");
    reveal_strlit("signum");
    reveal_strlit("mul_add");
    reveal_strlit("div_euclid");
    reveal_strlit("rem_euclid");
    reveal_strlit("powf");
    reveal_strlit("sqrt");
    reveal_strlit("exp");
    reveal_strlit("exp2");
    reveal_strlit("ln");
    reveal_strlit("log");
    reveal_strlit("log2");
    reveal_strlit("log10");
    reveal_strlit("cbrt");
    reveal_strlit("hypot");
    reveal_strlit("sin");
    reveal_strlit("cos");
    reveal_strlit("tan");
    reveal_strlit("asin");
    reveal_strlit("acos");
    reveal_strlit("atan");
    reveal_strlit("atan2");
    reveal_strlit("exp_m1");
    reveal_strlit("ln_1p");
    reveal_strlit("sinh");
    reveal_strlit("cosh");
    reveal_strlit("tanh");
    reveal_strlit("asinh");
    reveal_strlit("acosh");
    reveal_strlit("atanh");
}

/// Every function of the table is found by its own name, and by no other
/// name: no two functions share one.
pub proof fn law_lookup_by_name(function: MathFunction, name: Seq<char>)
    ensures
        lookup_spec(name) == Some(function) <==> name == function.name_spec(),
{
    lemma_names_are_known();
}

} // verus!
