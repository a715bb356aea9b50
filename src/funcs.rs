//! The catalog of built-in functions.
use vstd::prelude::*;

use vstd::arithmetic::div_mod::{lemma_fundamental_div_mod, lemma_mul_mod_noop_left};

use crate::token::{Error, ErrorM, Token};

verus! {

/// A function of one number, applied to its evaluated argument.
#[derive(Debug, Clone, Copy, PartialEq, Eq, Structural)]
pub enum UnaryFn {
    Floor,
    Ceil,
    Round,
    Trunc,
    Fract,
    Abs,
    Exp,
    Exp2,
    Ln,
    Log2,
    Log10,
    Cbrt,
    ExpM1,
    Ln1p,
    Sqrt,
    Sin,
    Cos,
    Tan,
    Asin,
    Acos,
    Atan,
    Sinh,
    Cosh,
    Tanh,
    Asinh,
    Acosh,
    Atanh,
    Recip,
    ToDegrees,
    ToRadians,
    SigNum,
}

impl UnaryFn {
    /// The function's name as registered, before case conversion.
    pub open spec fn spec_name(self) -> Seq<char> {
        match self {
            UnaryFn::Floor => "Floor"@,
            UnaryFn::Ceil => "Ceil"@,
            UnaryFn::Round => "Round"@,
            UnaryFn::Trunc => "Trunc"@,
            UnaryFn::Fract => "Fract"@,
            UnaryFn::Abs => "Abs"@,
            UnaryFn::Exp => "Exp"@,
            UnaryFn::Exp2 => "Exp2"@,
            UnaryFn::Ln => "Ln"@,
            UnaryFn::Log2 => "Log2"@,
            UnaryFn::Log10 => "Log10"@,
            UnaryFn::Cbrt => "Cbrt"@,
            UnaryFn::ExpM1 => "ExpM1"@,
            UnaryFn::Ln1p => "Ln1p"@,
            UnaryFn::Sqrt => "Sqrt"@,
            UnaryFn::Sin => "Sin"@,
            UnaryFn::Cos => "Cos"@,
            UnaryFn::Tan => "Tan"@,
            UnaryFn::Asin => "Asin"@,
            UnaryFn::Acos => "Acos"@,
            UnaryFn::Atan => "Atan"@,
            UnaryFn::Sinh => "Sinh"@,
            UnaryFn::Cosh => "Cosh"@,
            UnaryFn::Tanh => "Tanh"@,
            UnaryFn::Asinh => "Asinh"@,
            UnaryFn::Acosh => "Acosh"@,
            UnaryFn::Atanh => "Atanh"@,
            UnaryFn::Recip => "Recip"@,
            UnaryFn::ToDegrees => "ToDegrees"@,
            UnaryFn::ToRadians => "ToRadians"@,
            UnaryFn::SigNum => "SigNum"@,
        }
    }

    pub fn name(&self) -> (r: &'static str)
        ensures
            r@ == self.spec_name(),
    {
        match self {
            UnaryFn::Floor => "Floor",
            UnaryFn::Ceil => "Ceil",
            UnaryFn::Round => "Round",
            UnaryFn::Trunc => "Trunc",
            UnaryFn::Fract => "Fract",
            UnaryFn::Abs => "Abs",
            UnaryFn::Exp => "Exp",
            UnaryFn::Exp2 => "Exp2",
            UnaryFn::Ln => "Ln",
            UnaryFn::Log2 => "Log2",
            UnaryFn::Log10 => "Log10",
            UnaryFn::Cbrt => "Cbrt",
            UnaryFn::ExpM1 => "ExpM1",
            UnaryFn::Ln1p => "Ln1p",
            UnaryFn::Sqrt => "Sqrt",
            UnaryFn::Sin => "Sin",
            UnaryFn::Cos => "Cos",
            UnaryFn::Tan => "Tan",
            UnaryFn::Asin => "Asin",
            UnaryFn::Acos => "Acos",
            UnaryFn::Atan => "Atan",
            UnaryFn::Sinh => "Sinh",
            UnaryFn::Cosh => "Cosh",
            UnaryFn::Tanh => "Tanh",
            UnaryFn::Asinh => "Asinh",
            UnaryFn::Acosh => "Acosh",
            UnaryFn::Atanh => "Atanh",
            UnaryFn::Recip => "Recip",
            UnaryFn::ToDegrees => "ToDegrees",
            UnaryFn::ToRadians => "ToRadians",
            UnaryFn::SigNum => "SigNum",
        }
    }
}

/// A function of two numbers, applied to its evaluated arguments.
#[derive(Debug, Clone, Copy, PartialEq, Eq, Structural)]
pub enum BinaryFn {
    Min,
    Max,
    Log,
    Hypot,
    Atan2,
}

impl BinaryFn {
    /// The function's name as registered, before case conversion.
    pub open spec fn spec_name(self) -> Seq<char> {
        match self {
            BinaryFn::Min => "Min"@,
            BinaryFn::Max => "Max"@,
            BinaryFn::Log => "Log"@,
            BinaryFn::Hypot => "Hypot"@,
            BinaryFn::Atan2 => "Atan2"@,
        }
    }

    pub fn name(&self) -> (r: &'static str)
        ensures
            r@ == self.spec_name(),
    {
        match self {
            BinaryFn::Min => "Min",
            BinaryFn::Max => "Max",
            BinaryFn::Log => "Log",
            BinaryFn::Hypot => "Hypot",
            BinaryFn::Atan2 => "Atan2",
        }
    }
}

/// A test of one number, which gives 1 when it holds and 0 otherwise.
#[derive(Debug, Clone, Copy, PartialEq, Eq, Structural)]
pub enum PredicateFn {
    IsInfinite,
    IsNan,
    IsFinite,
    IsSubnormal,
    IsNormal,
}

impl PredicateFn {
    /// The function's name as registered, before case conversion.
    pub open spec fn spec_name(self) -> Seq<char> {
        match self {
            PredicateFn::IsInfinite => "IsInfinite"@,
            PredicateFn::IsNan => "IsNan"@,
            PredicateFn::IsFinite => "IsFinite"@,
            PredicateFn::IsSubnormal => "IsSubnormal"@,
            PredicateFn::IsNormal => "IsNormal"@,
        }
    }

    pub fn name(&self) -> (r: &'static str)
        ensures
            r@ == self.spec_name(),
    {
        match self {
            PredicateFn::IsInfinite => "IsInfinite",
            PredicateFn::IsNan => "IsNan",
            PredicateFn::IsFinite => "IsFinite",
            PredicateFn::IsSubnormal => "IsSubnormal",
            PredicateFn::IsNormal => "IsNormal",
        }
    }
}

/// A combination of two truth values, each argument being true when it is above 0.
#[derive(Debug, Clone, Copy, PartialEq, Eq, Structural)]
pub enum LogicFn {
    And,
    Or,
    Xor,
    Lt,
    Le,
    Gt,
    Ge,
    Eq,
    Ne,
}

impl LogicFn {
    /// The function's name as registered, before case conversion.
    pub open spec fn spec_name(self) -> Seq<char> {
        match self {
            LogicFn::And => "And"@,
            LogicFn::Or => "Or"@,
            LogicFn::Xor => "Xor"@,
            LogicFn::Lt => "Lt"@,
            LogicFn::Le => "Le"@,
            LogicFn::Gt => "Gt"@,
            LogicFn::Ge => "Ge"@,
            LogicFn::Eq => "Eq"@,
            LogicFn::Ne => "Ne"@,
        }
    }

    pub fn name(&self) -> (r: &'static str)
        ensures
            r@ == self.spec_name(),
    {
        match self {
            LogicFn::And => "And",
            LogicFn::Or => "Or",
            LogicFn::Xor => "Xor",
            LogicFn::Lt => "Lt",
            LogicFn::Le => "Le",
            LogicFn::Gt => "Gt",
            LogicFn::Ge => "Ge",
            LogicFn::Eq => "Eq",
            LogicFn::Ne => "Ne",
        }
    }
}

/// `if(cond, then, else)`: evaluates `cond`, then only the branch that it selects.
#[derive(Debug, Clone, Copy, PartialEq, Eq, Structural)]
pub struct If;

impl If {
    pub open spec fn spec_name(self) -> Seq<char> {
        "if"@
    }

    pub fn name(&self) -> (r: &'static str)
        ensures
            r@ == self.spec_name(),
    {
        "if"
    }
}

/// `not(x)`: 1 when `x` is at most 0, else 0.
#[derive(Debug, Clone, Copy, PartialEq, Eq, Structural)]
pub struct Not;

impl Not {
    pub open spec fn spec_name(self) -> Seq<char> {
        "not"@
    }

    pub fn name(&self) -> (r: &'static str)
        ensures
            r@ == self.spec_name(),
    {
        "not"
    }
}

/// `clamp(value, min, max)`: `value` bounded to `[min, max]`.
#[derive(Debug, Clone, Copy, PartialEq, Eq, Structural)]
pub struct Clamp;

impl Clamp {
    pub open spec fn spec_name(self) -> Seq<char> {
        "clamp"@
    }

    pub fn name(&self) -> (r: &'static str)
        ensures
            r@ == self.spec_name(),
    {
        "clamp"
    }
}

/// `lerp(t, a, b)`: `a + (b - a) * t`.
#[derive(Debug, Clone, Copy, PartialEq, Eq, Structural)]
pub struct Lerp;

impl Lerp {
    pub open spec fn spec_name(self) -> Seq<char> {
        "lerp"@
    }

    pub fn name(&self) -> (r: &'static str)
        ensures
            r@ == self.spec_name(),
    {
        "lerp"
    }
}

/// `factorial(n)`: the product of the integers from 1 to `n`.
#[derive(Debug, Clone, Copy, PartialEq, Eq, Structural)]
pub struct Factorial;

impl Factorial {
    pub open spec fn spec_name(self) -> Seq<char> {
        "factorial"@
    }

    pub fn name(&self) -> (r: &'static str)
        ensures
            r@ == self.spec_name(),
    {
        "factorial"
    }
}

/// `gcf(a, b)`: the greatest common factor of `a` and `b`.
#[derive(Debug, Clone, Copy, PartialEq, Eq, Structural)]
pub struct Gcf;

impl Gcf {
    pub open spec fn spec_name(self) -> Seq<char> {
        "gcf"@
    }

    pub fn name(&self) -> (r: &'static str)
        ensures
            r@ == self.spec_name(),
    {
        "gcf"
    }
}

/// `lcm(a, b)`: `a * b` divided by the greatest common factor of `a` and `b`.
#[derive(Debug, Clone, Copy, PartialEq, Eq, Structural)]
pub struct Lcm;

impl Lcm {
    pub open spec fn spec_name(self) -> Seq<char> {
        "lcm"@
    }

    pub fn name(&self) -> (r: &'static str)
        ensures
            r@ == self.spec_name(),
    {
        "lcm"
    }
}

/// `exit([code])`: ends the process with `code`, 0 when it is not given.
#[derive(Debug, Clone, Copy, PartialEq, Eq, Structural)]
pub struct Exit;

impl Exit {
    pub open spec fn spec_name(self) -> Seq<char> {
        "exit"@
    }

    pub fn name(&self) -> (r: &'static str)
        ensures
            r@ == self.spec_name(),
    {
        "exit"
    }
}

/// `dbg(x)`: shows the argument's text beside its value and gives the value.
#[derive(Debug, Clone, Copy, PartialEq, Eq, Structural)]
pub struct Dbg;

impl Dbg {
    pub open spec fn spec_name(self) -> Seq<char> {
        "dbg"@
    }

    pub fn name(&self) -> (r: &'static str)
        ensures
            r@ == self.spec_name(),
    {
        "dbg"
    }
}

/// A built-in function.
#[derive(Debug, Clone, Copy, PartialEq, Eq, Structural)]
pub enum Builtin {
    Unary(UnaryFn),
    Binary(BinaryFn),
    Predicate(PredicateFn),
    Logic(LogicFn),
    If(If),
    Not(Not),
    Clamp(Clamp),
    Lerp(Lerp),
    Factorial(Factorial),
    Gcf(Gcf),
    Lcm(Lcm),
    Exit(Exit),
    Dbg(Dbg),
}

impl Builtin {
    /// The function's name as registered, before case conversion.
    pub open spec fn spec_name(self) -> Seq<char> {
        match self {
            Builtin::Unary(f) => f.spec_name(),
            Builtin::Binary(f) => f.spec_name(),
            Builtin::Predicate(f) => f.spec_name(),
            Builtin::Logic(f) => f.spec_name(),
            Builtin::If(f) => f.spec_name(),
            Builtin::Not(f) => f.spec_name(),
            Builtin::Clamp(f) => f.spec_name(),
            Builtin::Lerp(f) => f.spec_name(),
            Builtin::Factorial(f) => f.spec_name(),
            Builtin::Gcf(f) => f.spec_name(),
            Builtin::Lcm(f) => f.spec_name(),
            Builtin::Exit(f) => f.spec_name(),
            Builtin::Dbg(f) => f.spec_name(),
        }
    }

    pub fn name(&self) -> (r: &'static str)
        ensures
            r@ == self.spec_name(),
    {
        match self {
            Builtin::Unary(f) => f.name(),
            Builtin::Binary(f) => f.name(),
            Builtin::Predicate(f) => f.name(),
            Builtin::Logic(f) => f.name(),
            Builtin::If(f) => f.name(),
            Builtin::Not(f) => f.name(),
            Builtin::Clamp(f) => f.name(),
            Builtin::Lerp(f) => f.name(),
            Builtin::Factorial(f) => f.name(),
            Builtin::Gcf(f) => f.name(),
            Builtin::Lcm(f) => f.name(),
            Builtin::Exit(f) => f.name(),
            Builtin::Dbg(f) => f.name(),
        }
    }

    /// How many arguments the function takes; `None` for `exit`, whose one
    /// argument is optional.
    pub open spec fn spec_arity(self) -> Option<usize> {
        match self {
            Builtin::Unary(_) | Builtin::Predicate(_) | Builtin::Not(_) | Builtin::Factorial(_)
            | Builtin::Dbg(_) => Some(1),
            Builtin::Binary(_) | Builtin::Logic(_) | Builtin::Gcf(_) | Builtin::Lcm(_) => Some(2),
            Builtin::If(_) | Builtin::Clamp(_) | Builtin::Lerp(_) => Some(3),
            Builtin::Exit(_) => None,
        }
    }

    pub fn arity(&self) -> (r: Option<usize>)
        ensures
            r == self.spec_arity(),
    {
        match self {
            Builtin::Unary(_) | Builtin::Predicate(_) | Builtin::Not(_) | Builtin::Factorial(_)
            | Builtin::Dbg(_) => Some(1),
            Builtin::Binary(_) | Builtin::Logic(_) | Builtin::Gcf(_) | Builtin::Lcm(_) => Some(2),
            Builtin::If(_) | Builtin::Clamp(_) | Builtin::Lerp(_) => Some(3),
            Builtin::Exit(_) => None,
        }
    }
}

/// Every built-in function, in the order of registration.
pub open spec fn catalog() -> Seq<Builtin> {
    seq![
        Builtin::Unary(UnaryFn::Floor),
        Builtin::Unary(UnaryFn::Ceil),
        Builtin::Unary(UnaryFn::Round),
        Builtin::Unary(UnaryFn::Trunc),
        Builtin::Unary(UnaryFn::Fract),
        Builtin::Unary(UnaryFn::Abs),
        Builtin::Unary(UnaryFn::Exp),
        Builtin::Unary(UnaryFn::Exp2),
        Builtin::Unary(UnaryFn::Ln),
        Builtin::Unary(UnaryFn::Log2),
        Builtin::Unary(UnaryFn::Log10),
        Builtin::Unary(UnaryFn::Cbrt),
        Builtin::Unary(UnaryFn::ExpM1),
        Builtin::Unary(UnaryFn::Ln1p),
        Builtin::Unary(UnaryFn::Sqrt),
        Builtin::Unary(UnaryFn::Sin),
        Builtin::Unary(UnaryFn::Cos),
        Builtin::Unary(UnaryFn::Tan),
        Builtin::Unary(UnaryFn::Asin),
        Builtin::Unary(UnaryFn::Acos),
        Builtin::Unary(UnaryFn::Atan),
        Builtin::Unary(UnaryFn::Sinh),
        Builtin::Unary(UnaryFn::Cosh),
        Builtin::Unary(UnaryFn::Tanh),
        Builtin::Unary(UnaryFn::Asinh),
        Builtin::Unary(UnaryFn::Acosh),
        Builtin::Unary(UnaryFn::Atanh),
        Builtin::Unary(UnaryFn::Recip),
        Builtin::Unary(UnaryFn::ToDegrees),
        Builtin::Unary(UnaryFn::ToRadians),
        Builtin::Unary(UnaryFn::SigNum),
        Builtin::Predicate(PredicateFn::IsInfinite),
        Builtin::Predicate(PredicateFn::IsNan),
        Builtin::Predicate(PredicateFn::IsFinite),
        Builtin::Predicate(PredicateFn::IsSubnormal),
        Builtin::Predicate(PredicateFn::IsNormal),
        Builtin::If(If),
        Builtin::Not(Not),
        Builtin::Logic(LogicFn::And),
        Builtin::Logic(LogicFn::Or),
        Builtin::Logic(LogicFn::Xor),
        Builtin::Logic(LogicFn::Lt),
        Builtin::Logic(LogicFn::Le),
        Builtin::Logic(LogicFn::Gt),
        Builtin::Logic(LogicFn::Ge),
        Builtin::Logic(LogicFn::Eq),
        Builtin::Logic(LogicFn::Ne),
        Builtin::Exit(Exit),
        Builtin::Dbg(Dbg),
        Builtin::Binary(BinaryFn::Min),
        Builtin::Binary(BinaryFn::Max),
        Builtin::Binary(BinaryFn::Log),
        Builtin::Binary(BinaryFn::Hypot),
        Builtin::Binary(BinaryFn::Atan2),
        Builtin::Clamp(Clamp),
        Builtin::Lerp(Lerp),
        Builtin::Factorial(Factorial),
        Builtin::Gcf(Gcf),
        Builtin::Lcm(Lcm),
    ]
}

/// Every built-in function, in the order of registration.
pub fn builtins() -> (r: Vec<Builtin>)
    ensures
        r@ == catalog(),
{
    let r = vec![
        Builtin::Unary(UnaryFn::Floor),
        Builtin::Unary(UnaryFn::Ceil),
        Builtin::Unary(UnaryFn::Round),
        Builtin::Unary(UnaryFn::Trunc),
        Builtin::Unary(UnaryFn::Fract),
        Builtin::Unary(UnaryFn::Abs),
        Builtin::Unary(UnaryFn::Exp),
        Builtin::Unary(UnaryFn::Exp2),
        Builtin::Unary(UnaryFn::Ln),
        Builtin::Unary(UnaryFn::Log2),
        Builtin::Unary(UnaryFn::Log10),
        Builtin::Unary(UnaryFn::Cbrt),
        Builtin::Unary(UnaryFn::ExpM1),
        Builtin::Unary(UnaryFn::Ln1p),
        Builtin::Unary(UnaryFn::Sqrt),
        Builtin::Unary(UnaryFn::Sin),
        Builtin::Unary(UnaryFn::Cos),
        Builtin::Unary(UnaryFn::Tan),
        Builtin::Unary(UnaryFn::Asin),
        Builtin::Unary(UnaryFn::Acos),
        Builtin::Unary(UnaryFn::Atan),
        Builtin::Unary(UnaryFn::Sinh),
        Builtin::Unary(UnaryFn::Cosh),
        Builtin::Unary(UnaryFn::Tanh),
        Builtin::Unary(UnaryFn::Asinh),
        Builtin::Unary(UnaryFn::Acosh),
        Builtin::Unary(UnaryFn::Atanh),
        Builtin::Unary(UnaryFn::Recip),
        Builtin::Unary(UnaryFn::ToDegrees),
        Builtin::Unary(UnaryFn::ToRadians),
        Builtin::Unary(UnaryFn::SigNum),
        Builtin::Predicate(PredicateFn::IsInfinite),
        Builtin::Predicate(PredicateFn::IsNan),
        Builtin::Predicate(PredicateFn::IsFinite),
        Builtin::Predicate(PredicateFn::IsSubnormal),
        Builtin::Predicate(PredicateFn::IsNormal),
        Builtin::If(If),
        Builtin::Not(Not),
        Builtin::Logic(LogicFn::And),
        Builtin::Logic(LogicFn::Or),
        Builtin::Logic(LogicFn::Xor),
        Builtin::Logic(LogicFn::Lt),
        Builtin::Logic(LogicFn::Le),
        Builtin::Logic(LogicFn::Gt),
        Builtin::Logic(LogicFn::Ge),
        Builtin::Logic(LogicFn::Eq),
        Builtin::Logic(LogicFn::Ne),
        Builtin::Exit(Exit),
        Builtin::Dbg(Dbg),
        Builtin::Binary(BinaryFn::Min),
        Builtin::Binary(BinaryFn::Max),
        Builtin::Binary(BinaryFn::Log),
        Builtin::Binary(BinaryFn::Hypot),
        Builtin::Binary(BinaryFn::Atan2),
        Builtin::Clamp(Clamp),
        Builtin::Lerp(Lerp),
        Builtin::Factorial(Factorial),
        Builtin::Gcf(Gcf),
        Builtin::Lcm(Lcm),
    ];
    assert(r@ =~= catalog());
    r
}

/// Checks that a call to `name` got `count` arguments; on a mismatch the
/// error gives the name, the count given and the count expected.
pub fn reqire_args(name: &str, args: &[Token], count: usize) -> (r: Result<(), Error>)
    ensures
        r is Ok <==> args@.len() == count,
        r is Err ==> r->Err_0@ == ErrorM::InvalidArgumentCount(name@, args@.len(), count as nat),
{
    if args.len() != count {
        return Err(Error::InvalidArgumentCount(name.to_owned(), args.len(), count));
    }
    Ok(())
}

/// The greatest common factor of `a` and `b` by Euclid's algorithm; 0 when
/// both are 0.
pub open spec fn gcd(a: nat, b: nat) -> nat
    decreases b,
{
    if b == 0 {
        a
    } else {
        gcd(b, a % b)
    }
}

/// Whether `d` divides `n`.
pub open spec fn divides(d: nat, n: nat) -> bool {
    exists|q: nat| #[trigger] (q * d) == n
}

proof fn lemma_divides_remainder(d: nat, a: nat, b: nat)
    requires
        b > 0,
        divides(d, a),
        divides(d, b),
    ensures
        divides(d, a % b),
{
    let da = choose|q: nat| #[trigger] (q * d) == a;
    let db = choose|q: nat| #[trigger] (q * d) == b;
    let q = a / b;
    let r = a % b;
    lemma_fundamental_div_mod(a as int, b as int);
    assert(r == (da - q * db) * d) by (nonlinear_arith)
        requires
            a == b * q + r,
            da * d == a,
            db * d == b,
    ;
    assert(d > 0) by (nonlinear_arith)
        requires
            db * d == b,
            b > 0,
    ;
    assert(da - q * db >= 0) by (nonlinear_arith)
        requires
            r == (da - q * db) * d,
            r >= 0,
            d > 0,
    ;
    let w = (da - q * db) as nat;
    assert(w * d == r);
}

proof fn lemma_divides_sum(g: nat, a: nat, b: nat)
    requires
        b > 0,
        divides(g, b),
        divides(g, a % b),
    ensures
        divides(g, a),
{
    let qb = choose|q: nat| #[trigger] (q * g) == b;
    let qr = choose|q: nat| #[trigger] (q * g) == a % b;
    let q = a / b;
    lemma_fundamental_div_mod(a as int, b as int);
    let w = q * qb + qr;
    assert(w * g == a) by (nonlinear_arith)
        requires
            a == b * q + a % b,
            qb * g == b,
            qr * g == a % b,
            w == q * qb + qr,
    ;
}

/// Euclid's algorithm gives the greatest common factor: it divides both
/// numbers, and every common factor of both divides it.
pub proof fn lemma_gcd_is_greatest(a: nat, b: nat)
    ensures
        divides(gcd(a, b), a),
        divides(gcd(a, b), b),
        forall|d: nat| divides(d, a) && divides(d, b) ==> #[trigger] divides(d, gcd(a, b)),
    decreases b,
{
    if b == 0 {
        assert(1 * a == a);
        assert(0 * a == 0);
    } else {
        lemma_gcd_is_greatest(b, a % b);
        lemma_divides_sum(gcd(a, b), a, b);
        assert forall|d: nat| divides(d, a) && divides(d, b) implies #[trigger] divides(
            d,
            gcd(a, b),
        ) by {
            lemma_divides_remainder(d, a, b);
        }
    }
}

/// The product of the integers from 1 to `n`.
pub open spec fn fact(n: nat) -> nat
    decreases n,
{
    if n <= 1 {
        1
    } else {
        n * fact((n - 1) as nat)
    }
}

impl Gcf {
    /// The greatest common factor of `a` and `b`, by Euclid's algorithm.
    pub fn gcf(&self, a: u64, b: u64) -> (r: u64)
        ensures
            r == gcd(a as nat, b as nat),
    {
        let ghost old_a = a;
        let ghost old_b = b;
        let mut a = a;
        let mut b = b;
        while b != 0
            invariant
                gcd(a as nat, b as nat) == gcd(old_a as nat, old_b as nat),
            decreases b,
        {
            let temp = b;
            b = a % b;
            a = temp;
        }
        a
    }
}

impl Factorial {
    /// The product of the integers from 1 to `n`, modulo 2^64, as the
    /// product of 64-bit machine integers wraps.
    pub fn factorial(&self, n: u64) -> (r: u64)
        ensures
            r == fact(n as nat) % 0x1_0000_0000_0000_0000,
    {
        let mut result: u64 = 1;
        let mut i: u64 = 1;
        while i < n
            invariant
                1 <= i,
                i <= n || i == 1,
                result == fact(i as nat) % 0x1_0000_0000_0000_0000,
            decreases n - i,
        {
            i += 1;
            proof {
                lemma_mul_mod_noop_left(fact((i - 1) as nat) as int, i as int, 0x1_0000_0000_0000_0000);
                assert(fact(i as nat) == i * fact((i - 1) as nat));
            }
            result = result.wrapping_mul(i);
        }
        assert(fact(0) == 1 && fact(1) == 1);
        result
    }
}

impl If {
    /// The index of the argument that is evaluated once the condition is
    /// known: the first branch when the condition is above 0, else the
    /// second.
    pub fn chosen(&self, cond_positive: bool) -> (r: usize)
        ensures
            r == if cond_positive {
                1usize
            } else {
                2usize
            },
    {
        if cond_positive {
            1
        } else {
            2
        }
    }
}

impl LogicFn {
    /// The combination of two truth values; `false` orders before `true`.
    pub open spec fn spec_apply(self, a: bool, b: bool) -> bool {
        match self {
            LogicFn::And => a && b,
            LogicFn::Or => a || b,
            LogicFn::Xor => a != b,
            LogicFn::Lt => !a && b,
            LogicFn::Le => !a || b,
            LogicFn::Gt => a && !b,
            LogicFn::Ge => a || !b,
            LogicFn::Eq => a == b,
            LogicFn::Ne => a != b,
        }
    }

    pub fn apply(&self, a: bool, b: bool) -> (r: bool)
        ensures
            r == self.spec_apply(a, b),
    {
        match self {
            LogicFn::And => a && b,
            LogicFn::Or => a || b,
            LogicFn::Xor => a != b,
            LogicFn::Lt => !a && b,
            LogicFn::Le => !a || b,
            LogicFn::Gt => a && !b,
            LogicFn::Ge => a || !b,
            LogicFn::Eq => a == b,
            LogicFn::Ne => a != b,
        }
    }
}

} // verus!
