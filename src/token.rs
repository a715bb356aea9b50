//! The token model shared by the tokenizer, the tree builder and the evaluator.
use vstd::prelude::*;

verus! {

/// A binary operator.
#[derive(Debug, Clone, Copy, PartialEq, Eq, Structural)]
pub enum Ops {
    Add,
    Sub,
    Mul,
    Div,
    Pow,
    Mod,
}

impl Ops {
    /// Binding strength: addition and subtraction bind loosest, then
    /// multiplication, division and remainder, then powers.
    pub open spec fn spec_prio(self) -> nat {
        match self {
            Ops::Add | Ops::Sub => 1,
            Ops::Mul | Ops::Div | Ops::Mod => 2,
            Ops::Pow => 3,
        }
    }

    pub fn prio(&self) -> (r: usize)
        ensures
            r == self.spec_prio(),
    {
        match self {
            Ops::Add | Ops::Sub => 1,
            Ops::Mul | Ops::Div | Ops::Mod => 2,
            Ops::Pow => 3,
        }
    }
}

/// A number as a decimal literal: its digits, with at most one point, and
/// whether a minus sign applies to it.
#[derive(Debug, Clone, PartialEq)]
pub struct Num {
    pub negative: bool,
    pub digits: String,
}

/// A token of an expression.
#[derive(Debug, PartialEq)]
pub enum Token {
    Number(Num),
    Op(Ops),
    /// The tokens of a parenthesized group, not yet built into a tree.
    Group(Vec<Token>),
    /// A call: the function's name and the tokens of each argument.
    Func(String, Vec<Vec<Token>>),
    Var(String),
    /// A built node: an operator with its two operands.
    Tree(Ops, Box<Token>, Box<Token>),
}

/// The mathematical value of a [`Num`]: its sign and its digits.
pub ghost struct NumM {
    pub negative: bool,
    pub digits: Seq<char>,
}

/// The mathematical value of a [`Token`]: strings as character sequences and
/// vectors as sequences.
pub ghost enum TokenM {
    Number(NumM),
    Op(Ops),
    Group(Seq<TokenM>),
    Func(Seq<char>, Seq<Seq<TokenM>>),
    Var(Seq<char>),
    Tree(Ops, Box<TokenM>, Box<TokenM>),
}

impl View for Num {
    type V = NumM;

    open spec fn view(&self) -> NumM {
        NumM { negative: self.negative, digits: self.digits@ }
    }
}

/// The model of each token of `s`.
pub open spec fn toks_view(s: Seq<Token>) -> Seq<TokenM>
    decreases s,
{
    if s.len() == 0 {
        Seq::empty()
    } else {
        toks_view(s.drop_last()).push(token_view(s.last()))
    }
}

/// The model of each token list of `s`.
pub open spec fn args_view(s: Seq<Vec<Token>>) -> Seq<Seq<TokenM>>
    decreases s,
{
    if s.len() == 0 {
        Seq::empty()
    } else {
        args_view(s.drop_last()).push(toks_view(s.last()@))
    }
}

/// The model of one token.
pub open spec fn token_view(t: Token) -> TokenM
    decreases t,
{
    match t {
        Token::Number(n) => TokenM::Number(n@),
        Token::Op(op) => TokenM::Op(op),
        Token::Group(v) => TokenM::Group(toks_view(v@)),
        Token::Func(name, args) => TokenM::Func(name@, args_view(args@)),
        Token::Var(name) => TokenM::Var(name@),
        Token::Tree(op, l, r) => TokenM::Tree(op, Box::new(token_view(*l)), Box::new(token_view(*r))),
    }
}


/// An error of the engine.
#[derive(Debug, Clone, PartialEq)]
pub enum Error {
    /// Numeric text that does not form a number.
    InvalidNumber(String),
    /// Tokens that do not form a single expression.
    InvalidExpression,
    /// A variable or function name that is not known.
    UnknownIdentifier(String),
    /// A call with the wrong number of arguments: the name, the count given
    /// and the count expected.
    InvalidArgumentCount(String, usize, usize),
}

/// The mathematical value of an [`Error`].
pub ghost enum ErrorM {
    InvalidNumber(Seq<char>),
    InvalidExpression,
    UnknownIdentifier(Seq<char>),
    InvalidArgumentCount(Seq<char>, nat, nat),
}

impl View for Error {
    type V = ErrorM;

    open spec fn view(&self) -> ErrorM {
        match self {
            Error::InvalidNumber(s) => ErrorM::InvalidNumber(s@),
            Error::InvalidExpression => ErrorM::InvalidExpression,
            Error::UnknownIdentifier(s) => ErrorM::UnknownIdentifier(s@),
            Error::InvalidArgumentCount(s, a, e) => ErrorM::InvalidArgumentCount(
                s@,
                *a as nat,
                *e as nat,
            ),
        }
    }
}


pub proof fn lemma_toks_view_push(s: Seq<Token>, t: Token)
    ensures
        toks_view(s.push(t)) == toks_view(s).push(token_view(t)),
{
    assert(s.push(t).drop_last() =~= s);
}

pub proof fn lemma_toks_view_index(s: Seq<Token>)
    ensures
        toks_view(s).len() == s.len(),
        forall|i: int| 0 <= i < s.len() ==> #[trigger] toks_view(s)[i] == token_view(s[i]),
    decreases s.len(),
{
    if s.len() > 0 {
        lemma_toks_view_index(s.drop_last());
    }
}

pub proof fn lemma_args_view_push(s: Seq<Vec<Token>>, t: Vec<Token>)
    ensures
        args_view(s.push(t)) == args_view(s).push(toks_view(t@)),
{
    assert(s.push(t).drop_last() =~= s);
}


impl Token {
    /// A copy of this token, its groups, arguments and operands included.
    pub fn duplicate(&self) -> (r: Token)
        ensures
            token_view(r) == token_view(*self),
        decreases self,
    {
        match self {
            Token::Number(n) => Token::Number(Num { negative: n.negative, digits: n.digits.clone() }),
            Token::Op(op) => Token::Op(*op),
            Token::Group(v) => Token::Group(duplicate_list(v)),
            Token::Func(name, args) => Token::Func(name.clone(), duplicate_args(args)),
            Token::Var(name) => Token::Var(name.clone()),
            Token::Tree(op, l, r) => {
                let l2 = l.duplicate();
                let r2 = r.duplicate();
                Token::Tree(*op, Box::new(l2), Box::new(r2))
            },
        }
    }
}

/// A copy of each token of `v`.
pub fn duplicate_list(v: &Vec<Token>) -> (r: Vec<Token>)
    ensures
        toks_view(r@) == toks_view(v@),
    decreases v,
{
    let mut r: Vec<Token> = Vec::new();
    let mut k: usize = 0;
    while k < v.len()
        invariant
            k <= v.len(),
            toks_view(r@) == toks_view(v@.subrange(0, k as int)),
        decreases v.len() - k,
    {
        proof {
            broadcast use vstd::std_specs::vec::axiom_vec_index_decreases;
        }
        let t = v[k].duplicate();
        let ghost before = r@;
        let ghost t0 = t;
        r.push(t);
        proof {
            lemma_toks_view_push(before, t0);
            lemma_toks_view_push(v@.subrange(0, k as int), v@[k as int]);
            assert(v@.subrange(0, k + 1) =~= v@.subrange(0, k as int).push(v@[k as int]));
        }
        k += 1;
    }
    assert(v@.subrange(0, k as int) =~= v@);
    r
}

/// A copy of each token list of `v`.
pub fn duplicate_args(v: &Vec<Vec<Token>>) -> (r: Vec<Vec<Token>>)
    ensures
        args_view(r@) == args_view(v@),
    decreases v,
{
    let mut r: Vec<Vec<Token>> = Vec::new();
    let mut k: usize = 0;
    while k < v.len()
        invariant
            k <= v.len(),
            args_view(r@) == args_view(v@.subrange(0, k as int)),
        decreases v.len() - k,
    {
        proof {
            broadcast use vstd::std_specs::vec::axiom_vec_index_decreases;
        }
        let t = duplicate_list(&v[k]);
        let ghost before = r@;
        let ghost t0 = t;
        r.push(t);
        proof {
            lemma_args_view_push(before, t0);
            lemma_args_view_push(v@.subrange(0, k as int), v@[k as int]);
            assert(v@.subrange(0, k + 1) =~= v@.subrange(0, k as int).push(v@[k as int]));
        }
        k += 1;
    }
    assert(v@.subrange(0, k as int) =~= v@);
    r
}

} // verus!
