//! Building a flat token list into one expression tree by precedence.
use vstd::prelude::*;

use crate::token::{Error, Ops, Token};

verus! {

/// How many tokens `t` holds, itself included; a built node counts once.
pub open spec fn size(t: Token) -> nat
    decreases t, 0nat,
{
    match t {
        Token::Group(v) => 1 + seq_size(v@),
        _ => 1,
    }
}

/// The sum of [`size`] over the tokens of `s`.
pub open spec fn seq_size(s: Seq<Token>) -> nat
    decreases s, s.len(),
{
    if s.len() == 0 {
        0
    } else {
        seq_size(s.drop_last()) + size(s.last())
    }
}

/// The highest binding strength among the operators of `s`, or 0 when `s`
/// holds no operator.
pub open spec fn max_prio(s: Seq<Token>) -> nat
    decreases s.len(),
{
    if s.len() == 0 {
        0
    } else {
        let m = max_prio(s.drop_last());
        match s.last() {
            Token::Op(op) => if op.spec_prio() > m {
                op.spec_prio()
            } else {
                m
            },
            _ => m,
        }
    }
}

/// The index of the leftmost operator of `s` whose binding strength is `p`,
/// or `s.len()` when there is none.
pub open spec fn first_at(s: Seq<Token>, p: nat) -> nat
    decreases s.len(),
{
    if s.len() == 0 {
        0
    } else if s[0] is Op && s[0]->Op_0.spec_prio() == p {
        0
    } else {
        1 + first_at(s.drop_first(), p)
    }
}

/// `s` with the three tokens from `i - 1` to `i + 1` replaced by `t`.
pub open spec fn splice(s: Seq<Token>, i: int, t: Token) -> Seq<Token> {
    s.subrange(0, i - 1).push(t) + s.subrange(i + 2, s.len() as int)
}

/// The tree that `s` builds into, or `None` when `s` is not one expression.
///
/// While an operator is left, the leftmost one of the highest binding
/// strength takes its two neighbours, which must not be operators, as its
/// operands; so operators of equal strength associate to the left. With no
/// operator left, exactly one operand must remain.
pub open spec fn build(s: Seq<Token>) -> Option<Token>
    decreases seq_size(s), 1nat,
    via build_decreases
{
    let p = max_prio(s);
    if p == 0 {
        if s.len() == 1 {
            operand(s[0])
        } else {
            None
        }
    } else {
        let i = first_at(s, p) as int;
        if i < 1 || i + 1 >= s.len() || s[i - 1] is Op || s[i + 1] is Op || !(s[i] is Op) {
            None
        } else {
            match (operand(s[i - 1]), operand(s[i + 1])) {
                (Some(l), Some(r)) => build(
                    splice(s, i, Token::Tree(s[i]->Op_0, Box::new(l), Box::new(r))),
                ),
                _ => None,
            }
        }
    }
}

proof fn lemma_size_positive(t: Token)
    ensures
        size(t) >= 1,
{
}

proof fn lemma_seq_size_concat(a: Seq<Token>, b: Seq<Token>)
    ensures
        seq_size(a + b) == seq_size(a) + seq_size(b),
    decreases b.len(),
{
    if b.len() == 0 {
        assert(a + b =~= a);
    } else {
        lemma_seq_size_concat(a, b.drop_last());
        assert((a + b).drop_last() =~= a + b.drop_last());
    }
}

proof fn lemma_size_index(s: Seq<Token>, k: int)
    requires
        0 <= k < s.len(),
    ensures
        size(s[k]) <= seq_size(s),
    decreases s.len(),
{
    if k < s.len() - 1 {
        lemma_size_index(s.drop_last(), k);
    }
}

proof fn lemma_splice_smaller(s: Seq<Token>, i: int, t: Token)
    requires
        1 <= i,
        i + 1 < s.len(),
        size(t) == 1,
    ensures
        seq_size(splice(s, i, t)) < seq_size(s),
{
    let a = s.subrange(0, i - 1);
    let b = s.subrange(i + 2, s.len() as int);
    let mid = seq![s[i - 1], s[i], s[i + 1]];
    assert(s =~= a + mid + b);
    lemma_seq_size_concat(a + mid, b);
    lemma_seq_size_concat(a, mid);
    lemma_seq_size_concat(a.push(t), b);
    assert(mid.drop_last() =~= seq![s[i - 1], s[i]]);
    assert(mid.drop_last().drop_last() =~= seq![s[i - 1]]);
    assert(mid.drop_last().drop_last().drop_last() =~= Seq::<Token>::empty());
    assert(seq_size(mid) == size(s[i - 1]) + size(s[i]) + size(s[i + 1])) by {
        reveal_with_fuel(seq_size, 4);
    }
    assert(splice(s, i, t) == a.push(t) + b);
    assert(a.push(t).drop_last() =~= a);
    assert(seq_size(a.push(t)) == seq_size(a) + size(t));
    lemma_size_positive(s[i - 1]);
    lemma_size_positive(s[i]);
    lemma_size_positive(s[i + 1]);
    assert(a.push(t).drop_last() =~= a);
}

#[via_fn]
proof fn build_decreases(s: Seq<Token>) {
    let p = max_prio(s);
    if p == 0 {
        if s.len() == 1 {
            lemma_size_index(s, 0);
        }
    } else {
        let i = first_at(s, p) as int;
        if !(i < 1 || i + 1 >= s.len() || s[i - 1] is Op || s[i + 1] is Op || !(s[i] is Op)) {
            lemma_size_index(s, i - 1);
            lemma_size_index(s, i + 1);
            assert forall|t: Token| size(t) == 1 implies #[trigger] seq_size(splice(s, i, t))
                < seq_size(s) by {
                lemma_splice_smaller(s, i, t);
            }
        }
    }
}

/// A token as an operand: a group is built into its tree, any other token
/// stands for itself.
pub open spec fn operand(t: Token) -> Option<Token>
    decreases size(t), 0nat,
{
    match t {
        Token::Group(v) => build(v@),
        _ => Some(t),
    }
}


/// Building a single token that is already a terminal (a number, a
/// variable, a call or a built node) gives it back unchanged.
pub proof fn lemma_terminal_unchanged(t: Token)
    requires
        !(t is Op),
        !(t is Group),
    ensures
        build(seq![t]) == Some(t),
        built(seq![t]) == Ok::<Token, Error>(t),
{
    let s = seq![t];
    assert(s.drop_last() =~= Seq::<Token>::empty());
    assert(max_prio(s.drop_last()) == 0);
    assert(max_prio(s) == 0);
    assert(s[0] == t);
    assert(operand(t) == Some(t));
}

/// What building `s` gives: its tree, or `InvalidExpression`.
pub open spec fn built(s: Seq<Token>) -> Result<Token, Error> {
    match build(s) {
        Some(t) => Ok(t),
        None => Err(Error::InvalidExpression),
    }
}

/// What taking `t` as an operand gives: its tree, or `InvalidExpression`.
pub open spec fn operand_built(t: Token) -> Result<Token, Error> {
    match operand(t) {
        Some(t) => Ok(t),
        None => Err(Error::InvalidExpression),
    }
}

proof fn lemma_first_at(s: Seq<Token>, p: nat, k: int)
    requires
        0 <= k <= s.len(),
        forall|j: int| 0 <= j < k ==> !(s[j] is Op && s[j]->Op_0.spec_prio() == p),
        k < s.len() ==> s[k] is Op && s[k]->Op_0.spec_prio() == p,
    ensures
        first_at(s, p) == k,
    decreases k,
{
    if k > 0 {
        lemma_first_at(s.drop_first(), p, k - 1);
    }
}

impl Token {
    /// Takes this token as an operand: a group is built into its tree, any
    /// other token is returned as it is.
    pub fn make_tree(self) -> (r: Result<Token, Error>)
        ensures
            r == operand_built(self),
        decreases size(self), 0nat,
    {
        match self {
            Token::Group(tokens) => create_tree(tokens),
            _ => Ok(self),
        }
    }
}

/// The highest binding strength among the operators of `tokens`, or 0 when
/// there is none.
fn get_max_prio(tokens: &Vec<Token>) -> (r: usize)
    ensures
        r == max_prio(tokens@),
{
    let mut m: usize = 0;
    let mut k: usize = 0;
    while k < tokens.len()
        invariant
            k <= tokens.len(),
            m == max_prio(tokens@.subrange(0, k as int)),
        decreases tokens.len() - k,
    {
        assert(tokens@.subrange(0, k + 1).drop_last() =~= tokens@.subrange(0, k as int));
        if let Token::Op(op) = &tokens[k] {
            let p = op.prio();
            if p > m {
                m = p;
            }
        }
        k += 1;
    }
    assert(tokens@.subrange(0, k as int) =~= tokens@);
    m
}

/// The index of the leftmost operator of `tokens` whose binding strength is
/// `p`, or the length of `tokens` when there is none.
fn first_op(tokens: &Vec<Token>, p: usize) -> (r: usize)
    ensures
        r == first_at(tokens@, p as nat),
{
    let mut k: usize = 0;
    while k < tokens.len()
        invariant
            k <= tokens.len(),
            forall|j: int|
                0 <= j < k ==> !(tokens@[j] is Op && tokens@[j]->Op_0.spec_prio() == p),
        decreases tokens.len() - k,
    {
        if let Token::Op(op) = &tokens[k] {
            if op.prio() == p {
                proof {
                    lemma_first_at(tokens@, p as nat, k as int);
                }
                return k;
            }
        }
        k += 1;
    }
    proof {
        lemma_first_at(tokens@, p as nat, k as int);
    }
    k
}

/// Builds a flat token list into one expression tree.
///
/// The leftmost operator of the highest binding strength present takes its
/// two neighbours as operands, groups among them built first, until no
/// operator is left; then exactly one token must remain. A single number,
/// variable, call or built node comes back as it is.
pub fn create_tree(tokens: Vec<Token>) -> (r: Result<Token, Error>)
    ensures
        r == built(tokens@),
    decreases seq_size(tokens@), 1nat,
{
    let mut list = tokens;
    loop
        invariant
            build(list@) == build(tokens@),
            seq_size(list@) <= seq_size(tokens@),
        decreases seq_size(list@),
    {
        let p = get_max_prio(&list);
        if p == 0 {
            if list.len() != 1 {
                assert(build(list@) is None);
                return Err(Error::InvalidExpression);
            }
            proof {
                lemma_size_index(list@, 0);
            }
            let ghost s = list@;
            match list.pop() {
                Some(t) => {
                    assert(t == s[0]);
                    return t.make_tree();
                },
                None => {
                    return Err(Error::InvalidExpression);
                },
            }
        }
        let i = first_op(&list, p);
        if i < 1 || i >= list.len() || i + 1 >= list.len() {
            assert(build(list@) is None);
            return Err(Error::InvalidExpression);
        }
        if matches!(list[i - 1], Token::Op(_)) || matches!(list[i + 1], Token::Op(_)) {
            return Err(Error::InvalidExpression);
        }
        let ghost s = list@;
        proof {
            lemma_size_index(s, i - 1);
            lemma_size_index(s, i + 1);
        }
        let right = list.remove(i + 1);
        let mid = list.remove(i);
        let left = list.remove(i - 1);
        assert(list@ =~= s.subrange(0, i - 1) + s.subrange(i + 2, s.len() as int));
        let op = match mid {
            Token::Op(op) => op,
            _ => {
                return Err(Error::InvalidExpression);
            },
        };
        let l = match left.make_tree() {
            Ok(l) => l,
            Err(e) => {
                return Err(e);
            },
        };
        let r = match right.make_tree() {
            Ok(r) => r,
            Err(e) => {
                return Err(e);
            },
        };
        let node = Token::Tree(op, Box::new(l), Box::new(r));
        list.insert(i - 1, node);
        proof {
            assert(list@ =~= splice(s, i as int, node));
            lemma_splice_smaller(s, i as int, node);
        }
    }
}

} // verus!
