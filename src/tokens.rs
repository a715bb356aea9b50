//! Splitting text into tokens.
use vstd::prelude::*;

use crate::strings::{chars_of, slice_chars, string_from};
use crate::token::{
    args_view, lemma_args_view_push, lemma_toks_view_index, lemma_toks_view_push, toks_view,
    token_view, Error, ErrorM, Num, NumM, Ops, Token, TokenM,
};

verus! {

/// Whether `c` has Unicode's White_Space property.
pub open spec fn is_space(c: char) -> bool {
    ('\u{9}' <= c && c <= '\u{d}') || c == ' ' || c == '\u{85}' || c == '\u{a0}' || c
        == '\u{1680}' || ('\u{2000}' <= c && c <= '\u{200a}') || c == '\u{2028}' || c
        == '\u{2029}' || c == '\u{202f}' || c == '\u{205f}' || c == '\u{3000}'
}

/// Whether `c` may stand in a number: a decimal digit or a point.
pub open spec fn spec_is_digit(c: char) -> bool {
    ('0' <= c && c <= '9') || c == '.'
}

/// The operator that `c` writes, if any.
pub open spec fn op_of(c: char) -> Option<Ops> {
    if c == '+' {
        Some(Ops::Add)
    } else if c == '-' {
        Some(Ops::Sub)
    } else if c == '*' {
        Some(Ops::Mul)
    } else if c == '/' {
        Some(Ops::Div)
    } else if c == '^' {
        Some(Ops::Pow)
    } else if c == '%' {
        Some(Ops::Mod)
    } else {
        None
    }
}

/// Whether every character of `w` may stand in a number.
pub open spec fn all_digits(w: Seq<char>) -> bool {
    forall|i: int| 0 <= i < w.len() ==> spec_is_digit(#[trigger] w[i])
}

/// How many points `w` holds.
pub open spec fn count_points(w: Seq<char>) -> nat
    decreases w.len(),
{
    if w.len() == 0 {
        0
    } else {
        count_points(w.drop_last()) + if w.last() == '.' {
            1nat
        } else {
            0nat
        }
    }
}

/// Whether `w` is a decimal literal: digits with at most one point, and at
/// least one digit. Of text made of digits and points, these are exactly
/// the strings that parse as a floating-point number.
pub open spec fn is_decimal(w: Seq<char>) -> bool {
    &&& all_digits(w)
    &&& count_points(w) <= 1
    &&& exists|i: int| 0 <= i < w.len() && w[i] != '.'
}

/// The token that a word of text stands for: a number when it is made of
/// digits and points, a unary minus applying when `neg` holds; a variable
/// name otherwise.
pub open spec fn word(w: Seq<char>, neg: bool) -> Result<TokenM, ErrorM> {
    if !all_digits(w) {
        Ok(TokenM::Var(w))
    } else if is_decimal(w) {
        Ok(TokenM::Number(NumM { negative: neg, digits: w }))
    } else {
        Err(ErrorM::InvalidNumber(w))
    }
}

/// The tokens of a text that holds no operator, parenthesis or space.
pub open spec fn atom(w: Seq<char>) -> Result<Seq<TokenM>, ErrorM> {
    if w.len() == 0 {
        Ok(Seq::empty())
    } else {
        match word(w, false) {
            Ok(t) => Ok(seq![t]),
            Err(e) => Err(e),
        }
    }
}

/// The state of a scan: the tokens so far, the word being read, and whether
/// a unary minus is pending.
pub ghost struct Scan {
    pub out: Seq<TokenM>,
    pub working: Seq<char>,
    pub neg: bool,
}

/// Ends the word being read, if any, and emits its token.
pub open spec fn flush(st: Scan) -> Result<Scan, ErrorM> {
    if st.working.len() == 0 {
        Ok(st)
    } else {
        match word(st.working, st.neg) {
            Ok(t) => Ok(Scan { out: st.out.push(t), working: Seq::empty(), neg: false }),
            Err(e) => Err(e),
        }
    }
}

/// The index of the parenthesis that closes a group, scanning from `k` with
/// `d` groups open, or `s.len()` when the group is never closed.
pub open spec fn close_from(s: Seq<char>, k: int, d: nat) -> int
    decreases s.len() - k,
{
    if k >= s.len() || k < 0 {
        s.len() as int
    } else if s[k] == '(' {
        close_from(s, k + 1, d + 1)
    } else if s[k] == ')' {
        if d <= 1 {
            k
        } else {
            close_from(s, k + 1, (d - 1) as nat)
        }
    } else {
        close_from(s, k + 1, d)
    }
}

/// The parts of `s` between the commas that stand outside any parenthesis,
/// from `start`; `k` is the index reached and `d` the groups open there.
pub open spec fn split_from(s: Seq<char>, start: int, k: int, d: nat) -> Seq<Seq<char>>
    decreases s.len() - k,
{
    if k >= s.len() || k < 0 {
        seq![s.subrange(start, s.len() as int)]
    } else if s[k] == '(' {
        split_from(s, start, k + 1, d + 1)
    } else if s[k] == ')' {
        split_from(
            s,
            start,
            k + 1,
            if d > 0 {
                (d - 1) as nat
            } else {
                0
            },
        )
    } else if s[k] == ',' && d == 0 {
        seq![s.subrange(start, k)] + split_from(s, k + 1, k + 1, 0)
    } else {
        split_from(s, start, k + 1, d)
    }
}

/// The argument texts of a call: the parts of `s` between top-level commas.
pub open spec fn split_top(s: Seq<char>) -> Seq<Seq<char>> {
    split_from(s, 0, 0, 0)
}

/// Whether `s` holds nothing but spaces.
pub open spec fn blank(s: Seq<char>) -> bool {
    forall|i: int| 0 <= i < s.len() ==> is_space(#[trigger] s[i])
}

/// `s` without its spaces.
pub open spec fn strip_spaces(s: Seq<char>) -> Seq<char>
    decreases s.len(),
{
    if s.len() == 0 {
        s
    } else if is_space(s.last()) {
        strip_spaces(s.drop_last())
    } else {
        strip_spaces(s.drop_last()).push(s.last())
    }
}

proof fn lemma_close_from(s: Seq<char>, k: int, d: nat)
    requires
        0 <= k,
    ensures
        k <= close_from(s, k, d) <= s.len() || (k > s.len() && close_from(s, k, d) == s.len()),
    decreases s.len() - k,
{
    if k < s.len() {
        if s[k] == '(' {
            lemma_close_from(s, k + 1, d + 1);
        } else if s[k] == ')' {
            if d > 1 {
                lemma_close_from(s, k + 1, (d - 1) as nat);
            }
        } else {
            lemma_close_from(s, k + 1, d);
        }
    }
}

proof fn lemma_split_from(s: Seq<char>, start: int, k: int, d: nat)
    requires
        0 <= start <= k <= s.len(),
    ensures
        forall|i: int|
            0 <= i < split_from(s, start, k, d).len() ==> #[trigger] split_from(
                s,
                start,
                k,
                d,
            )[i].len() <= s.len(),
    decreases s.len() - k,
{
    let r = split_from(s, start, k, d);
    if k < s.len() {
        if s[k] == '(' {
            lemma_split_from(s, start, k + 1, d + 1);
            assert(r == split_from(s, start, k + 1, d + 1));
        } else if s[k] == ')' {
            let d1: nat = if d > 0 {
                (d - 1) as nat
            } else {
                0
            };
            lemma_split_from(s, start, k + 1, d1);
            assert(r == split_from(s, start, k + 1, d1));
        } else if s[k] == ',' && d == 0 {
            lemma_split_from(s, k + 1, k + 1, 0);
            let rest = split_from(s, k + 1, k + 1, 0);
            assert(r == seq![s.subrange(start, k)] + rest);
            assert forall|i: int| 0 <= i < r.len() implies #[trigger] r[i].len() <= s.len() by {
                if i > 0 {
                    assert(r[i] == rest[i - 1]);
                }
            }
        } else {
            lemma_split_from(s, start, k + 1, d);
            assert(r == split_from(s, start, k + 1, d));
        }
    } else {
        assert(r =~= seq![s.subrange(start, s.len() as int)]);
    }
}

/// The tokens of `s`.
///
/// Spaces are skipped and do not end a word. An operator ends the word being
/// read; a `-` with no token before it, or right after an operator, emits
/// nothing but flips the sign of the next number. A `(` ends the word being
/// read and opens a group, closed by its matching `)`: right after a variable
/// the group is the argument list of a call to it, else its text's tokens
/// form a group token. A group never closed leaves the rest of the text in
/// the word being read. A `)` that closes nothing makes a group of the word
/// being read. Any other character is part of the word being read.
pub open spec fn tokenize_spec(s: Seq<char>) -> Result<Seq<TokenM>, ErrorM>
    decreases s.len(), 2nat, 0nat,
{
    match scan(s, 0, Scan { out: Seq::empty(), working: Seq::empty(), neg: false }) {
        Ok(st) => match flush(st) {
            Ok(st) => Ok(st.out),
            Err(e) => Err(e),
        },
        Err(e) => Err(e),
    }
}

/// The token lists of the arguments of a call whose argument text is `s`,
/// from the `i`-th on.
pub open spec fn args_from(s: Seq<char>, i: int) -> Result<Seq<Seq<TokenM>>, ErrorM>
    decreases s.len(), 3nat, split_top(s).len() - i,
    via args_from_decreases
{
    if i < 0 || i >= split_top(s).len() {
        Ok(Seq::empty())
    } else {
        match tokenize_spec(split_top(s)[i]) {
            Ok(t) => match args_from(s, i + 1) {
                Ok(rest) => Ok(seq![t] + rest),
                Err(e) => Err(e),
            },
            Err(e) => Err(e),
        }
    }
}

/// The token lists of the arguments of a call whose argument text is `s`:
/// none when `s` is blank, else one per part between top-level commas.
pub open spec fn call_args(s: Seq<char>) -> Result<Seq<Seq<TokenM>>, ErrorM>
    decreases s.len(), 4nat, 0nat,
{
    if blank(s) {
        Ok(Seq::empty())
    } else {
        args_from(s, 0)
    }
}

#[via_fn]
proof fn args_from_decreases(s: Seq<char>, i: int) {
    lemma_split_from(s, 0, 0, 0);
    if 0 <= i < split_top(s).len() {
        assert(split_top(s)[i].len() <= s.len());
    }
}

/// The group that closes with the text `inner` after the tokens of `st`.
pub open spec fn close_group(st: Scan, inner: Seq<char>) -> Result<Scan, ErrorM>
    decreases inner.len(), 5nat, 0nat,
{
    if st.out.len() > 0 && st.out.last() is Var {
        match call_args(inner) {
            Ok(args) => Ok(
                Scan {
                    out: st.out.drop_last().push(TokenM::Func(st.out.last()->Var_0, args)),
                    ..st
                },
            ),
            Err(e) => Err(e),
        }
    } else {
        match tokenize_spec(inner) {
            Ok(t) => Ok(Scan { out: st.out.push(TokenM::Group(t)), ..st }),
            Err(e) => Err(e),
        }
    }
}

/// The state after scanning `s` from index `k` on, starting in `st`.
pub open spec fn scan(s: Seq<char>, k: int, st: Scan) -> Result<Scan, ErrorM>
    decreases s.len(), 1nat, s.len() - k,
    via scan_decreases
{
    if k < 0 || k >= s.len() {
        Ok(st)
    } else {
        let c = s[k];
        if is_space(c) {
            scan(s, k + 1, st)
        } else if c == '(' {
            match flush(st) {
                Ok(st1) => {
                    let j = close_from(s, k + 1, 1);
                    if j >= s.len() {
                        Ok(
                            Scan {
                                working: st1.working + strip_spaces(
                                    s.subrange(k + 1, s.len() as int),
                                ),
                                ..st1
                            },
                        )
                    } else {
                        match close_group(st1, s.subrange(k + 1, j)) {
                            Ok(st2) => scan(s, j + 1, st2),
                            Err(e) => Err(e),
                        }
                    }
                },
                Err(e) => Err(e),
            }
        } else if c == ')' {
            match atom(st.working) {
                Ok(t) => scan(
                    s,
                    k + 1,
                    Scan { out: st.out.push(TokenM::Group(t)), working: Seq::empty(), ..st },
                ),
                Err(e) => Err(e),
            }
        } else if op_of(c) is Some {
            match flush(st) {
                Ok(st1) => if c == '-' && (st1.out.len() == 0 || st1.out.last() is Op) {
                    scan(s, k + 1, Scan { neg: !st1.neg, ..st1 })
                } else {
                    scan(s, k + 1, Scan { out: st1.out.push(TokenM::Op(op_of(c)->0)), ..st1 })
                },
                Err(e) => Err(e),
            }
        } else {
            scan(s, k + 1, Scan { working: st.working.push(c), ..st })
        }
    }
}

#[via_fn]
proof fn scan_decreases(s: Seq<char>, k: int, st: Scan) {
    if 0 <= k < s.len() {
        lemma_close_from(s, k + 1, 1);
    }
}


/// Whether `r` is the result that `m` describes.
pub open spec fn toks_result(r: Result<Vec<Token>, Error>, m: Result<Seq<TokenM>, ErrorM>) -> bool {
    match (r, m) {
        (Ok(v), Ok(t)) => toks_view(v@) == t,
        (Err(e), Err(x)) => e@ == x,
        _ => false,
    }
}

/// Whether `r` is the result that `m` describes.
pub open spec fn args_result(
    r: Result<Vec<Vec<Token>>, Error>,
    m: Result<Seq<Seq<TokenM>>, ErrorM>,
) -> bool {
    match (r, m) {
        (Ok(v), Ok(t)) => args_view(v@) == t,
        (Err(e), Err(x)) => e@ == x,
        _ => false,
    }
}

/// Whether `c` has Unicode's White_Space property.
pub fn is_whitespace(c: char) -> (r: bool)
    ensures
        r == is_space(c),
{
    ('\u{9}' <= c && c <= '\u{d}') || c == ' ' || c == '\u{85}' || c == '\u{a0}' || c
        == '\u{1680}' || ('\u{2000}' <= c && c <= '\u{200a}') || c == '\u{2028}' || c
        == '\u{2029}' || c == '\u{202f}' || c == '\u{205f}' || c == '\u{3000}'
}

/// Whether `chr` may stand in a number: a decimal digit or a point.
pub fn is_digit(chr: char) -> (r: bool)
    ensures
        r == spec_is_digit(chr),
{
    ('0' <= chr && chr <= '9') || chr == '.'
}

fn op_char(c: char) -> (r: Option<Ops>)
    ensures
        r == op_of(c),
{
    if c == '+' {
        Some(Ops::Add)
    } else if c == '-' {
        Some(Ops::Sub)
    } else if c == '*' {
        Some(Ops::Mul)
    } else if c == '/' {
        Some(Ops::Div)
    } else if c == '^' {
        Some(Ops::Pow)
    } else if c == '%' {
        Some(Ops::Mod)
    } else {
        None
    }
}

/// The token of the word `w`; see [`word`].
fn word_token(w: &Vec<char>, neg: bool) -> (r: Result<Token, Error>)
    ensures
        match word(w@, neg) {
            Ok(t) => r is Ok && token_view(r->Ok_0) == t,
            Err(e) => r is Err && r->Err_0@ == e,
        },
{
    let mut k: usize = 0;
    let mut digits = true;
    let mut points: usize = 0;
    let mut has_digit = false;
    while k < w.len()
        invariant
            k <= w.len(),
            digits == all_digits(w@.subrange(0, k as int)),
            points == count_points(w@.subrange(0, k as int)),
            points <= k,
            has_digit == exists|i: int| 0 <= i < k && w@[i] != '.',
        decreases w.len() - k,
    {
        let ghost pre = w@.subrange(0, k as int);
        let ghost next = w@.subrange(0, k + 1);
        assert(next.drop_last() =~= pre);
        assert(next.last() == w@[k as int]);
        let c = w[k];
        if !is_digit(c) {
            assert(!spec_is_digit(next[k as int]));
            digits = false;
        } else if digits {
            assert forall|i: int| 0 <= i < next.len() implies spec_is_digit(#[trigger] next[i]) by {
                if i < k {
                    assert(next[i] == pre[i]);
                }
            }
        }
        if c == '.' {
            points += 1;
        } else {
            has_digit = true;
        }
        k += 1;
    }
    assert(w@.subrange(0, k as int) =~= w@);
    let text = string_from(w);
    if !digits {
        Ok(Token::Var(text))
    } else if points <= 1 && has_digit {
        Ok(Token::Number(Num { negative: neg, digits: text }))
    } else {
        Err(Error::InvalidNumber(text))
    }
}

/// The tokens of a text with no operator, parenthesis or space; see [`atom`].
fn atom_tokens(w: &Vec<char>) -> (r: Result<Vec<Token>, Error>)
    ensures
        toks_result(r, atom(w@)),
{
    if w.len() == 0 {
        assert(toks_view(Seq::<Token>::empty()) =~= Seq::<TokenM>::empty());
        return Ok(Vec::new());
    }
    match word_token(w, false) {
        Ok(t) => {
            let mut v: Vec<Token> = Vec::new();
            let ghost t0 = t;
            v.push(t);
            proof {
                lemma_toks_view_push(Seq::empty(), t0);
                assert(Seq::<Token>::empty().push(t0) =~= v@);
                assert(toks_view(Seq::<Token>::empty()) =~= Seq::<TokenM>::empty());
                assert(Seq::<TokenM>::empty().push(token_view(t0)) =~= seq![token_view(t0)]);
            }
            Ok(v)
        },
        Err(e) => Err(e),
    }
}

/// The index of the `)` that closes the `(` at index `k`, or the length of
/// `inp` when there is none.
fn close_index(inp: &Vec<char>, k: usize) -> (r: usize)
    requires
        k < inp.len(),
    ensures
        r == close_from(inp@, k + 1, 1),
{
    let mut j: usize = k + 1;
    let mut d: usize = 1;
    while j < inp.len()
        invariant
            k + 1 <= j <= inp.len(),
            1 <= d <= j,
            close_from(inp@, k + 1, 1) == close_from(inp@, j as int, d as nat),
        decreases inp.len() - j,
    {
        if inp[j] == '(' {
            d += 1;
        } else if inp[j] == ')' {
            if d <= 1 {
                return j;
            }
            d -= 1;
        }
        j += 1;
    }
    inp.len()
}

/// The parts of `s` between its top-level commas; see [`split_top`].
fn split_args(s: &Vec<char>) -> (r: Vec<Vec<char>>)
    ensures
        r@.map_values(|v: Vec<char>| v@) == split_top(s@),
{
    let mut parts: Vec<Vec<char>> = Vec::new();
    let mut start: usize = 0;
    let mut k: usize = 0;
    let mut d: usize = 0;
    while k < s.len()
        invariant
            start <= k <= s.len(),
            d <= k,
            split_top(s@) == parts@.map_values(|v: Vec<char>| v@) + split_from(
                s@,
                start as int,
                k as int,
                d as nat,
            ),
        decreases s.len() - k,
    {
        let c = s[k];
        if c == '(' {
            d += 1;
        } else if c == ')' {
            if d > 0 {
                d -= 1;
            }
        } else if c == ',' && d == 0 {
            let part = slice_chars(s, start, k);
            let ghost before = parts@;
            parts.push(part);
            assert(parts@.map_values(|v: Vec<char>| v@) =~= before.map_values(|v: Vec<char>| v@)
                + seq![s@.subrange(start as int, k as int)]);
            start = k + 1;
        }
        k += 1;
    }
    let ghost before = parts@;
    let last = slice_chars(s, start, s.len());
    parts.push(last);
    assert(parts@.map_values(|v: Vec<char>| v@) =~= before.map_values(|v: Vec<char>| v@) + seq![
        s@.subrange(start as int, s.len() as int),
    ]);
    parts
}

/// Whether `s` holds nothing but spaces.
fn is_blank(s: &Vec<char>) -> (r: bool)
    ensures
        r == blank(s@),
{
    let mut k: usize = 0;
    while k < s.len()
        invariant
            k <= s.len(),
            forall|i: int| 0 <= i < k ==> is_space(#[trigger] s@[i]),
        decreases s.len() - k,
    {
        if !is_whitespace(s[k]) {
            return false;
        }
        k += 1;
    }
    true
}

/// The token lists of the arguments of a call whose argument text is
/// `inp`; see [`call_args`].
fn tokenize_args(inp: &Vec<char>) -> (r: Result<Vec<Vec<Token>>, Error>)
    ensures
        args_result(r, call_args(inp@)),
    decreases inp@.len(), 4nat, 0nat,
{
    let mut out: Vec<Vec<Token>> = Vec::new();
    if is_blank(inp) {
        assert(args_view(out@) =~= Seq::<Seq<TokenM>>::empty());
        return Ok(out);
    }
    assert(call_args(inp@) == args_from(inp@, 0));
    let parts = split_args(inp);
    proof {
        lemma_split_from(inp@, 0, 0, 0);
    }
    let mut i: usize = 0;
    while i < parts.len()
        invariant
            i <= parts.len(),
            call_args(inp@) == args_from(inp@, 0),
            parts@.map_values(|v: Vec<char>| v@) == split_top(inp@),
            forall|j: int|
                0 <= j < split_top(inp@).len() ==> #[trigger] split_top(inp@)[j].len()
                    <= inp@.len(),
            args_from(inp@, 0) == match args_from(inp@, i as int) {
                Ok(rest) => Ok(args_view(out@) + rest),
                Err(e) => Err(e),
            },
        decreases parts.len() - i,
    {
        assert(parts@.map_values(|v: Vec<char>| v@)[i as int] == parts@[i as int]@);
        assert(parts@[i as int]@ == split_top(inp@)[i as int]);
        match tokenize_str(&parts[i]) {
            Ok(t) => {
                let ghost before = out@;
                let ghost t0 = t;
                out.push(t);
                proof {
                    lemma_args_view_push(before, t0);
                    assert(out@ == before.push(t0));
                    match args_from(inp@, i + 1) {
                        Ok(rest) => {
                            assert(args_view(before) + (seq![toks_view(t0@)] + rest) =~= args_view(
                                out@,
                            ) + rest);
                        },
                        Err(e) => {},
                    }
                }
            },
            Err(e) => {
                assert(args_from(inp@, i as int) == Err::<Seq<Seq<TokenM>>, ErrorM>(e@));
                assert(args_from(inp@, 0) == Err::<Seq<Seq<TokenM>>, ErrorM>(e@));
                return Err(e);
            },
        }
        i += 1;
    }
    assert(args_view(out@) + Seq::<Seq<TokenM>>::empty() =~= args_view(out@));
    Ok(out)
}

/// The state of a scan in progress.
struct TokenizeContext {
    out: Vec<Token>,
    working: Vec<char>,
    next_neg: bool,
}

impl TokenizeContext {
    spec fn model(&self) -> Scan {
        Scan { out: toks_view(self.out@), working: self.working@, neg: self.next_neg }
    }

    fn new() -> (r: Self)
        ensures
            r.model() == (Scan { out: Seq::empty(), working: Seq::empty(), neg: false }),
    {
        let r = TokenizeContext { out: Vec::new(), working: Vec::new(), next_neg: false };
        assert(toks_view(r.out@) =~= Seq::<TokenM>::empty());
        assert(r.working@ =~= Seq::<char>::empty());
        r
    }
}

/// Ends the word being read, if any; see [`flush`].
fn flush_working(ctx: &mut TokenizeContext) -> (r: Result<(), Error>)
    ensures
        match flush(old(ctx).model()) {
            Ok(st) => r is Ok && final(ctx).model() == st,
            Err(e) => r is Err && r->Err_0@ == e,
        },
{
    if ctx.working.len() == 0 {
        return Ok(());
    }
    match word_token(&ctx.working, ctx.next_neg) {
        Ok(t) => {
            let ghost before = ctx.out@;
            let ghost t0 = t;
            ctx.out.push(t);
            proof {
                lemma_toks_view_push(before, t0);
            }
            ctx.working = Vec::new();
            ctx.next_neg = false;
            assert(ctx.working@ =~= Seq::<char>::empty());
            Ok(())
        },
        Err(e) => Err(e),
    }
}

/// Closes a group whose text is `inner`; see [`close_group`].
fn add_group(ctx: &mut TokenizeContext, inner: &Vec<char>) -> (r: Result<(), Error>)
    ensures
        match close_group(old(ctx).model(), inner@) {
            Ok(st) => r is Ok && final(ctx).model() == st,
            Err(e) => r is Err && r->Err_0@ == e,
        },
    decreases inner@.len(), 5nat, 0nat,
{
    proof {
        lemma_toks_view_index(ctx.out@);
    }
    let n = ctx.out.len();
    if n > 0 && matches!(ctx.out[n - 1], Token::Var(_)) {
        assert(toks_view(ctx.out@).last() == token_view(ctx.out@[n - 1]));
        let args = match tokenize_args(inner) {
            Ok(args) => args,
            Err(e) => {
                return Err(e);
            },
        };
        let ghost before = ctx.out@;
        match ctx.out.pop() {
            Some(Token::Var(name)) => {
                assert(ctx.out@ =~= before.drop_last());
                assert(toks_view(before) == toks_view(before.drop_last()).push(
                    token_view(before.last()),
                ));
                let ghost name0 = name@;
                let f = Token::Func(name, args);
                let ghost f0 = f;
                ctx.out.push(f);
                proof {
                    lemma_toks_view_push(before.drop_last(), f0);
                    assert(toks_view(before).drop_last() =~= toks_view(before.drop_last()));
                    assert(toks_view(before).last() == TokenM::Var(name0));
                }
                Ok(())
            },
            _ => Err(Error::InvalidExpression),
        }
    } else {
        proof {
            if n > 0 {
                assert(toks_view(ctx.out@).last() == token_view(ctx.out@[n - 1]));
            }
        }
        match tokenize_str(inner) {
            Ok(t) => {
                let ghost before = ctx.out@;
                let g = Token::Group(t);
                let ghost g0 = g;
                ctx.out.push(g);
                proof {
                    lemma_toks_view_push(before, g0);
                }
                Ok(())
            },
            Err(e) => Err(e),
        }
    }
}

/// The tokens of the text `inp`; see [`tokenize_spec`].
fn tokenize_str(inp: &Vec<char>) -> (r: Result<Vec<Token>, Error>)
    ensures
        toks_result(r, tokenize_spec(inp@)),
    decreases inp@.len(), 2nat, 0nat,
{
    let ghost s = inp@;
    let mut ctx = TokenizeContext::new();
    let ghost init = ctx.model();
    let mut k: usize = 0;
    while k < inp.len()
        invariant
            k <= inp.len(),
            s == inp@,
            scan(s, 0, init) == scan(s, k as int, ctx.model()),
            init == (Scan { out: Seq::empty(), working: Seq::empty(), neg: false }),
        decreases inp.len() - k,
    {
        let c = inp[k];
        if is_whitespace(c) {
            k += 1;
        } else if c == '(' {
            match flush_working(&mut ctx) {
                Ok(()) => {},
                Err(e) => {
                    return Err(e);
                },
            }
            let j = close_index(inp, k);
            proof {
                lemma_close_from(s, k + 1, 1);
            }
            if j >= inp.len() {
                let ghost w0 = ctx.working@;
                let ghost out0 = ctx.out@;
                let ghost old_neg = ctx.next_neg;
                let mut m: usize = k + 1;
                while m < inp.len()
                    invariant
                        k + 1 <= m <= inp.len(),
                        s == inp@,
                        ctx.working@ == w0 + strip_spaces(s.subrange(k + 1, m as int)),
                        ctx.out@ == out0,
                        ctx.next_neg == old_neg,
                    decreases inp.len() - m,
                {
                    assert(s.subrange(k + 1, m + 1).drop_last() =~= s.subrange(k + 1, m as int));
                    if !is_whitespace(inp[m]) {
                        ctx.working.push(inp[m]);
                        assert(ctx.working@ =~= w0 + strip_spaces(s.subrange(k + 1, m + 1)));
                    }
                    m += 1;
                }
                k = inp.len();
            } else {
                let inner = slice_chars(inp, k + 1, j);
                match add_group(&mut ctx, &inner) {
                    Ok(()) => {},
                    Err(e) => {
                        return Err(e);
                    },
                }
                k = j + 1;
            }
        } else if c == ')' {
            match atom_tokens(&ctx.working) {
                Ok(t) => {
                    let ghost before = ctx.out@;
                    let g = Token::Group(t);
                    let ghost g0 = g;
                    ctx.out.push(g);
                    proof {
                        lemma_toks_view_push(before, g0);
                    }
                    ctx.working = Vec::new();
                    assert(ctx.working@ =~= Seq::<char>::empty());
                },
                Err(e) => {
                    return Err(e);
                },
            }
            k += 1;
        } else if let Some(op) = op_char(c) {
            match flush_working(&mut ctx) {
                Ok(()) => {},
                Err(e) => {
                    return Err(e);
                },
            }
            proof {
                lemma_toks_view_index(ctx.out@);
            }
            let n = ctx.out.len();
            if c == '-' && (n == 0 || matches!(ctx.out[n - 1], Token::Op(_))) {
                proof {
                    if n > 0 {
                        assert(toks_view(ctx.out@).last() == token_view(ctx.out@[n - 1]));
                    }
                }
                ctx.next_neg = !ctx.next_neg;
            } else {
                proof {
                    if n > 0 {
                        assert(toks_view(ctx.out@).last() == token_view(ctx.out@[n - 1]));
                    }
                }
                let ghost before = ctx.out@;
                ctx.out.push(Token::Op(op));
                proof {
                    lemma_toks_view_push(before, Token::Op(op));
                }
            }
            k += 1;
        } else {
            ctx.working.push(c);
            k += 1;
        }
    }
    match flush_working(&mut ctx) {
        Ok(()) => Ok(ctx.out),
        Err(e) => Err(e),
    }
}

/// Splits `inp` into tokens.
///
/// Spaces are skipped; `+ - * / ^ %` are operators, but a `-` at the start
/// or right after an operator flips the sign of the next number instead;
/// a parenthesized group right after a name is a call, with its arguments
/// split at the commas outside any inner parenthesis; any other group becomes
/// a group token; other text forms numbers (digits and points) and names.
/// A number with more than one point, or without a digit, is refused.
pub fn tokenize(inp: &str) -> (r: Result<Vec<Token>, Error>)
    ensures
        toks_result(r, tokenize_spec(inp@)),
{
    let chars = chars_of(inp);
    tokenize_str(&chars)
}

} // verus!
