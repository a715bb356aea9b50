//! The textual forms of tokens and errors.
use vstd::prelude::*;

use crate::strings::{chars_of, string_from};
use crate::tokens::{
    all_digits, close_from, close_group, flush, is_decimal, is_space, op_of, scan, spec_is_digit, tokenize_spec,
    word, Scan,
};
use crate::token::{
    args_view, lemma_args_view_push, lemma_toks_view_index, lemma_toks_view_push, toks_view,
    token_view, Error, ErrorM, Ops, Token, TokenM,
};
use crate::tree::{build, first_at, lemma_terminal_unchanged, max_prio, operand, splice};

verus! {

impl Ops {
    /// The character that writes the operator.
    pub open spec fn spec_symbol(self) -> char {
        match self {
            Ops::Add => '+',
            Ops::Sub => '-',
            Ops::Mul => '*',
            Ops::Div => '/',
            Ops::Pow => '^',
            Ops::Mod => '%',
        }
    }

    pub fn symbol(&self) -> (r: char)
        ensures
            r == self.spec_symbol(),
    {
        match self {
            Ops::Add => '+',
            Ops::Sub => '-',
            Ops::Mul => '*',
            Ops::Div => '/',
            Ops::Pow => '^',
            Ops::Mod => '%',
        }
    }
}

/// The text of a token: a number as written, with its sign; a group in
/// parentheses, its tokens separated by spaces; a call as its name and its
/// arguments in parentheses, separated by `, `; a built node as
/// `(left op right)`.
pub open spec fn render(t: TokenM) -> Seq<char>
    decreases t, 0nat,
{
    match t {
        TokenM::Number(n) => if n.negative {
            seq!['-'] + n.digits
        } else {
            n.digits
        },
        TokenM::Op(op) => seq![op.spec_symbol()],
        TokenM::Group(ts) => seq!['('] + render_list(ts) + seq![')'],
        TokenM::Func(name, args) => name + seq!['('] + render_args(args) + seq![')'],
        TokenM::Var(name) => name,
        TokenM::Tree(op, l, r) => seq!['('] + render(*l) + seq![' ', op.spec_symbol(), ' ']
            + render(*r) + seq![')'],
    }
}

/// The texts of the tokens of `ts`, separated by spaces.
pub open spec fn render_list(ts: Seq<TokenM>) -> Seq<char>
    decreases ts, ts.len(),
{
    if ts.len() == 0 {
        Seq::empty()
    } else if ts.len() == 1 {
        render(ts[0])
    } else {
        render_list(ts.drop_last()) + seq![' '] + render(ts.last())
    }
}

/// The texts of the argument token lists of `args`, separated by `, `.
pub open spec fn render_args(args: Seq<Seq<TokenM>>) -> Seq<char>
    decreases args, args.len(),
{
    if args.len() == 0 {
        Seq::empty()
    } else if args.len() == 1 {
        render_list(args[0])
    } else {
        render_args(args.drop_last()) + seq![',', ' '] + render_list(args.last())
    }
}

fn push_text(out: &mut Vec<char>, s: &Vec<char>)
    ensures
        final(out)@ == old(out)@ + s@,
{
    let mut k: usize = 0;
    while k < s.len()
        invariant
            k <= s.len(),
            out@ == old(out)@ + s@.subrange(0, k as int),
        decreases s.len() - k,
    {
        out.push(s[k]);
        assert(s@.subrange(0, k + 1) =~= s@.subrange(0, k as int).push(s@[k as int]));
        assert(out@ =~= old(out)@ + s@.subrange(0, k + 1));
        k += 1;
    }
    assert(s@.subrange(0, k as int) =~= s@);
}

fn push_str(out: &mut Vec<char>, s: &str)
    ensures
        final(out)@ == old(out)@ + s@,
{
    let chars = chars_of(s);
    push_text(out, &chars);
}

fn render_into(t: &Token, out: &mut Vec<char>)
    ensures
        final(out)@ == old(out)@ + render(token_view(*t)),
    decreases t, 0nat,
{
    match t {
        Token::Number(n) => {
            if n.negative {
                out.push('-');
            }
            push_str(out, n.digits.as_str());
            assert(final(out)@ =~= old(out)@ + render(token_view(*t)));
        },
        Token::Op(op) => {
            out.push(op.symbol());
            assert(final(out)@ =~= old(out)@ + render(token_view(*t)));
        },
        Token::Group(v) => {
            out.push('(');
            render_list_into(v, out);
            out.push(')');
            assert(final(out)@ =~= old(out)@ + render(token_view(*t)));
        },
        Token::Func(name, args) => {
            push_str(out, name.as_str());
            out.push('(');
            render_args_into(args, out);
            out.push(')');
            assert(final(out)@ =~= old(out)@ + render(token_view(*t)));
        },
        Token::Var(name) => {
            push_str(out, name.as_str());
        },
        Token::Tree(op, l, r) => {
            out.push('(');
            render_into(l, out);
            out.push(' ');
            out.push(op.symbol());
            out.push(' ');
            render_into(r, out);
            out.push(')');
            assert(final(out)@ =~= old(out)@ + render(token_view(*t)));
        },
    }
}

fn render_list_into(v: &Vec<Token>, out: &mut Vec<char>)
    ensures
        final(out)@ == old(out)@ + render_list(toks_view(v@)),
    decreases v, 0nat,
{
    let mut k: usize = 0;
    while k < v.len()
        invariant
            k <= v.len(),
            out@ == old(out)@ + render_list(toks_view(v@.subrange(0, k as int))),
        decreases v.len() - k,
    {
        proof {
            broadcast use vstd::std_specs::vec::axiom_vec_index_decreases;

            lemma_toks_view_push(v@.subrange(0, k as int), v@[k as int]);
            assert(v@.subrange(0, k + 1) =~= v@.subrange(0, k as int).push(v@[k as int]));
        }
        let ghost mid = out@;
        let ghost ts = toks_view(v@.subrange(0, k + 1));
        if k > 0 {
            out.push(' ');
        }
        render_into(&v[k], out);
        proof {
            assert(ts.drop_last() =~= toks_view(v@.subrange(0, k as int)));
            if k == 0 {
                assert(toks_view(v@.subrange(0, 0)) =~= Seq::<TokenM>::empty());
                assert(out@ =~= old(out)@ + render_list(ts));
            } else {
                assert(out@ =~= old(out)@ + render_list(ts));
            }
        }
        k += 1;
    }
    assert(v@.subrange(0, k as int) =~= v@);
}

fn render_args_into(v: &Vec<Vec<Token>>, out: &mut Vec<char>)
    ensures
        final(out)@ == old(out)@ + render_args(args_view(v@)),
    decreases v, 0nat,
{
    let mut k: usize = 0;
    while k < v.len()
        invariant
            k <= v.len(),
            out@ == old(out)@ + render_args(args_view(v@.subrange(0, k as int))),
        decreases v.len() - k,
    {
        proof {
            broadcast use vstd::std_specs::vec::axiom_vec_index_decreases;

            lemma_args_view_push(v@.subrange(0, k as int), v@[k as int]);
            assert(v@.subrange(0, k + 1) =~= v@.subrange(0, k as int).push(v@[k as int]));
        }
        let ghost ts = args_view(v@.subrange(0, k + 1));
        if k > 0 {
            out.push(',');
            out.push(' ');
        }
        render_list_into(&v[k], out);
        proof {
            assert(ts.drop_last() =~= args_view(v@.subrange(0, k as int)));
            if k == 0 {
                assert(args_view(v@.subrange(0, 0)) =~= Seq::<Seq<TokenM>>::empty());
                assert(out@ =~= old(out)@ + render_args(ts));
            } else {
                assert(out@ =~= old(out)@ + render_args(ts));
            }
        }
        k += 1;
    }
    assert(v@.subrange(0, k as int) =~= v@);
}

impl Token {
    /// The text of this token; see [`render`].
    pub fn to_text(&self) -> (r: String)
        ensures
            r@ == render(token_view(*self)),
    {
        let mut out: Vec<char> = Vec::new();
        render_into(self, &mut out);
        assert(out@ =~= render(token_view(*self)));
        string_from(&out)
    }
}

/// The character of the decimal digit `d`.
pub open spec fn digit_char(d: nat) -> char {
    if d == 0 {
        '0'
    } else if d == 1 {
        '1'
    } else if d == 2 {
        '2'
    } else if d == 3 {
        '3'
    } else if d == 4 {
        '4'
    } else if d == 5 {
        '5'
    } else if d == 6 {
        '6'
    } else if d == 7 {
        '7'
    } else if d == 8 {
        '8'
    } else {
        '9'
    }
}

/// The decimal digits of `n`, most significant first.
pub open spec fn decimal(n: nat) -> Seq<char>
    decreases n,
{
    if n < 10 {
        seq![digit_char(n)]
    } else {
        decimal(n / 10).push(digit_char(n % 10))
    }
}

fn digit(d: usize) -> (r: char)
    requires
        d < 10,
    ensures
        r == digit_char(d as nat),
{
    if d == 0 {
        '0'
    } else if d == 1 {
        '1'
    } else if d == 2 {
        '2'
    } else if d == 3 {
        '3'
    } else if d == 4 {
        '4'
    } else if d == 5 {
        '5'
    } else if d == 6 {
        '6'
    } else if d == 7 {
        '7'
    } else if d == 8 {
        '8'
    } else {
        '9'
    }
}

fn decimal_chars(n: usize) -> (r: Vec<char>)
    ensures
        r@ == decimal(n as nat),
    decreases n,
{
    if n < 10 {
        let r = vec![digit(n)];
        assert(r@ =~= decimal(n as nat));
        r
    } else {
        let mut r = decimal_chars(n / 10);
        r.push(digit(n % 10));
        r
    }
}

/// The message of an error.
pub open spec fn message(e: ErrorM) -> Seq<char> {
    match e {
        ErrorM::InvalidNumber(n) => "Invalid number: `"@ + n + "`"@,
        ErrorM::InvalidExpression => "Invalid expression"@,
        ErrorM::UnknownIdentifier(n) => "Unknown identifier: `"@ + n + "`"@,
        ErrorM::InvalidArgumentCount(n, got, expected) => "Invalid argument count for `"@ + n
            + "`: expected "@ + decimal(expected) + ", got "@ + decimal(got),
    }
}

impl Error {
    /// The message of this error; see [`message`].
    pub fn message(&self) -> (r: String)
        ensures
            r@ == message(self@),
    {
        let mut out: Vec<char> = Vec::new();
        match self {
            Error::InvalidNumber(n) => {
                push_str(&mut out, "Invalid number: `");
                push_str(&mut out, n.as_str());
                push_str(&mut out, "`");
            },
            Error::InvalidExpression => {
                push_str(&mut out, "Invalid expression");
            },
            Error::UnknownIdentifier(n) => {
                push_str(&mut out, "Unknown identifier: `");
                push_str(&mut out, n.as_str());
                push_str(&mut out, "`");
            },
            Error::InvalidArgumentCount(n, got, expected) => {
                push_str(&mut out, "Invalid argument count for `");
                push_str(&mut out, n.as_str());
                push_str(&mut out, "`: expected ");
                push_text(&mut out, &decimal_chars(*expected));
                push_str(&mut out, ", got ");
                push_text(&mut out, &decimal_chars(*got));
            },
        }
        assert(out@ =~= message(self@));
        string_from(&out)
    }
}

/// Whether `c` is read as part of a word: no space, parenthesis or operator.
pub open spec fn is_word_char(c: char) -> bool {
    !is_space(c) && c != '(' && c != ')' && op_of(c) is None
}

/// Whether `t` is a built tree whose leaves are numbers with a valid
/// literal and variables whose names read back as names.
pub open spec fn plain(t: TokenM) -> bool
    decreases t,
{
    match t {
        TokenM::Number(n) => is_decimal(n.digits),
        TokenM::Var(name) => name.len() > 0 && !all_digits(name) && forall|i: int|
            0 <= i < name.len() ==> is_word_char(#[trigger] name[i]),
        TokenM::Tree(_, l, r) => plain(*l) && plain(*r),
        _ => false,
    }
}

/// The tokens of a tree with each node in its own group, as its text
/// tokenizes.
pub open spec fn regroup(t: TokenM) -> TokenM
    decreases t,
{
    match t {
        TokenM::Tree(op, l, r) => TokenM::Group(seq![regroup(*l), TokenM::Op(op), regroup(*r)]),
        _ => t,
    }
}

/// The state after reading the text of `t` from `st`: a leaf is the word
/// being read, a node a group token.
pub open spec fn after_plain(t: TokenM, st: Scan) -> Scan {
    match t {
        TokenM::Number(n) => Scan { working: n.digits, neg: n.negative, ..st },
        TokenM::Var(name) => Scan { working: name, ..st },
        _ => Scan { out: st.out.push(regroup(t)), ..st },
    }
}

proof fn lemma_digits_word_chars(w: Seq<char>)
    requires
        all_digits(w),
    ensures
        forall|i: int| 0 <= i < w.len() ==> is_word_char(#[trigger] w[i]),
{
    assert forall|i: int| 0 <= i < w.len() implies is_word_char(#[trigger] w[i]) by {
        assert(spec_is_digit(w[i]));
    }
}

proof fn lemma_scan_word(s: Seq<char>, k: int, m: int, st: Scan)
    requires
        0 <= k <= m <= s.len(),
        forall|i: int| k <= i < m ==> is_word_char(#[trigger] s[i]),
    ensures
        scan(s, k, st) == scan(s, m, Scan { working: st.working + s.subrange(k, m), ..st }),
    decreases m - k,
{
    if k == m {
        assert(st.working + s.subrange(k, m) =~= st.working);
    } else {
        let st1 = Scan { working: st.working.push(s[k]), ..st };
        lemma_scan_word(s, k + 1, m, st1);
        assert(st1.working + s.subrange(k + 1, m) =~= st.working + s.subrange(k, m));
    }
}

proof fn lemma_close_word(s: Seq<char>, k: int, m: int, d: nat)
    requires
        0 <= k <= m <= s.len(),
        forall|i: int| k <= i < m ==> s[i] != '(' && s[i] != ')',
    ensures
        close_from(s, k, d) == close_from(s, m, d),
    decreases m - k,
{
    if k < m {
        lemma_close_word(s, k + 1, m, d);
    }
}

proof fn lemma_render_word(t: TokenM)
    requires
        plain(t),
        !(t is Tree),
    ensures
        forall|i: int|
            0 <= i < render(t).len() ==> #[trigger] render(t)[i] != '(' && render(t)[i] != ')',
{
    match t {
        TokenM::Number(n) => {
            lemma_digits_word_chars(n.digits);
            if n.negative {
                assert forall|i: int| 0 <= i < render(t).len() implies #[trigger] render(t)[i]
                    != '(' && render(t)[i] != ')' by {
                    if i > 0 {
                        assert(render(t)[i] == n.digits[i - 1]);
                    }
                }
            }
        },
        _ => {},
    }
}

proof fn lemma_tree_text(s: Seq<char>, k: int, t: TokenM)
    requires
        t is Tree,
        0 <= k,
        k + render(t).len() <= s.len(),
        s.subrange(k, k + render(t).len()) == render(t),
    ensures
        ({
            let ln = render(*t->Tree_1).len() as int;
            let rn = render(*t->Tree_2).len() as int;
            &&& render(t).len() == ln + rn + 5
            &&& s[k] == '('
            &&& s.subrange(k + 1, k + 1 + ln) == render(*t->Tree_1)
            &&& s[k + 1 + ln] == ' '
            &&& s[k + 2 + ln] == t->Tree_0.spec_symbol()
            &&& s[k + 3 + ln] == ' '
            &&& s.subrange(k + 4 + ln, k + 4 + ln + rn) == render(*t->Tree_2)
            &&& s[k + 4 + ln + rn] == ')'
        }),
{
    let l = *t->Tree_1;
    let r = *t->Tree_2;
    let ln = render(l).len() as int;
    let rn = render(r).len() as int;
    let n = render(t).len() as int;
    let big = s.subrange(k, k + n);
    let text = seq!['('] + render(l) + seq![' ', t->Tree_0.spec_symbol(), ' '] + render(r) + seq![')'];
    assert(render(t) == text);
    assert(text.subrange(1, 1 + ln) =~= render(l));
    assert(big.subrange(1, 1 + ln) =~= s.subrange(k + 1, k + 1 + ln));
    assert(text.subrange(4 + ln, 4 + ln + rn) =~= render(r));
    assert(big.subrange(4 + ln, 4 + ln + rn) =~= s.subrange(k + 4 + ln, k + 4 + ln + rn));
    assert(big[0] == s[k]);
    assert(big[1 + ln] == s[k + 1 + ln]);
    assert(big[2 + ln] == s[k + 2 + ln]);
    assert(big[3 + ln] == s[k + 3 + ln]);
    assert(big[4 + ln + rn] == s[k + 4 + ln + rn]);
    assert(text[0] == '(');
    assert(text[1 + ln] == ' ');
    assert(text[2 + ln] == t->Tree_0.spec_symbol());
    assert(text[3 + ln] == ' ');
    assert(text[4 + ln + rn] == ')');
}

proof fn lemma_close_plain(s: Seq<char>, k: int, t: TokenM, d: nat)
    requires
        plain(t),
        d >= 1,
        0 <= k,
        k + render(t).len() <= s.len(),
        s.subrange(k, k + render(t).len()) == render(t),
    ensures
        close_from(s, k, d) == close_from(s, k + render(t).len(), d),
    decreases t,
{
    let n = render(t).len() as int;
    match t {
        TokenM::Tree(op, l, r) => {
            let ln = render(*l).len() as int;
            let rn = render(*r).len() as int;
            lemma_tree_text(s, k, t);
            lemma_close_plain(s, k + 1, *l, d + 1);
            lemma_close_plain(s, k + 4 + ln, *r, d + 1);
            lemma_op_symbol(op);
            lemma_close_word(s, k + 1 + ln, k + 4 + ln, d + 1);
        },
        _ => {
            lemma_render_word(t);
            assert forall|i: int| k <= i < k + n implies s[i] != '(' && s[i] != ')' by {
                assert(s.subrange(k, k + n)[i - k] == s[i]);
            }
            lemma_close_word(s, k, k + n, d);
        },
    }
}

proof fn lemma_scan_plain(s: Seq<char>, k: int, t: TokenM, st: Scan)
    requires
        plain(t),
        0 <= k,
        k + render(t).len() <= s.len(),
        s.subrange(k, k + render(t).len()) == render(t),
        st.working.len() == 0,
        !st.neg,
        st.out.len() == 0 || st.out.last() is Op,
    ensures
        scan(s, k, st) == scan(s, k + render(t).len(), after_plain(t, st)),
    decreases t, 2nat,
{
    let n = render(t).len() as int;
    match t {
        TokenM::Number(num) => {
            lemma_digits_word_chars(num.digits);
            let dn = num.digits.len() as int;
            if num.negative {
                assert(s.subrange(k, k + n)[0] == s[k]);
                assert(s[k] == '-');
                let st1 = Scan { neg: true, ..st };
                assert(flush(st) == Ok::<Scan, ErrorM>(st));
                assert(scan(s, k, st) == scan(s, k + 1, st1));
                assert forall|i: int| k + 1 <= i < k + n implies is_word_char(#[trigger] s[i]) by {
                    assert(s.subrange(k, k + n)[i - k] == s[i]);
                    assert(s[i] == num.digits[i - k - 1]);
                }
                lemma_scan_word(s, k + 1, k + n, st1);
                assert(render(t) == seq!['-'] + num.digits);
                assert(render(t).subrange(1, n) =~= num.digits);
                assert(s.subrange(k, k + n).subrange(1, n) =~= s.subrange(k + 1, k + n));
                assert(s.subrange(k + 1, k + n) == num.digits);
                assert(scan(s, k + 1, st1) == scan(
                    s,
                    k + n,
                    Scan { working: num.digits, ..st1 },
                ));
                assert(after_plain(t, st) == Scan { working: num.digits, ..st1 });
                assert(st1.working + num.digits =~= num.digits);
                assert(scan(s, k, st) == scan(s, k + n, after_plain(t, st)));
            } else {
                assert forall|i: int| k <= i < k + n implies is_word_char(#[trigger] s[i]) by {
                    assert(s.subrange(k, k + n)[i - k] == s[i]);
                    assert(s[i] == num.digits[i - k]);
                }
                lemma_scan_word(s, k, k + n, st);
                assert(render(t) == num.digits);
                assert(s.subrange(k, k + n) == num.digits);
                assert(st.working + num.digits =~= num.digits);
                assert(after_plain(t, st) == Scan { working: num.digits, ..st });
                assert(scan(s, k, st) == scan(s, k + n, after_plain(t, st)));
            }
        },
        TokenM::Var(name) => {
            assert forall|i: int| k <= i < k + n implies is_word_char(#[trigger] s[i]) by {
                assert(s.subrange(k, k + n)[i - k] == s[i]);
                assert(s[i] == name[i - k]);
            }
            lemma_scan_word(s, k, k + n, st);
            assert(st.working + name =~= name);
            assert(s.subrange(k, k + n) == name);
            assert(scan(s, k, st) == scan(s, k + n, after_plain(t, st)));
        },
        TokenM::Tree(..) => {
            lemma_scan_node(s, k, t, st);
        },
        _ => {
            assert(!plain(t));
        },
    }
}

proof fn lemma_scan_node(s: Seq<char>, k: int, t: TokenM, st: Scan)
    requires
        plain(t),
        t is Tree,
        0 <= k,
        k + render(t).len() <= s.len(),
        s.subrange(k, k + render(t).len()) == render(t),
        st.working.len() == 0,
        !st.neg,
        st.out.len() == 0 || st.out.last() is Op,
    ensures
        scan(s, k, st) == scan(s, k + render(t).len(), after_plain(t, st)),
    decreases t, 1nat,
{
    let n = render(t).len() as int;
    let op = t->Tree_0;
    let l = t->Tree_1;
    let r = t->Tree_2;
    let ln = render(*l).len() as int;
    let rn = render(*r).len() as int;
    let inner = render(*l) + seq![' ', op.spec_symbol(), ' '] + render(*r);
    lemma_tree_text(s, k, t);
    assert(flush(st) == Ok::<Scan, ErrorM>(st));
    lemma_close_plain(s, k + 1, *l, 1);
    lemma_close_plain(s, k + 4 + ln, *r, 1);
    lemma_op_symbol(op);
    lemma_close_word(s, k + 1 + ln, k + 4 + ln, 1);
    assert(close_from(s, k + 1, 1) == k + n - 1);
    assert(s.subrange(k + 1, k + n - 1) =~= inner);
    lemma_inner_tokens(t);
    assert(regroup(t) == TokenM::Group(seq![regroup(*l), TokenM::Op(op), regroup(*r)]));
    assert(!(st.out.len() > 0 && st.out.last() is Var));
    assert(close_group(st, inner) == Ok::<Scan, ErrorM>(after_plain(t, st)));
    assert(!is_space(s[k]) && s[k] == '(');
    assert(scan(s, k, st) == scan(s, k + n, after_plain(t, st)));
}

proof fn lemma_flush_after(t: TokenM, st: Scan)
    requires
        plain(t),
        st.working.len() == 0,
        !st.neg,
    ensures
        flush(after_plain(t, st)) == Ok::<Scan, ErrorM>(
            Scan { out: st.out.push(regroup(t)), working: Seq::empty(), neg: false },
        ),
{
    match t {
        TokenM::Number(n) => {
            assert(n.digits.len() > 0);
            assert(word(n.digits, n.negative) == Ok::<TokenM, ErrorM>(t));
        },
        TokenM::Var(name) => {
            assert(word(name, false) == Ok::<TokenM, ErrorM>(t));
        },
        _ => {
            assert(st.working =~= Seq::<char>::empty());
        },
    }
}

proof fn lemma_op_symbol(op: Ops)
    ensures
        op_of(op.spec_symbol()) == Some(op),
        !is_space(op.spec_symbol()),
        op.spec_symbol() != '(' && op.spec_symbol() != ')',
        (op.spec_symbol() == '-') == (op == Ops::Sub),
{
}

proof fn lemma_inner_tokens(t: TokenM)
    requires
        plain(t),
        t is Tree,
    ensures
        tokenize_spec(render(*t->Tree_1) + seq![' ', t->Tree_0.spec_symbol(), ' '] + render(
            *t->Tree_2,
        )) == Ok::<Seq<TokenM>, ErrorM>(
            seq![regroup(*t->Tree_1), TokenM::Op(t->Tree_0), regroup(*t->Tree_2)],
        ),
    decreases t, 0nat,
{
    let op = t->Tree_0;
    let l = *t->Tree_1;
    let r = *t->Tree_2;
    let s = render(l) + seq![' ', op.spec_symbol(), ' '] + render(r);
    let ln = render(l).len() as int;
    let rn = render(r).len() as int;
    let init = Scan { out: Seq::empty(), working: Seq::empty(), neg: false };
    assert(s.subrange(0, ln) =~= render(l));
    lemma_scan_plain(s, 0, l, init);
    let a = after_plain(l, init);
    assert(s[ln] == ' ');
    assert(scan(s, ln, a) == scan(s, ln + 1, a));
    lemma_op_symbol(op);
    assert(s[ln + 1] == op.spec_symbol());
    lemma_flush_after(l, init);
    let a1 = Scan { out: seq![regroup(l)], working: Seq::empty(), neg: false };
    assert(init.out.push(regroup(l)) =~= seq![regroup(l)]);
    assert(flush(a) == Ok::<Scan, ErrorM>(a1));
    match l {
        TokenM::Number(_) => {
            assert(regroup(l) == l);
        },
        TokenM::Var(_) => {
            assert(regroup(l) == l);
        },
        TokenM::Tree(..) => {},
        _ => {
            assert(!plain(l));
        },
    }
    assert(!(regroup(l) is Op));
    let b = Scan { out: seq![regroup(l), TokenM::Op(op)], working: Seq::empty(), neg: false };
    assert(a1.out.push(TokenM::Op(op)) =~= b.out);
    assert(scan(s, ln + 1, a) == scan(s, ln + 2, b));
    assert(s[ln + 2] == ' ');
    assert(scan(s, ln + 2, b) == scan(s, ln + 3, b));
    assert(s.subrange(ln + 3, ln + 3 + rn) =~= render(r));
    lemma_scan_plain(s, ln + 3, r, b);
    let c = after_plain(r, b);
    assert(scan(s, ln + 3 + rn, c) == Ok::<Scan, ErrorM>(c));
    lemma_flush_after(r, b);
    assert(b.out.push(regroup(r)) =~= seq![regroup(l), TokenM::Op(op), regroup(r)]);
}

/// Tokenizing the text of a built tree of numbers and variables gives the
/// tree back as tokens, each node an operator between its two operands,
/// grouped in parentheses.
pub proof fn lemma_render_retokenizes(t: TokenM)
    requires
        plain(t),
    ensures
        tokenize_spec(render(t)) == Ok::<Seq<TokenM>, ErrorM>(seq![regroup(t)]),
{
    let s = render(t);
    let init = Scan { out: Seq::empty(), working: Seq::empty(), neg: false };
    assert(s.subrange(0, s.len() as int) =~= s);
    lemma_scan_plain(s, 0, t, init);
    let a = after_plain(t, init);
    assert(scan(s, s.len() as int, a) == Ok::<Scan, ErrorM>(a));
    lemma_flush_after(t, init);
    assert(init.out.push(regroup(t)) =~= seq![regroup(t)]);
}

proof fn lemma_operand_regrouped(a: Token, t: TokenM)
    requires
        plain(t),
        token_view(a) == regroup(t),
    ensures
        operand(a) is Some,
        token_view(operand(a)->0) == t,
    decreases t, 1nat,
{
    match t {
        TokenM::Tree(..) => {
            match a {
                Token::Group(w) => {
                    lemma_build_regrouped(w@, t);
                },
                _ => {},
            }
        },
        TokenM::Number(_) => {
            assert(!(a is Group));
        },
        TokenM::Var(_) => {
            assert(!(a is Group));
        },
        _ => {},
    }
}

proof fn lemma_build_regrouped(v: Seq<Token>, t: TokenM)
    requires
        plain(t),
        t is Tree,
        toks_view(v) == seq![regroup(*t->Tree_1), TokenM::Op(t->Tree_0), regroup(*t->Tree_2)],
    ensures
        build(v) is Some,
        token_view(build(v)->0) == t,
    decreases t, 0nat,
{
    let op = t->Tree_0;
    let l = *t->Tree_1;
    let r = *t->Tree_2;
    lemma_toks_view_index(v);
    assert(v.len() == 3);
    assert(token_view(v[0]) == regroup(l));
    assert(token_view(v[1]) == TokenM::Op(op));
    assert(token_view(v[2]) == regroup(r));
    assert(v[1] == Token::Op(op)) by {
        match v[1] {
            Token::Op(_) => {},
            _ => {},
        }
    }
    lemma_not_op(v[0], l);
    lemma_not_op(v[2], r);
    assert(max_prio(v) == op.spec_prio()) by {
        reveal_with_fuel(max_prio, 4);
        assert(v.drop_last().drop_last().drop_last() =~= Seq::<Token>::empty());
    }
    assert(first_at(v, op.spec_prio()) == 1) by {
        reveal_with_fuel(first_at, 2);
        assert(v.drop_first()[0] == v[1]);
    }
    lemma_operand_regrouped(v[0], l);
    lemma_operand_regrouped(v[2], r);
    let node = Token::Tree(op, Box::new(operand(v[0])->0), Box::new(operand(v[2])->0));
    assert(splice(v, 1, node) =~= seq![node]);
    lemma_terminal_unchanged(node);
}

proof fn lemma_not_op(a: Token, t: TokenM)
    requires
        plain(t),
        token_view(a) == regroup(t),
    ensures
        !(a is Op),
{
    match t {
        TokenM::Tree(..) => {},
        TokenM::Number(_) => {},
        TokenM::Var(_) => {},
        _ => {},
    }
}

/// Building the tokens of the text of a built tree of numbers and
/// variables gives the tree back: tokenizing the text and building the
/// tokens returns a tree equal to the first.
pub proof fn lemma_round_trip(t: TokenM, tokens: Seq<Token>)
    requires
        plain(t),
        tokenize_spec(render(t)) == Ok::<Seq<TokenM>, ErrorM>(toks_view(tokens)),
    ensures
        build(tokens) is Some,
        token_view(build(tokens)->0) == t,
{
    lemma_render_retokenizes(t);
    lemma_toks_view_index(tokens);
    assert(toks_view(tokens) == seq![regroup(t)]);
    assert(tokens.len() == 1);
    assert(toks_view(tokens)[0] == regroup(t));
    assert(token_view(tokens[0]) == regroup(t));
    lemma_not_op(tokens[0], t);
    assert(max_prio(tokens) == 0) by {
        assert(tokens.drop_last() =~= Seq::<Token>::empty());
        assert(tokens.last() == tokens[0]);
        reveal_with_fuel(max_prio, 2);
    }
    lemma_operand_regrouped(tokens[0], t);
}

} // verus!
