//! The evaluation context: variables and the registry of built-in functions.
use vstd::prelude::*;

use convert_case::{Case, Casing};

use crate::funcs::{builtins, catalog, reqire_args, Builtin};
use crate::token::{token_view, Error, ErrorM, Num, NumM, Token, TokenM};
use crate::tree::{build, create_tree};

verus! {

/// The lowercase form of a text, as `str::to_lowercase` gives it.
pub uninterp spec fn lower_of(s: Seq<char>) -> Seq<char>;

/// The snake-case form of a name, as convert_case gives it.
pub uninterp spec fn snake_of(s: Seq<char>) -> Seq<char>;

/// Relies on `str::to_lowercase`: the lowercase form of a text depends on
/// its characters alone.
#[verifier::external_body]
fn to_lowercase(s: &str) -> (r: String)
    ensures
        r@ == lower_of(s@),
{
    s.to_lowercase()
}

/// Relies on convert_case's `Casing::to_case` with `Case::Snake`: the
/// snake-case form of a name depends on its characters alone.
#[verifier::external_body]
fn to_snake_case(s: &str) -> (r: String)
    ensures
        r@ == snake_of(s@),
{
    s.to_case(Case::Snake)
}

/// The value of the first entry of `s` whose key is `k`.
pub open spec fn first_value<V>(s: Seq<(String, V)>, k: Seq<char>) -> Option<V>
    decreases s.len(),
{
    if s.len() == 0 {
        None
    } else {
        match first_value(s.drop_last(), k) {
            Some(v) => Some(v),
            None => if s.last().0@ == k {
                Some(s.last().1)
            } else {
                None
            },
        }
    }
}

/// The first function of `s` whose snake-case name is `k`.
pub open spec fn first_named(s: Seq<Builtin>, k: Seq<char>) -> Option<Builtin>
    decreases s.len(),
{
    if s.len() == 0 {
        None
    } else {
        match first_named(s.drop_last(), k) {
            Some(b) => Some(b),
            None => if snake_of(s.last().spec_name()) == k {
                Some(s.last())
            } else {
                None
            },
        }
    }
}

/// The trees of each argument token list of `s`, or `None` when one of them
/// does not build.
pub open spec fn build_all(s: Seq<Vec<Token>>) -> Option<Seq<Token>>
    decreases s.len(),
{
    if s.len() == 0 {
        Some(Seq::empty())
    } else {
        match (build_all(s.drop_last()), build(s.last()@)) {
            (Some(a), Some(t)) => Some(a.push(t)),
            _ => None,
        }
    }
}

proof fn lemma_first_absent<V>(s: Seq<(String, V)>, k: Seq<char>)
    requires
        forall|i: int| 0 <= i < s.len() ==> (#[trigger] s[i]).0@ != k,
    ensures
        first_value(s, k) is None,
    decreases s.len(),
{
    if s.len() > 0 {
        lemma_first_absent(s.drop_last(), k);
    }
}

proof fn lemma_first_found<V>(s: Seq<(String, V)>, j: int, k: Seq<char>)
    requires
        0 <= j < s.len(),
        s[j].0@ == k,
        forall|i: int| 0 <= i < j ==> (#[trigger] s[i]).0@ != k,
    ensures
        first_value(s, k) == Some(s[j].1),
    decreases s.len(),
{
    if j < s.len() - 1 {
        lemma_first_found(s.drop_last(), j, k);
    } else {
        lemma_first_absent(s.drop_last(), k);
    }
}

proof fn lemma_first_update<V>(s: Seq<(String, V)>, j: int, e: (String, V), k: Seq<char>)
    requires
        0 <= j < s.len(),
        s[j].0@ == e.0@,
        forall|i: int| 0 <= i < j ==> (#[trigger] s[i]).0@ != e.0@,
    ensures
        first_value(s.update(j, e), k) == if k == e.0@ {
            Some(e.1)
        } else {
            first_value(s, k)
        },
    decreases s.len(),
{
    let u = s.update(j, e);
    if j == s.len() - 1 {
        assert(u.drop_last() =~= s.drop_last());
        lemma_first_absent(s.drop_last(), e.0@);
    } else {
        assert(u.drop_last() =~= s.drop_last().update(j, e));
        lemma_first_update(s.drop_last(), j, e, k);
    }
}

proof fn lemma_build_all_prefix(s: Seq<Vec<Token>>, n: int)
    requires
        0 <= n <= s.len(),
        build_all(s.subrange(0, n)) is None,
    ensures
        build_all(s) is None,
    decreases s.len(),
{
    if n < s.len() {
        assert(s.drop_last().subrange(0, n) =~= s.subrange(0, n));
        lemma_build_all_prefix(s.drop_last(), n);
    } else {
        assert(s.subrange(0, n) =~= s);
    }
}

/// The index of the first entry of `entries` whose key is `key`.
fn find_key<V>(entries: &Vec<(String, V)>, key: &String) -> (r: Option<usize>)
    ensures
        match r {
            Some(j) => j < entries@.len() && entries@[j as int].0@ == key@ && first_value(
                entries@,
                key@,
            ) == Some(entries@[j as int].1) && forall|i: int|
                0 <= i < j ==> (#[trigger] entries@[i]).0@ != key@,
            None => first_value(entries@, key@) is None,
        },
{
    let mut j: usize = 0;
    while j < entries.len()
        invariant
            j <= entries.len(),
            forall|i: int| 0 <= i < j ==> (#[trigger] entries@[i]).0@ != key@,
        decreases entries.len() - j,
    {
        if entries[j].0 == *key {
            proof {
                lemma_first_found(entries@, j as int, key@);
            }
            return Some(j);
        }
        j += 1;
    }
    proof {
        lemma_first_absent(entries@, key@);
    }
    None
}

/// Binding a name twice: after the second binding the name stands for the
/// second value, and every other name for what it stood for before both.
pub proof fn lemma_rebinding(
    c0: Context,
    c1: Context,
    c2: Context,
    name: Seq<char>,
    first: Token,
    second: Token,
)
    requires
        forall|k: Seq<char>|
            #[trigger] c1.var(k) == if k == lower_of(name) {
                Some(token_view(first))
            } else {
                c0.var(k)
            },
        forall|k: Seq<char>|
            #[trigger] c2.var(k) == if k == lower_of(name) {
                Some(token_view(second))
            } else {
                c1.var(k)
            },
    ensures
        c2.var(lower_of(name)) == Some(token_view(second)),
        forall|k: Seq<char>| k != lower_of(name) ==> #[trigger] c2.var(k) == c0.var(k),
{
    assert forall|k: Seq<char>| k != lower_of(name) implies #[trigger] c2.var(k) == c0.var(k) by {
        assert(c2.var(k) == c1.var(k));
    }
}

/// The variables and the built-in functions that an expression is
/// evaluated against.
pub struct Context {
    vars: Vec<(String, Token)>,
    funcs: Vec<(String, Builtin)>,
}

impl Context {
    /// The model of the token bound to the lowercase name `k`.
    pub closed spec fn var(&self, k: Seq<char>) -> Option<TokenM> {
        match first_value(self.vars@, k) {
            Some(t) => Some(token_view(t)),
            None => None,
        }
    }

    /// The function registered under the lowercase name `k`.
    pub closed spec fn func(&self, k: Seq<char>) -> Option<Builtin> {
        first_value(self.funcs@, k)
    }

    /// A context with the constants `pi`, `e` and `tau` and every built-in
    /// function, each under its snake-case name; where two functions share
    /// a name, the first registered keeps it.
    pub fn new() -> (r: Self)
        ensures
            forall|k: Seq<char>|
                #[trigger] r.var(k) == if k == "pi"@ {
                    Some(TokenM::Number(NumM { negative: false, digits: "3.141592653589793"@ }))
                } else if k == "e"@ {
                    Some(TokenM::Number(NumM { negative: false, digits: "2.718281828459045"@ }))
                } else if k == "tau"@ {
                    Some(TokenM::Number(NumM { negative: false, digits: "6.283185307179586"@ }))
                } else {
                    None
                },
            forall|k: Seq<char>| #[trigger] r.func(k) == first_named(catalog(), k),
    {
        let vars = vec![
            (
                "pi".to_owned(),
                Token::Number(Num { negative: false, digits: "3.141592653589793".to_owned() }),
            ),
            (
                "e".to_owned(),
                Token::Number(Num { negative: false, digits: "2.718281828459045".to_owned() }),
            ),
            (
                "tau".to_owned(),
                Token::Number(Num { negative: false, digits: "6.283185307179586".to_owned() }),
            ),
        ];
        let mut r = Context { vars, funcs: Vec::new() };
        let ghost r0 = r;
        proof {
            let s = r.vars@;
            assert(s.drop_last().drop_last().drop_last() =~= Seq::<(String, Token)>::empty());
            assert forall|k: Seq<char>| #[trigger]
                r.var(k) == if k == "pi"@ {
                    Some(TokenM::Number(NumM { negative: false, digits: "3.141592653589793"@ }))
                } else if k == "e"@ {
                    Some(TokenM::Number(NumM { negative: false, digits: "2.718281828459045"@ }))
                } else if k == "tau"@ {
                    Some(TokenM::Number(NumM { negative: false, digits: "6.283185307179586"@ }))
                } else {
                    None
                } by {
                reveal_strlit("pi");
                reveal_strlit("e");
                reveal_strlit("tau");
                reveal_with_fuel(first_value, 4);
            }
        }
        let cat = builtins();
        let mut i: usize = 0;
        assert(cat@.subrange(0, 0) =~= Seq::<Builtin>::empty());
        while i < cat.len()
            invariant
                i <= cat.len(),
                cat@ == catalog(),
                forall|k: Seq<char>| #[trigger] r.var(k) == r0.var(k),
                forall|k: Seq<char>|
                    #[trigger] r.func(k) == first_named(cat@.subrange(0, i as int), k),
            decreases cat.len() - i,
        {
            let b = cat[i];
            let key = to_snake_case(b.name());
            let ghost pre = cat@.subrange(0, i as int);
            let ghost next = cat@.subrange(0, i + 1);
            assert(next.drop_last() =~= pre);
            assert(next.last() == b);
            r.register(key, b);
            i += 1;
        }
        assert(cat@.subrange(0, i as int) =~= catalog());
        r
    }

    /// Registers `b` under the name `key`, unless a function is registered
    /// under it already.
    pub fn register(&mut self, key: String, b: Builtin)
        ensures
            forall|k: Seq<char>|
                #[trigger] final(self).func(k) == if k == key@ && old(self).func(k) is None {
                    Some(b)
                } else {
                    old(self).func(k)
                },
            forall|k: Seq<char>| #[trigger] final(self).var(k) == old(self).var(k),
    {
        let ghost kv = key@;
        let ghost before = self.funcs@;
        match find_key(&self.funcs, &key) {
            Some(_) => {},
            None => {
                self.funcs.push((key, b));
                assert(self.funcs@.drop_last() =~= before);
                assert forall|k: Seq<char>| #[trigger]
                    first_value(self.funcs@, k) == if k == kv && first_value(before, k) is None {
                        Some(b)
                    } else {
                        first_value(before, k)
                    } by {
                    assert(self.funcs@.last().0@ == kv);
                }
            },
        }
    }

    /// The token bound to the name `key`, taken as it is; names are bound
    /// in lowercase.
    pub fn var_by_key(&self, key: &String) -> (r: Option<&Token>)
        ensures
            match self.var(key@) {
                Some(t) => r is Some && token_view(*r->0) == t,
                None => r is None,
            },
    {
        match find_key(&self.vars, key) {
            Some(j) => Some(&self.vars[j].1),
            None => None,
        }
    }

    /// The function registered under the name `key`, taken as it is.
    pub fn func_by_key(&self, key: &String) -> (r: Option<Builtin>)
        ensures
            r == self.func(key@),
    {
        match find_key(&self.funcs, key) {
            Some(j) => Some(self.funcs[j].1),
            None => None,
        }
    }

    /// Binds `value` to the name `key`, taken as it is, in place of what
    /// was bound to it.
    pub fn bind_key(&mut self, key: String, value: Token)
        ensures
            forall|k: Seq<char>|
                #[trigger] final(self).var(k) == if k == key@ {
                    Some(token_view(value))
                } else {
                    old(self).var(k)
                },
            forall|k: Seq<char>| #[trigger] final(self).func(k) == old(self).func(k),
    {
        let ghost kv = key@;
        let ghost before = self.vars@;
        match find_key(&self.vars, &key) {
            Some(j) => {
                let ghost e = (key, value);
                self.vars.set(j, (key, value));
                proof {
                    assert forall|k: Seq<char>| #[trigger]
                        first_value(self.vars@, k) == if k == kv {
                            Some(value)
                        } else {
                            first_value(before, k)
                        } by {
                        lemma_first_update(before, j as int, e, k);
                    }
                }
            },
            None => {
                self.vars.push((key, value));
                assert(self.vars@.drop_last() =~= before);
            },
        }
    }

    /// Binds `value` to the lowercase form of `name`, in place of what was
    /// bound to it.
    pub fn set_var(&mut self, name: &str, value: Token)
        ensures
            forall|k: Seq<char>|
                #[trigger] final(self).var(k) == if k == lower_of(name@) {
                    Some(token_view(value))
                } else {
                    old(self).var(k)
                },
            forall|k: Seq<char>| #[trigger] final(self).func(k) == old(self).func(k),
    {
        let key = to_lowercase(name);
        self.bind_key(key, value);
    }

    /// The token bound to the lowercase form of `name`; an unknown name is
    /// an error that gives the name as written.
    pub fn lookup_var(&self, name: &str) -> (r: Result<&Token, Error>)
        ensures
            match self.var(lower_of(name@)) {
                Some(t) => r is Ok && token_view(*r->Ok_0) == t,
                None => r is Err && r->Err_0@ == ErrorM::UnknownIdentifier(name@),
            },
    {
        let key = to_lowercase(name);
        match self.var_by_key(&key) {
            Some(t) => Ok(t),
            None => Err(Error::UnknownIdentifier(name.to_owned())),
        }
    }

    /// Readies a call of `name` on the argument token lists `args`: finds
    /// the function registered under the lowercase form of `name`, builds
    /// each argument into its tree, and checks the number of arguments.
    /// Nothing is evaluated: the function decides which of its arguments to
    /// evaluate.
    pub fn prepare_call(&self, name: &str, args: Vec<Vec<Token>>) -> (r: Result<
        (Builtin, Vec<Token>),
        Error,
    >)
        ensures
            match self.func(lower_of(name@)) {
                None => r is Err && r->Err_0@ == ErrorM::UnknownIdentifier(name@),
                Some(b) => match build_all(args@) {
                    None => r is Err && r->Err_0@ == ErrorM::InvalidExpression,
                    Some(trees) => if b.spec_arity() is Some && b.spec_arity()->0 != args@.len() {
                        r is Err && r->Err_0@ == ErrorM::InvalidArgumentCount(
                            lower_of(name@),
                            args@.len(),
                            b.spec_arity()->0 as nat,
                        )
                    } else {
                        r is Ok && r->Ok_0.0 == b && r->Ok_0.1@ == trees
                    },
                },
            },
    {
        let key = to_lowercase(name);
        let b = match self.func_by_key(&key) {
            Some(b) => b,
            None => {
                return Err(Error::UnknownIdentifier(name.to_owned()));
            },
        };
        match b.build_args(key, args) {
            Ok(trees) => Ok((b, trees)),
            Err(e) => Err(e),
        }
    }
}

impl Builtin {
    /// Builds each argument token list of a call to this function, known as
    /// `name`, into its tree, and checks the number of arguments. Nothing is
    /// evaluated.
    pub fn build_args(&self, name: String, args: Vec<Vec<Token>>) -> (r: Result<Vec<Token>, Error>)
        ensures
            match build_all(args@) {
                None => r is Err && r->Err_0@ == ErrorM::InvalidExpression,
                Some(trees) => if self.spec_arity() is Some && self.spec_arity()->0 != args@.len() {
                    r is Err && r->Err_0@ == ErrorM::InvalidArgumentCount(
                        name@,
                        args@.len(),
                        self.spec_arity()->0 as nat,
                    )
                } else {
                    r is Ok && r->Ok_0@ == trees
                },
            },
    {
        let ghost all = args@;
        let n = args.len();
        let mut rest = args;
        let mut trees: Vec<Token> = Vec::new();
        while rest.len() > 0
            invariant
                trees.len() <= n,
                n == all.len(),
                all == args@,
                rest@ == all.subrange(trees.len() as int, n as int),
                build_all(all.subrange(0, trees.len() as int)) == Some(trees@),
            decreases rest.len(),
        {
            let ghost m = trees.len() as int;
            let a = rest.remove(0);
            assert(a == all[m]);
            assert(all.subrange(0, m + 1).drop_last() =~= all.subrange(0, m));
            assert(rest@ =~= all.subrange(m + 1, n as int));
            match create_tree(a) {
                Ok(t) => {
                    trees.push(t);
                },
                Err(e) => {
                    proof {
                        assert(build(a@) is None);
                        assert(build_all(all.subrange(0, m + 1)) is None);
                        lemma_build_all_prefix(all, m + 1);
                    }
                    return Err(e);
                },
            }
        }
        assert(all.subrange(0, n as int) =~= all);
        if let Some(count) = self.arity() {
            if let Err(e) = reqire_args(name.as_str(), trees.as_slice(), count) {
                return Err(e);
            }
        }
        Ok(trees)
    }
}

} // verus!
