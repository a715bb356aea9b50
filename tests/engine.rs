use expr_calc::funcs::{Builtin, Factorial, Gcf, If, LogicFn, PredicateFn, UnaryFn};
use expr_calc::solver::Context;
use expr_calc::token::{Error, Num, Ops, Token};
use expr_calc::tokens::{is_digit, tokenize};
use expr_calc::tree::create_tree;

fn num(digits: &str) -> Token {
    Token::Number(Num { negative: false, digits: digits.to_string() })
}

fn neg(digits: &str) -> Token {
    Token::Number(Num { negative: true, digits: digits.to_string() })
}

fn node(op: Ops, l: Token, r: Token) -> Token {
    Token::Tree(op, Box::new(l), Box::new(r))
}

fn parse(text: &str) -> Result<Token, Error> {
    create_tree(tokenize(text)?)
}

#[test]
fn precedence_and_grouping() {
    assert_eq!(
        parse("1+2*3").unwrap(),
        node(Ops::Add, num("1"), node(Ops::Mul, num("2"), num("3")))
    );
    assert_eq!(
        parse("(1+2)*3").unwrap(),
        node(Ops::Mul, node(Ops::Add, num("1"), num("2")), num("3"))
    );
}

#[test]
fn powers_chain_to_the_left() {
    assert_eq!(
        parse("2^3^2").unwrap(),
        node(Ops::Pow, node(Ops::Pow, num("2"), num("3")), num("2"))
    );
}

#[test]
fn unary_minus_binds_to_the_literal() {
    assert_eq!(
        tokenize("-3^2").unwrap(),
        vec![neg("3"), Token::Op(Ops::Pow), num("2")]
    );
    assert_eq!(parse("-3^2").unwrap(), node(Ops::Pow, neg("3"), num("2")));
}

#[test]
fn double_minus_cancels() {
    assert_eq!(tokenize("--3").unwrap(), vec![num("3")]);
    assert_eq!(
        tokenize("1 - -2").unwrap(),
        vec![num("1"), Token::Op(Ops::Sub), neg("2")]
    );
}

#[test]
fn spaces_do_not_split_words() {
    assert_eq!(tokenize(" 1 2 ").unwrap(), vec![num("12")]);
    assert_eq!(tokenize("").unwrap(), vec![]);
}

#[test]
fn names_and_numbers() {
    assert_eq!(
        tokenize("x1+.5").unwrap(),
        vec![Token::Var("x1".to_string()), Token::Op(Ops::Add), num(".5")]
    );
    assert!(is_digit('7'));
    assert!(is_digit('.'));
    assert!(!is_digit('a'));
}

#[test]
fn malformed_numbers_are_refused() {
    assert_eq!(tokenize("1.2.3"), Err(Error::InvalidNumber("1.2.3".to_string())));
    assert_eq!(tokenize("."), Err(Error::InvalidNumber(".".to_string())));
}

#[test]
fn calls_split_at_top_level_commas() {
    let toks = tokenize("max(1, min(2,3))").unwrap();
    assert_eq!(toks.len(), 1);
    match &toks[0] {
        Token::Func(name, args) => {
            assert_eq!(name, "max");
            assert_eq!(args.len(), 2);
            assert_eq!(args[0], vec![num("1")]);
            assert_eq!(
                args[1],
                vec![Token::Func(
                    "min".to_string(),
                    vec![vec![num("2")], vec![num("3")]]
                )]
            );
        }
        other => panic!("not a call: {:?}", other),
    }
    assert_eq!(
        tokenize("f()").unwrap(),
        vec![Token::Func("f".to_string(), vec![])]
    );
}

#[test]
fn groups_become_group_tokens() {
    assert_eq!(
        tokenize("2*(3)").unwrap(),
        vec![num("2"), Token::Op(Ops::Mul), Token::Group(vec![num("3")])]
    );
}

#[test]
fn malformed_expressions() {
    assert_eq!(parse("1+"), Err(Error::InvalidExpression));
    assert_eq!(parse(""), Err(Error::InvalidExpression));
    assert_eq!(parse("()"), Err(Error::InvalidExpression));
    assert_eq!(parse("+"), Err(Error::InvalidExpression));
    assert_eq!(parse("1*+2"), Err(Error::InvalidExpression));
    assert_eq!(parse("(1)(2)"), Err(Error::InvalidExpression));
}

#[test]
fn building_a_terminal_keeps_it() {
    let tree = node(Ops::Add, num("1"), num("2"));
    assert_eq!(create_tree(vec![tree.duplicate()]).unwrap(), tree);
    assert_eq!(create_tree(vec![num("4")]).unwrap(), num("4"));
    let var = Token::Var("x".to_string());
    assert_eq!(create_tree(vec![var.duplicate()]).unwrap(), var);
}

#[test]
fn rendering_round_trip() {
    for text in ["1+2*3", "(1+2)*3", "2^3^2", "-3^2", "1 - -2 % x", "a/b/c"] {
        let tree = parse(text).unwrap();
        let again = parse(&tree.to_text()).unwrap();
        assert_eq!(again, tree, "{}", text);
    }
    assert_eq!(parse("1+2*3").unwrap().to_text(), "(1 + (2 * 3))");
    assert_eq!(parse("-3^2").unwrap().to_text(), "(-3 ^ 2)");
}

#[test]
fn call_text() {
    let toks = tokenize("f(1+2, x)").unwrap();
    assert_eq!(toks[0].to_text(), "f(1 + 2, x)");
    assert_eq!(Token::Group(vec![num("1"), Token::Op(Ops::Sub)]).to_text(), "(1 -)");
}

#[test]
fn error_messages() {
    assert_eq!(Error::InvalidNumber("1..".to_string()).message(), "Invalid number: `1..`");
    assert_eq!(Error::InvalidExpression.message(), "Invalid expression");
    assert_eq!(
        Error::UnknownIdentifier("foo".to_string()).message(),
        "Unknown identifier: `foo`"
    );
    assert_eq!(
        Error::InvalidArgumentCount("sqrt".to_string(), 2, 1).message(),
        "Invalid argument count for `sqrt`: expected 1, got 2"
    );
    assert_eq!(
        Error::InvalidArgumentCount("if".to_string(), 0, 13).message(),
        "Invalid argument count for `if`: expected 13, got 0"
    );
}

fn args(text: &str) -> Vec<Vec<Token>> {
    match tokenize(text).unwrap().pop() {
        Some(Token::Func(_, args)) => args,
        other => panic!("not a call: {:?}", other),
    }
}

#[test]
fn calls_are_checked_before_evaluation() {
    let ctx = Context::new();
    let (f, trees) = ctx.prepare_call("sqrt", args("sqrt(16)")).unwrap();
    assert_eq!(f, Builtin::Unary(UnaryFn::Sqrt));
    assert_eq!(trees, vec![num("16")]);
    assert_eq!(
        ctx.prepare_call("sqrt", args("sqrt(1,2)")).err(),
        Some(Error::InvalidArgumentCount("sqrt".to_string(), 2, 1))
    );
    assert_eq!(
        ctx.prepare_call("SQRT", args("f()")).err(),
        Some(Error::InvalidArgumentCount("sqrt".to_string(), 0, 1))
    );
    assert_eq!(
        ctx.prepare_call("sqrt", args("f(1+)")).err(),
        Some(Error::InvalidExpression)
    );
}

#[test]
fn unknown_names() {
    let ctx = Context::new();
    assert_eq!(
        ctx.lookup_var("foo").err(),
        Some(Error::UnknownIdentifier("foo".to_string()))
    );
    assert_eq!(
        ctx.prepare_call("foo", vec![]).err(),
        Some(Error::UnknownIdentifier("foo".to_string()))
    );
}

#[test]
fn if_leaves_branches_unevaluated() {
    let ctx = Context::new();
    let (f, trees) = ctx.prepare_call("if", args("if(1, 2, dbg(99))")).unwrap();
    assert_eq!(f, Builtin::If(If));
    assert_eq!(trees[1], num("2"));
    assert_eq!(trees[2].to_text(), "dbg(99)");
    assert_eq!(If.chosen(true), 1);
    assert_eq!(If.chosen(false), 2);
}

#[test]
fn integer_functions() {
    assert_eq!(Gcf.gcf(12, 18), 6);
    assert_eq!(Gcf.gcf(4, 6), 2);
    assert_eq!(Gcf.gcf(0, 5), 5);
    assert_eq!(Gcf.gcf(0, 0), 0);
    assert_eq!(Factorial.factorial(5), 120);
    assert_eq!(Factorial.factorial(0), 1);
    assert_eq!(Factorial.factorial(1), 1);
    assert_eq!(Factorial.factorial(20), 2432902008176640000);
    assert_eq!(Factorial.factorial(21), 14197454024290336768);
}

#[test]
fn truth_tables() {
    assert!(LogicFn::And.apply(true, true));
    assert!(!LogicFn::And.apply(true, false));
    assert!(LogicFn::Or.apply(false, true));
    assert!(LogicFn::Xor.apply(true, false));
    assert!(!LogicFn::Xor.apply(true, true));
    assert!(LogicFn::Lt.apply(false, true));
    assert!(!LogicFn::Lt.apply(true, true));
    assert!(LogicFn::Le.apply(true, true));
    assert!(LogicFn::Gt.apply(true, false));
    assert!(LogicFn::Ge.apply(false, false));
    assert!(LogicFn::Eq.apply(false, false));
    assert!(LogicFn::Ne.apply(false, true));
}

#[test]
fn registry_names() {
    let ctx = Context::new();
    assert_eq!(
        ctx.prepare_call("is_nan", args("f(1)")).unwrap().0,
        Builtin::Predicate(PredicateFn::IsNan)
    );
    assert_eq!(
        ctx.prepare_call("To_Degrees", args("f(1)")).unwrap().0,
        Builtin::Unary(UnaryFn::ToDegrees)
    );
    assert_eq!(
        ctx.prepare_call("gcf", args("f(12,18)")).unwrap().0,
        Builtin::Gcf(Gcf)
    );
    assert_eq!(ctx.prepare_call("exit", vec![]).unwrap().1, vec![]);
}

#[test]
fn constants_and_variables() {
    let mut ctx = Context::new();
    assert_eq!(ctx.lookup_var("PI").unwrap(), &num("3.141592653589793"));
    assert_eq!(ctx.lookup_var("e").unwrap(), &num("2.718281828459045"));
    assert_eq!(ctx.lookup_var("Tau").unwrap(), &num("6.283185307179586"));
    ctx.set_var("ans", num("5"));
    assert_eq!(ctx.lookup_var("ans").unwrap(), &num("5"));
    assert_eq!(ctx.lookup_var("ANS").unwrap(), &num("5"));
    ctx.set_var("Ans", neg("7"));
    assert_eq!(ctx.lookup_var("ans").unwrap(), &neg("7"));
    assert_eq!(ctx.lookup_var("pi").unwrap(), &num("3.141592653589793"));
}

#[test]
fn lookups_by_key() {
    let mut ctx = Context::new();
    assert_eq!(ctx.var_by_key(&"pi".to_string()), Some(&num("3.141592653589793")));
    assert_eq!(ctx.var_by_key(&"PI".to_string()), None);
    assert_eq!(ctx.func_by_key(&"gcf".to_string()), Some(Builtin::Gcf(Gcf)));
    assert_eq!(ctx.func_by_key(&"Gcf".to_string()), None);
    ctx.bind_key("x".to_string(), num("2"));
    assert_eq!(ctx.var_by_key(&"x".to_string()), Some(&num("2")));
    ctx.bind_key("x".to_string(), num("3"));
    assert_eq!(ctx.lookup_var("X").unwrap(), &num("3"));
}

#[test]
fn first_registration_wins() {
    let mut ctx = Context::new();
    ctx.register("gcf".to_string(), Builtin::Lcm(expr_calc::funcs::Lcm));
    assert_eq!(ctx.func_by_key(&"gcf".to_string()), Some(Builtin::Gcf(Gcf)));
    ctx.register("twice".to_string(), Builtin::Lcm(expr_calc::funcs::Lcm));
    assert_eq!(
        ctx.func_by_key(&"twice".to_string()),
        Some(Builtin::Lcm(expr_calc::funcs::Lcm))
    );
}

#[test]
fn arguments_build_before_the_count_is_checked() {
    let f = Builtin::Unary(UnaryFn::Sqrt);
    assert_eq!(
        f.build_args("sqrt".to_string(), args("f(1+2)")),
        Ok(vec![node(Ops::Add, num("1"), num("2"))])
    );
    assert_eq!(
        f.build_args("sqrt".to_string(), args("f(1, 2)")),
        Err(Error::InvalidArgumentCount("sqrt".to_string(), 2, 1))
    );
    assert_eq!(
        f.build_args("sqrt".to_string(), args("f(1, *)")),
        Err(Error::InvalidExpression)
    );
    let exit = Builtin::Exit(expr_calc::funcs::Exit);
    assert_eq!(exit.arity(), None);
    assert_eq!(exit.build_args("exit".to_string(), args("f(1, 2)")).unwrap().len(), 2);
    assert_eq!(Builtin::If(If).arity(), Some(3));
    assert_eq!(Builtin::If(If).name(), "if");
    assert_eq!(Builtin::Predicate(PredicateFn::IsNan).name(), "IsNan");
}
