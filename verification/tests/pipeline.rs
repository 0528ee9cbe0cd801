use mathexpr::context::Context;
use mathexpr::expr::f;
use mathexpr::expr::Expr;
use mathexpr::number::{Op, Scalar, UnaryKind};
use mathexpr::sample::{stretches, Sweep};
use mathexpr::scope::Func;
use mathexpr::term::Term;
use num_complex::Complex64;

fn bits(x: f64) -> u64 {
    x.to_bits()
}

fn real_unary(kind: UnaryKind, x: f64) -> f64 {
    match kind {
        UnaryKind::Neg => -x,
        UnaryKind::Inv => 1.0 / x,
        UnaryKind::Abs => x.abs(),
        UnaryKind::Ln => x.ln(),
        UnaryKind::Sin => x.sin(),
        UnaryKind::Cos => x.cos(),
        UnaryKind::Tan => x.tan(),
        UnaryKind::Sinh => x.sinh(),
        UnaryKind::Cosh => x.cosh(),
        UnaryKind::Tanh => x.tanh(),
        UnaryKind::Asin => x.asin(),
        UnaryKind::Acos => x.acos(),
        UnaryKind::Atan => x.atan(),
        UnaryKind::Asinh => x.asinh(),
        UnaryKind::Acosh => x.acosh(),
        UnaryKind::Atanh => x.atanh(),
    }
}

fn complex_unary(kind: UnaryKind, z: Complex64) -> Complex64 {
    match kind {
        UnaryKind::Neg => -z,
        UnaryKind::Inv => z.inv(),
        UnaryKind::Abs => Complex64::new(z.norm(), 0.0),
        UnaryKind::Ln => z.ln(),
        UnaryKind::Sin => z.sin(),
        UnaryKind::Cos => z.cos(),
        UnaryKind::Tan => z.tan(),
        UnaryKind::Sinh => z.sinh(),
        UnaryKind::Cosh => z.cosh(),
        UnaryKind::Tanh => z.tanh(),
        UnaryKind::Asin => z.asin(),
        UnaryKind::Acos => z.acos(),
        UnaryKind::Atan => z.atan(),
        UnaryKind::Asinh => z.asinh(),
        UnaryKind::Acosh => z.acosh(),
        UnaryKind::Atanh => z.atanh(),
    }
}

fn arith(op: Op, a: Scalar, b: Scalar) -> Scalar {
    match (a, b) {
        (Scalar::Real(x), Scalar::Real(y)) => {
            let x = f64::from_bits(x);
            let y = f64::from_bits(y);
            let r = match op {
                Op::Add => x + y,
                Op::Sub => x - y,
                Op::Mul => x * y,
                Op::Div => x / y,
                Op::Pow => x.powf(y),
                Op::Unary(kind) => real_unary(kind, x),
                Op::Count(n) => n as f64,
            };
            Scalar::Real(r.to_bits())
        }
        _ => {
            let z = complex(a);
            let w = complex(b);
            let r = match op {
                Op::Add => z + w,
                Op::Sub => z - w,
                Op::Mul => z * w,
                Op::Div => z / w,
                Op::Pow => z.powc(w),
                Op::Unary(kind) => complex_unary(kind, z),
                Op::Count(n) => Complex64::new(n as f64, 0.0),
            };
            Scalar::Complex(r.re.to_bits(), r.im.to_bits())
        }
    }
}

fn complex(s: Scalar) -> Complex64 {
    match s {
        Scalar::Real(x) => Complex64::new(f64::from_bits(x), 0.0),
        Scalar::Complex(re, im) => Complex64::new(f64::from_bits(re), f64::from_bits(im)),
    }
}

fn lit(x: f64) -> Expr {
    Expr::Term(Term::Real(bits(x)))
}

fn var(name: &str) -> Expr {
    Expr::Term(Term::Var(name.to_string()))
}

fn simplify(c: &Context, e: &Expr) -> Expr {
    assert!(c.is_closed());
    assert!(e.calls_declared(&c.fns));
    c.simplify(e, &arith).unwrap().0
}

#[test]
fn promotion_of_real_to_complex_in_sum() {
    let a = Term::Real(bits(2.0));
    let b = Term::Complex(bits(0.0), bits(1.0));
    let r = a.add(&b, &arith);
    assert!(matches!(r, Term::Complex(_, _)));
    assert_eq!(r, Term::Complex(bits(2.0), bits(1.0)));
}

#[test]
fn promotion_of_real_to_complex_in_product_and_power() {
    let a = Term::Real(bits(2.0));
    let b = Term::Complex(bits(0.0), bits(1.0));
    assert_eq!(a.mul(&b, &arith), Term::Complex(bits(0.0), bits(2.0)));
    assert_eq!(b.mul(&a, &arith), Term::Complex(bits(0.0), bits(2.0)));
    let p = b.pow(&a, &arith);
    match p {
        Term::Complex(re, im) => {
            assert!((f64::from_bits(re) + 1.0).abs() < 1e-12);
            assert!(f64::from_bits(im).abs() < 1e-12);
        }
        _ => panic!("a complex base gives a complex power"),
    }
}

#[test]
fn real_arithmetic_stays_real() {
    let a = Term::Real(bits(2.0));
    let b = Term::Real(bits(3.0));
    assert_eq!(a.add(&b, &arith), Term::Real(bits(5.0)));
    assert_eq!(a.mul(&b, &arith), Term::Real(bits(6.0)));
    assert_eq!(a.pow(&b, &arith), Term::Real(bits(8.0)));
    assert!(matches!(a.add(&b, &arith), Term::Real(_)));
}

#[test]
fn real_power_of_negative_base_is_not_a_number() {
    let a = Term::Real(bits(-8.0));
    let b = Term::Real(bits(0.5));
    match a.pow(&b, &arith) {
        Term::Real(r) => assert!(f64::from_bits(r).is_nan()),
        _ => panic!("two reals give a real"),
    }
}

#[test]
fn term_equality_promotes_and_compares_by_value() {
    assert_eq!(Term::Real(bits(2.0)), Term::Complex(bits(2.0), bits(0.0)));
    assert_eq!(Term::Complex(bits(2.0), bits(-0.0)), Term::Real(bits(2.0)));
    assert_ne!(Term::Real(bits(2.0)), Term::Complex(bits(2.0), bits(1.0)));
    assert_eq!(Term::Real(bits(0.0)), Term::Real(bits(-0.0)));
    assert_ne!(Term::Real(bits(f64::NAN)), Term::Real(bits(f64::NAN)));
    assert_eq!(Term::Var("x".to_string()), Term::Var("x".to_string()));
    assert_ne!(Term::Var("x".to_string()), Term::Var("y".to_string()));
    assert_ne!(Term::Var("x".to_string()), Term::Real(bits(0.0)));
}

#[test]
fn zero_one_and_minus_one_are_recognised() {
    assert!(Term::Real(bits(0.0)).is_zero());
    assert!(Term::Real(bits(-0.0)).is_zero());
    assert!(!Term::Real(bits(1e-300)).is_zero());
    assert!(Term::Complex(bits(0.0), bits(-0.0)).is_zero());
    assert!(!Term::Complex(bits(0.0), bits(1.0)).is_zero());
    assert!(Term::Real(bits(1.0)).is_one());
    assert!(Term::Complex(bits(1.0), bits(0.0)).is_one());
    assert!(!Term::Complex(bits(0.0), bits(0.0)).is_one());
    assert!(!Term::Complex(bits(1.0), bits(1.0)).is_one());
    assert!(Term::Real(bits(-1.0)).is_neg_one());
    assert!(Term::Complex(bits(-1.0), bits(0.0)).is_neg_one());
    assert!(!Term::Var("x".to_string()).is_zero());
    assert!(!Term::Var("x".to_string()).is_const());
    assert!(Term::Real(bits(3.0)).is_const());
}

#[test]
fn order_key_of_each_node_kind() {
    assert_eq!(lit(1.0).order_num(), 0);
    assert_eq!(Expr::Term(Term::Complex(bits(1.0), bits(1.0))).order_num(), 0);
    assert_eq!(var("x").order_num(), 1);
    assert_eq!(Expr::Add(vec![var("x"), lit(1.0)]).order_num(), 2);
    assert_eq!(Expr::Fn("f".to_string(), vec![]).order_num(), 2);
}

#[test]
fn flatten_merges_nested_sums_and_products() {
    let e = Expr::Add(vec![
        Expr::Add(vec![var("a"), Expr::Add(vec![var("b"), var("c")])]),
        Expr::Mul(vec![var("d"), Expr::Mul(vec![var("e"), var("f")])]),
        var("g"),
    ]);
    let expected = Expr::Add(vec![
        var("a"),
        var("b"),
        var("c"),
        Expr::Mul(vec![var("d"), var("e"), var("f")]),
        var("g"),
    ]);
    assert_eq!(e.flatten(), expected);
}

#[test]
fn flatten_reaches_into_powers_and_calls() {
    let nested = Expr::Add(vec![Expr::Add(vec![var("a"), var("b")]), var("c")]);
    let flat = Expr::Add(vec![var("a"), var("b"), var("c")]);
    let e = Expr::Pow(
        Box::new(nested.clone()),
        Box::new(Expr::Fn("f".to_string(), vec![nested.clone()])),
    );
    let expected = Expr::Pow(
        Box::new(flat.clone()),
        Box::new(Expr::Fn("f".to_string(), vec![flat])),
    );
    assert_eq!(e.flatten(), expected);
}

#[test]
fn reorder_puts_numbers_first_and_variables_by_name() {
    let e = Expr::Add(vec![
        Expr::Mul(vec![var("p"), var("q")]),
        var("zeta"),
        lit(2.0),
        var("alpha"),
        Expr::Pow(Box::new(var("x")), Box::new(lit(2.0))),
        lit(1.0),
        var("beta"),
    ]);
    let expected = Expr::Add(vec![
        lit(2.0),
        lit(1.0),
        var("alpha"),
        var("beta"),
        var("zeta"),
        Expr::Mul(vec![var("p"), var("q")]),
        Expr::Pow(Box::new(var("x")), Box::new(lit(2.0))),
    ]);
    assert_eq!(e.reorder(), expected);
}

#[test]
fn reorder_sorts_a_prefix_before_the_longer_name() {
    let e = Expr::Mul(vec![var("ab"), var("a"), var("b"), var("aa")]);
    let expected = Expr::Mul(vec![var("a"), var("aa"), var("ab"), var("b")]);
    assert_eq!(e.reorder(), expected);
}

#[test]
fn reduce_const_folds_constants_left_to_right() {
    let e = Expr::Add(vec![lit(0.1), var("x"), lit(0.2), lit(0.3)]);
    let folded = (0.1_f64 + 0.2) + 0.3;
    assert_eq!(e.reduce_const(&arith), Expr::Add(vec![lit(folded), var("x")]));
}

#[test]
fn reduce_const_collapses_a_constant_node_to_a_term() {
    let e = Expr::Mul(vec![lit(2.0), lit(3.0), lit(4.0)]);
    assert_eq!(e.reduce_const(&arith), lit(24.0));
    let p = Expr::Pow(Box::new(lit(2.0)), Box::new(lit(10.0)));
    assert_eq!(p.reduce_const(&arith), lit(1024.0));
}

#[test]
fn reduce_const_leaves_a_node_without_constants() {
    let e = Expr::Add(vec![var("y"), var("x")]);
    assert_eq!(e.reduce_const(&arith), Expr::Add(vec![var("x"), var("y")]));
}

#[test]
fn reduce_const_folds_from_the_leaves_up() {
    let e = Expr::Add(vec![
        var("x"),
        Expr::Mul(vec![lit(2.0), lit(3.0)]),
        Expr::Pow(Box::new(lit(2.0)), Box::new(var("n"))),
        lit(1.0),
    ]);
    let expected = Expr::Add(vec![
        lit(7.0),
        var("x"),
        Expr::Pow(Box::new(lit(2.0)), Box::new(var("n"))),
    ]);
    assert_eq!(e.reduce_const(&arith), expected);
}

#[test]
fn reduce_const_applies_a_function_to_a_constant() {
    let e = Expr::Unary(UnaryKind::Cos, Box::new(lit(0.0)));
    assert_eq!(e.reduce_const(&arith), lit(1.0));
    let kept = Expr::Unary(UnaryKind::Cos, Box::new(var("x")));
    assert_eq!(kept.reduce_const(&arith), Expr::Unary(UnaryKind::Cos, Box::new(var("x"))));
    let z = Expr::Unary(
        UnaryKind::Abs,
        Box::new(Expr::Term(Term::Complex(bits(3.0), bits(4.0)))),
    );
    assert_eq!(z.reduce_const(&arith), Expr::Term(Term::Complex(bits(5.0), bits(0.0))));
}

#[test]
fn special_cases_drop_identity_elements() {
    let sum = Expr::Add(vec![lit(0.0), var("x"), var("y")]);
    assert_eq!(sum.special_cases(), Expr::Add(vec![var("x"), var("y")]));
    let single = Expr::Add(vec![lit(0.0), var("x")]);
    assert_eq!(single.special_cases(), var("x"));
    let product = Expr::Mul(vec![lit(1.0), var("x")]);
    assert_eq!(product.special_cases(), var("x"));
    let kept = Expr::Mul(vec![lit(0.0), var("x")]);
    assert_eq!(kept.special_cases(), Expr::Mul(vec![lit(0.0), var("x")]));
    let behind = Expr::Add(vec![var("x"), lit(0.0)]);
    assert_eq!(behind.special_cases(), Expr::Add(vec![var("x"), lit(0.0)]));
}

#[test]
fn special_cases_of_powers() {
    let x = || Box::new(var("x"));
    assert_eq!(Expr::Pow(Box::new(lit(0.0)), x()).special_cases(), lit(0.0));
    assert_eq!(Expr::Pow(x(), Box::new(lit(0.0))).special_cases(), lit(1.0));
    assert_eq!(Expr::Pow(Box::new(lit(1.0)), x()).special_cases(), lit(1.0));
    assert_eq!(Expr::Pow(x(), Box::new(lit(1.0))).special_cases(), var("x"));
    assert_eq!(
        Expr::Pow(x(), Box::new(lit(2.0))).special_cases(),
        Expr::Pow(x(), Box::new(lit(2.0)))
    );
    assert_eq!(
        Expr::Pow(Box::new(lit(0.0)), Box::new(lit(0.0))).special_cases(),
        lit(0.0)
    );
}

#[test]
fn identity_elimination_on_either_side() {
    let c = Context::new();
    let x = simplify(&c, &var("x"));
    assert_eq!(x, var("x"));
    assert_eq!(simplify(&c, &Expr::Add(vec![var("x"), lit(0.0)])), x);
    assert_eq!(simplify(&c, &Expr::Add(vec![lit(0.0), var("x")])), x);
    assert_eq!(simplify(&c, &Expr::Mul(vec![var("x"), lit(1.0)])), x);
    assert_eq!(simplify(&c, &Expr::Mul(vec![lit(1.0), var("x")])), x);
    assert_eq!(simplify(&c, &Expr::Pow(Box::new(var("x")), Box::new(lit(1.0)))), x);
    assert_eq!(simplify(&c, &Expr::Pow(Box::new(var("x")), Box::new(lit(0.0)))), lit(1.0));
    assert_eq!(simplify(&c, &Expr::Pow(Box::new(lit(1.0)), Box::new(var("x")))), lit(1.0));
    assert_eq!(simplify(&c, &Expr::Pow(Box::new(lit(0.0)), Box::new(var("x")))), lit(0.0));
}

#[test]
fn simplify_is_idempotent_on_a_mixed_expression() {
    let mut c = Context::new();
    c.def_var("k", lit(4.0));
    c.def_func(
        "sq",
        false,
        vec!["a".to_string()],
        Expr::Mul(vec![var("a"), var("a")]),
    );
    let e = Expr::Add(vec![
        Expr::Fn("sq".to_string(), vec![var("x")]),
        Expr::Mul(vec![var("k"), var("y"), lit(0.5)]),
        Expr::Add(vec![lit(1.0), var("pi")]),
    ]);
    let once = simplify(&c, &e);
    let twice = simplify(&c, &once);
    assert_eq!(twice, once);
    let expected = Expr::Add(vec![
        lit(1.0 + std::f64::consts::PI),
        Expr::Mul(vec![var("x"), var("x")]),
        Expr::Mul(vec![lit(2.0), var("y")]),
    ]);
    assert_eq!(once, expected);
}

#[test]
fn constant_folding_agrees_with_evaluation() {
    let c = Context::new();
    let e = Expr::Add(vec![
        Expr::Mul(vec![lit(2.0), lit(3.5)]),
        Expr::Pow(Box::new(lit(2.0)), Box::new(lit(0.5))),
        Expr::Unary(UnaryKind::Sin, Box::new(lit(1.0))),
        Expr::Term(Term::Complex(bits(0.0), bits(1.0))),
    ]);
    let simplified = simplify(&c, &e);
    let value = c.evaluate(&e, &arith, 8).unwrap();
    match &simplified {
        Expr::Term(t) => {
            assert!(t.is_const());
            assert_eq!(*t, value);
        }
        _ => panic!("an expression of numbers alone becomes one number"),
    }
    let expected = Complex64::new((2.0 * 3.5 + 2.0_f64.powf(0.5)) + 1.0_f64.sin(), 0.0)
        + Complex64::new(0.0, 1.0);
    assert_eq!(value, Term::Complex(bits(expected.re), bits(expected.im)));
}

#[test]
fn simplify_folds_context_constants() {
    let mut c = Context::new();
    c.def_var("two", lit(2.0));
    c.def_var("tau", Expr::Mul(vec![var("two"), var("pi")]));
    let e = Expr::Mul(vec![var("tau"), var("r")]);
    let expected = Expr::Mul(vec![lit(2.0 * std::f64::consts::PI), var("r")]);
    assert_eq!(simplify(&c, &e), expected);
}

#[test]
fn simplify_of_a_value_cycle_is_nothing() {
    let mut c = Context::new();
    c.def_var("a", Expr::Add(vec![var("a"), lit(1.0)]));
    assert!(c.is_closed());
    assert!(c.simplify_for_var("a", &arith).is_none());
}

#[test]
fn recursive_call_stays_and_other_call_is_inlined() {
    let mut c = Context::new();
    c.def_func(
        "fact",
        true,
        vec!["n".to_string()],
        Expr::Mul(vec![
            var("n"),
            Expr::Fn(
                "fact".to_string(),
                vec![Expr::Add(vec![var("n"), lit(-1.0)])],
            ),
        ]),
    );
    c.def_func(
        "double",
        false,
        vec!["a".to_string()],
        Expr::Mul(vec![lit(2.0), var("a")]),
    );
    c.def_var(
        "out",
        Expr::Add(vec![
            Expr::Fn("fact".to_string(), vec![var("x")]),
            Expr::Fn("double".to_string(), vec![var("y")]),
        ]),
    );
    let (e, funcs) = c.simplify_for_var("out", &arith).unwrap();
    let expected = Expr::Add(vec![
        Expr::Fn("fact".to_string(), vec![var("x")]),
        Expr::Mul(vec![lit(2.0), var("y")]),
    ]);
    assert_eq!(e, expected);
    assert_eq!(funcs.len(), 1);
    assert_eq!(funcs[0].name, "fact");
    assert!(funcs[0].recursive);
    assert!(!e.has_fn(&"double".to_string(), &c));
    assert!(e.has_fn(&"fact".to_string(), &c));
}

#[test]
fn inlining_unrolls_through_other_functions() {
    let mut c = Context::new();
    c.def_func(
        "inner",
        false,
        vec!["a".to_string()],
        Expr::Add(vec![var("a"), lit(1.0)]),
    );
    c.def_func(
        "outer",
        false,
        vec!["b".to_string()],
        Expr::Mul(vec![
            Expr::Fn("inner".to_string(), vec![var("b")]),
            var("b"),
        ]),
    );
    let e = Expr::Fn("outer".to_string(), vec![var("t")]);
    let expected = Expr::Mul(vec![var("t"), Expr::Add(vec![lit(1.0), var("t")])]);
    assert_eq!(simplify(&c, &e), expected);
}

#[test]
fn substitution_is_simultaneous() {
    let e = Expr::Add(vec![var("a"), var("b")]);
    let params = vec!["a".to_string(), "b".to_string()];
    let args = vec![var("b"), var("a")];
    assert_eq!(e.substitute(&params, &args), Expr::Add(vec![var("b"), var("a")]));
}

#[test]
fn expand_vars_follows_chains_to_the_depth_given() {
    let mut c = Context::new();
    c.def_var("a", var("b"));
    c.def_var("b", var("c"));
    c.def_var("c", lit(7.0));
    assert_eq!(var("a").expand_vars(&c.vars, 3), Some(lit(7.0)));
    assert_eq!(var("a").expand_vars(&c.vars, 2), None);
    assert_eq!(var("free").expand_vars(&c.vars, 0), Some(var("free")));
    assert_eq!(
        Term::Var("c".to_string()).expand_vars(&c.vars, 1),
        Some(lit(7.0))
    );
}

#[test]
fn check_rejects_a_variable_defined_through_itself() {
    let mut c = Context::new();
    c.def_var("a", Expr::Add(vec![var("a"), lit(1.0)]));
    let errs = c.check_for_illigal_recursion().unwrap_err();
    assert_eq!(errs.len(), 1);
    assert_eq!(
        errs[0],
        "ERROR: variable a is recursive! variables cannot be recursive."
    );
}

#[test]
fn check_rejects_a_function_that_calls_itself_unlabeled() {
    let body = || {
        Expr::Fn(
            "f".to_string(),
            vec![Expr::Add(vec![var("n"), lit(-1.0)])],
        )
    };
    let mut c = Context::new();
    c.def_func("f", false, vec!["n".to_string()], body());
    let errs = c.check_for_illigal_recursion().unwrap_err();
    assert_eq!(errs.len(), 1);
    assert_eq!(
        errs[0],
        "ERROR: function f is recursive! functions that aren't labeled as so cannot be recursive.\n\t(Try adding `(recursive)` after the `fn` keyword)"
    );
    let mut labeled = Context::new();
    labeled.def_func("f", true, vec!["n".to_string()], body());
    assert_eq!(labeled.check_for_illigal_recursion(), Ok(()));
}

#[test]
fn check_reports_every_violation() {
    let mut c = Context::new();
    c.def_var("a", var("b"));
    c.def_var("b", var("a"));
    c.def_var("fine", Expr::Add(vec![var("pi"), lit(1.0)]));
    c.def_func("f", false, vec![], Expr::Fn("g".to_string(), vec![]));
    c.def_func("g", false, vec![], Expr::Fn("f".to_string(), vec![]));
    c.def_func("h", false, vec![], Expr::Fn("sin".to_string(), vec![var("h")]));
    let errs = c.check_for_illigal_recursion().unwrap_err();
    assert_eq!(
        errs,
        vec![
            "ERROR: variable a is recursive! variables cannot be recursive.".to_string(),
            "ERROR: variable b is recursive! variables cannot be recursive.".to_string(),
            "ERROR: function f is recursive! functions that aren't labeled as so cannot be recursive.\n\t(Try adding `(recursive)` after the `fn` keyword)".to_string(),
            "ERROR: function g is recursive! functions that aren't labeled as so cannot be recursive.\n\t(Try adding `(recursive)` after the `fn` keyword)".to_string(),
        ]
    );
}

#[test]
fn check_accepts_a_call_of_another_function() {
    let mut c = Context::new();
    c.def_func("g", false, vec!["a".to_string()], var("a"));
    c.def_func(
        "f",
        false,
        vec!["a".to_string()],
        Expr::Fn("g".to_string(), vec![var("a")]),
    );
    assert_eq!(c.check_for_illigal_recursion(), Ok(()));
    assert_eq!(Context::new().check_for_illigal_recursion(), Ok(()));
}

#[test]
fn a_cycle_among_other_variables_does_not_hang_the_search() {
    let mut c = Context::new();
    c.def_var("b", var("c"));
    c.def_var("c", var("b"));
    c.def_var("a", var("b"));
    assert!(!var("b").has_var(&"a".to_string(), &c));
    let errs = c.check_for_illigal_recursion().unwrap_err();
    assert_eq!(errs.len(), 2);
}

#[test]
fn def_var_overwrites_an_earlier_declaration() {
    let mut c = Context::new();
    let n = c.vars.len();
    c.def_var("k", lit(1.0));
    c.def_var("k", lit(2.0));
    assert_eq!(c.vars.len(), n + 1);
    assert_eq!(c.evaluate(&var("k"), &arith, 4), Some(Term::Real(bits(2.0))));
    c.def_func("f", false, vec![], lit(1.0));
    c.def_func("f", true, vec![], lit(2.0));
    assert_eq!(c.fns.len(), 1);
    assert!(c.fns[0].recursive);
}

#[test]
fn a_new_context_holds_the_three_constants() {
    let c = Context::new();
    assert_eq!(
        c.evaluate(&var("e"), &arith, 1),
        Some(Term::Real(bits(std::f64::consts::E)))
    );
    assert_eq!(
        c.evaluate(&var("pi"), &arith, 1),
        Some(Term::Real(bits(std::f64::consts::PI)))
    );
    assert_eq!(
        c.evaluate(&var("i"), &arith, 1),
        Some(Term::Complex(bits(0.0), bits(1.0)))
    );
    let square = Expr::Mul(vec![var("i"), var("i")]);
    assert_eq!(c.evaluate(&square, &arith, 1), Some(Term::Real(bits(-1.0))));
}

#[test]
fn unresolved_reference_evaluates_to_nothing() {
    let mut c = Context::new();
    c.def_var("out", var("y"));
    assert_eq!(c.evaluate(&var("out"), &arith, 16), None);
    let unknown = Expr::Fn("nowhere".to_string(), vec![lit(1.0)]);
    assert_eq!(c.evaluate(&unknown, &arith, 16), None);
    let partly = Expr::Add(vec![lit(1.0), var("y")]);
    assert_eq!(c.evaluate(&partly, &arith, 16), None);
}

#[test]
fn evaluation_beyond_the_depth_is_nothing() {
    let mut c = Context::new();
    c.def_func(
        "loop",
        true,
        vec!["n".to_string()],
        Expr::Fn("loop".to_string(), vec![var("n")]),
    );
    let e = Expr::Fn("loop".to_string(), vec![lit(1.0)]);
    assert_eq!(c.evaluate(&e, &arith, 50), None);
}

#[test]
fn a_call_binds_its_parameters() {
    let mut c = Context::new();
    c.def_func(
        "hyp",
        false,
        vec!["a".to_string(), "b".to_string()],
        Expr::Pow(
            Box::new(Expr::Add(vec![
                Expr::Mul(vec![var("a"), var("a")]),
                Expr::Mul(vec![var("b"), var("b")]),
            ])),
            Box::new(lit(0.5)),
        ),
    );
    let e = Expr::Fn("hyp".to_string(), vec![lit(3.0), lit(4.0)]);
    assert_eq!(c.evaluate(&e, &arith, 4), Some(Term::Real(bits(5.0))));
}

#[test]
fn a_variable_of_the_context_is_not_overridden_by_a_parameter() {
    let mut c = Context::new();
    c.def_var("a", lit(10.0));
    c.def_func("id", false, vec!["a".to_string()], var("a"));
    let e = Expr::Fn("id".to_string(), vec![lit(3.0)]);
    assert_eq!(c.evaluate(&e, &arith, 4), Some(Term::Real(bits(10.0))));
}

#[test]
fn a_parameter_of_an_outer_call_is_not_overridden_by_an_inner_one() {
    let mut c = Context::new();
    c.def_func("inner", false, vec!["p".to_string()], var("p"));
    c.def_func(
        "outer",
        false,
        vec!["p".to_string()],
        Expr::Fn("inner".to_string(), vec![lit(2.0)]),
    );
    let e = Expr::Fn("outer".to_string(), vec![lit(1.0)]);
    assert_eq!(c.evaluate(&e, &arith, 4), Some(Term::Real(bits(1.0))));
}

#[test]
fn sample_1d_is_exact_and_ordered() {
    let mut c = Context::new();
    c.def_var("y", var("x"));
    let range = Sweep { start: bits(-1.0), end: bits(1.0), steps: 2 };
    let out = c.sample_1d("y", "x", &range, &arith, 8);
    let expected = vec![
        (bits(-1.0), Some(Term::Real(bits(-1.0)))),
        (bits(0.0), Some(Term::Real(bits(0.0)))),
        (bits(1.0), Some(Term::Real(bits(1.0)))),
    ];
    assert_eq!(out, expected);
    assert_eq!(out[1].0, 0.0_f64.to_bits());
}

#[test]
fn sample_1d_in_stretches_equals_the_whole_run() {
    let mut c = Context::new();
    c.def_var(
        "out",
        Expr::Add(vec![Expr::Mul(vec![var("x"), var("x")]), lit(1.0)]),
    );
    let range = Sweep { start: bits(-3.0), end: bits(3.0), steps: 6 };
    let whole = c.sample_1d("out", "x", &range, &arith, 8);
    assert_eq!(whole.len(), 7);
    let mut joined = Vec::new();
    joined.extend(c.clone().sample_range("out", "x", &range, 0, 3, &arith, 8));
    joined.extend(c.clone().sample_range("out", "x", &range, 3, 2, &arith, 8));
    joined.extend(c.clone().sample_range("out", "x", &range, 5, 2, &arith, 8));
    assert_eq!(joined, whole);
    let xs: Vec<f64> = whole.iter().map(|p| f64::from_bits(p.0)).collect();
    assert_eq!(xs, vec![-3.0, -2.0, -1.0, 0.0, 1.0, 2.0, 3.0]);
    assert_eq!(whole[0].1, Some(Term::Real(bits(10.0))));
    assert_eq!(whole[3].1, Some(Term::Real(bits(1.0))));
}

#[test]
fn sample_1d_reports_points_without_a_value() {
    let mut c = Context::new();
    c.def_var("out", Expr::Add(vec![var("x"), var("missing")]));
    let range = Sweep { start: bits(0.0), end: bits(1.0), steps: 4 };
    let out = c.sample_1d("out", "x", &range, &arith, 8);
    assert_eq!(out.len(), 5);
    assert!(out.iter().all(|p| p.1.is_none()));
    assert_eq!(f64::from_bits(out[1].0), 0.25);
}

#[test]
fn sample_2d_runs_row_by_row() {
    let mut c = Context::new();
    c.def_var("out", Expr::Add(vec![Expr::Mul(vec![lit(10.0), var("x")]), var("y")]));
    let rx = Sweep { start: bits(0.0), end: bits(2.0), steps: 2 };
    let ry = Sweep { start: bits(0.0), end: bits(1.0), steps: 1 };
    let out = c.sample_2d("out", "x", &rx, "y", &ry, &arith, 8);
    let triples: Vec<(f64, f64, f64)> = out
        .iter()
        .map(|p| {
            let v = match p.2.as_ref().unwrap() {
                Term::Real(b) => f64::from_bits(*b),
                _ => panic!("real"),
            };
            (f64::from_bits(p.0), f64::from_bits(p.1), v)
        })
        .collect();
    assert_eq!(
        triples,
        vec![
            (0.0, 0.0, 0.0),
            (0.0, 1.0, 1.0),
            (1.0, 0.0, 10.0),
            (1.0, 1.0, 11.0),
            (2.0, 0.0, 20.0),
            (2.0, 1.0, 21.0),
        ]
    );
}

#[test]
fn needed_functions_follow_bodies() {
    let mut c = Context::new();
    c.def_func("a", true, vec![], Expr::Fn("b".to_string(), vec![]));
    c.def_func("b", true, vec![], Expr::Fn("a".to_string(), vec![]));
    c.def_func("c", true, vec![], lit(1.0));
    let e = Expr::Fn("a".to_string(), vec![]);
    let funcs: Vec<Func> = c.needed_functions(&e);
    let names: Vec<&str> = funcs.iter().map(|f| f.name.as_str()).collect();
    assert_eq!(names, vec!["a", "b"]);
}

#[test]
fn constructors_desugar_subtraction_and_division() {
    let d = f::sub(f::var("a"), f::var("b"));
    assert_eq!(
        *d,
        Expr::Add(vec![var("a"), Expr::Mul(vec![lit(-1.0), var("b")])])
    );
    let q = f::div(f::var("a"), f::var("b"));
    assert_eq!(
        *q,
        Expr::Mul(vec![
            var("a"),
            Expr::Pow(Box::new(var("b")), Box::new(lit(-1.0)))
        ])
    );
    assert!(f::neg(f::var("a")).is_neg());
    assert!(f::inv(f::var("a")).is_inv());
    assert!(!f::var("a").is_neg());
    assert!(f::add(f::num(bits(1.0)), f::var("a")).is_commutative());
    assert!(f::num(bits(1.0)).is_term());
    assert_eq!(*f::term(Term::Real(bits(1.0))), lit(1.0));
}

#[test]
fn inlining_expands_the_variables_of_a_body() {
    let mut c = Context::new();
    c.def_func("g", false, vec!["a".to_string()], Expr::Add(vec![var("a"), lit(1.0)]));
    c.def_var("k", Expr::Fn("g".to_string(), vec![lit(2.0)]));
    c.def_func("f", false, vec!["n".to_string()], Expr::Mul(vec![var("n"), var("k")]));
    let e = Expr::Fn("f".to_string(), vec![var("x")]);
    assert_eq!(simplify(&c, &e), Expr::Mul(vec![lit(3.0), var("x")]));
}

#[test]
fn a_parameter_shadows_a_variable_when_inlined() {
    let mut c = Context::new();
    c.def_var("a", lit(10.0));
    c.def_func("id", false, vec!["a".to_string()], var("a"));
    let e = Expr::Fn("id".to_string(), vec![var("t")]);
    assert_eq!(simplify(&c, &e), var("t"));
}

#[test]
fn a_call_with_too_few_arguments_leaves_the_parameter() {
    let c = {
        let mut c = Context::new();
        c.def_func(
            "pair",
            false,
            vec!["a".to_string(), "b".to_string()],
            Expr::Add(vec![var("a"), var("b")]),
        );
        c
    };
    let e = Expr::Fn("pair".to_string(), vec![var("s")]);
    assert_eq!(simplify(&c, &e), Expr::Add(vec![var("b"), var("s")]));
    assert_eq!(c.evaluate(&Expr::Fn("pair".to_string(), vec![lit(1.0)]), &arith, 4), None);
}

#[test]
fn expand_funcs_alone_keeps_recursive_calls_and_inlines_their_arguments() {
    let mut c = Context::new();
    c.def_func("r", true, vec!["n".to_string()], var("n"));
    c.def_func("two", false, vec![], lit(2.0));
    let e = Expr::Fn(
        "r".to_string(),
        vec![Expr::Fn("two".to_string(), vec![])],
    );
    assert_eq!(
        e.expand_funcs(&c.vars, &c.fns, 2),
        Some(Expr::Fn("r".to_string(), vec![lit(2.0)]))
    );
    let inner = Expr::Fn("two".to_string(), vec![]);
    assert_eq!(inner.expand_funcs(&c.vars, &c.fns, 0), None);
    assert_eq!(inner.expand_funcs(&c.vars, &c.fns, 1), Some(lit(2.0)));
}

#[test]
fn variables_of_one_name_keep_their_order() {
    let e = Expr::Add(vec![var("b"), var("a"), var("b"), var("a")]);
    assert_eq!(
        e.reorder(),
        Expr::Add(vec![var("a"), var("a"), var("b"), var("b")])
    );
    let untouched = Expr::Pow(Box::new(var("b")), Box::new(var("a")));
    assert_eq!(
        untouched.reorder(),
        Expr::Pow(Box::new(var("b")), Box::new(var("a")))
    );
}

#[test]
fn expand_pow_writes_small_powers_out() {
    let x = || Box::new(var("x"));
    assert_eq!(
        Expr::Pow(x(), Box::new(lit(2.0))).expand_pow(),
        Expr::Mul(vec![var("x"), var("x")])
    );
    assert_eq!(
        Expr::Pow(x(), Box::new(Expr::Term(Term::Complex(bits(5.0), bits(0.0))))).expand_pow(),
        Expr::Mul(vec![var("x"), var("x"), var("x"), var("x"), var("x")])
    );
    assert_eq!(
        Expr::Pow(x(), Box::new(lit(6.0))).expand_pow(),
        Expr::Pow(x(), Box::new(lit(6.0)))
    );
    assert_eq!(
        Expr::Pow(x(), Box::new(lit(2.5))).expand_pow(),
        Expr::Pow(x(), Box::new(lit(2.5)))
    );
    assert_eq!(
        Expr::Pow(x(), Box::new(var("n"))).expand_pow(),
        Expr::Pow(x(), Box::new(var("n")))
    );
    let sum = Expr::Add(vec![Expr::Pow(x(), Box::new(lit(3.0))), lit(1.0)]);
    assert_eq!(
        sum.expand_pow(),
        Expr::Add(vec![Expr::Mul(vec![var("x"), var("x"), var("x")]), lit(1.0)])
    );
}

#[test]
fn divisions_and_binary_operations_are_recognised() {
    assert!(f::div(f::var("a"), f::var("b")).is_div());
    assert!(!f::mul(f::var("a"), f::var("b")).is_div());
    assert!(!f::mul(f::inv(f::var("a")), f::inv(f::var("b"))).is_div());
    assert!(f::add(f::var("a"), f::var("b")).is_binary());
    assert!(f::pow(f::var("a"), f::var("b")).is_binary());
    assert!(!Expr::Add(vec![var("a"), var("b"), var("c")]).is_binary());
    assert!(!f::var("a").is_binary());
}

#[test]
fn stretches_share_a_run_out_without_gap_or_overlap() {
    assert_eq!(stretches(7, 3), vec![(0, 3), (3, 3), (6, 1)]);
    assert_eq!(stretches(6, 3), vec![(0, 2), (2, 2), (4, 2)]);
    assert_eq!(stretches(2, 4), vec![(0, 1), (1, 1), (2, 0), (2, 0)]);
    assert_eq!(stretches(0, 2), vec![(0, 0), (0, 0)]);
    assert_eq!(stretches(501, 16).len(), 16);
    let parts = stretches(501, 16);
    let mut next = 0;
    for (first, count) in parts {
        assert_eq!(first, next);
        next = first + count;
    }
    assert_eq!(next, 501);
}

#[test]
fn sample_1d_over_stretches_equals_the_whole_run() {
    let mut c = Context::new();
    c.def_var("out", Expr::Unary(UnaryKind::Sin, Box::new(var("x"))));
    let range = Sweep { start: bits(-3.1), end: bits(3.1), steps: 50 };
    let whole = c.sample_1d("out", "x", &range, &arith, 8);
    let mut joined = Vec::new();
    for (first, count) in stretches(51, 4) {
        joined.extend(c.sample_range("out", "x", &range, first, count, &arith, 8));
    }
    assert_eq!(joined, whole);
}

#[test]
fn sample_2d_evaluates_the_variable_where_it_cannot_be_simplified() {
    let mut c = Context::new();
    c.def_var("k", Expr::Fn("f".to_string(), vec![lit(1.0)]));
    c.def_func("f", false, vec!["n".to_string()], Expr::Add(vec![var("n"), var("k")]));
    c.def_var("out", Expr::Fn("f".to_string(), vec![var("x")]));
    assert!(c.is_closed());
    let rx = Sweep { start: bits(0.0), end: bits(1.0), steps: 1 };
    let ry = Sweep { start: bits(0.0), end: bits(1.0), steps: 1 };
    let out = c.sample_2d("out", "x", &rx, "y", &ry, &arith, 8);
    assert_eq!(out.len(), 4);
    assert!(out.iter().all(|p| p.2.is_none()));
}

#[test]
fn a_function_of_one_argument_is_evaluated() {
    let c = Context::new();
    let e = Expr::Unary(
        UnaryKind::Ln,
        Box::new(Expr::Term(Term::Var("e".to_string()))),
    );
    assert_eq!(c.evaluate(&e, &arith, 2), Some(Term::Real(bits(1.0))));
    let n = Expr::Unary(UnaryKind::Neg, Box::new(lit(2.0)));
    assert_eq!(c.evaluate(&n, &arith, 2), Some(Term::Real(bits(-2.0))));
    let s = Expr::Unary(
        UnaryKind::Inv,
        Box::new(Expr::Term(Term::Complex(bits(0.0), bits(1.0)))),
    );
    assert_eq!(
        c.evaluate(&s, &arith, 2),
        Some(Term::Complex(bits(0.0), bits(-1.0)))
    );
}

#[test]
fn an_empty_sum_has_no_value_and_stays() {
    let c = Context::new();
    let e = Expr::Add(vec![]);
    assert_eq!(c.evaluate(&e, &arith, 2), None);
    assert_eq!(simplify(&c, &e), Expr::Add(vec![]));
}

#[test]
fn a_function_applied_to_its_own_result_is_inlined() {
    let mut c = Context::new();
    c.def_func(
        "inc",
        false,
        vec!["a".to_string()],
        Expr::Add(vec![var("a"), lit(1.0)]),
    );
    let call = |e: Expr| Expr::Fn("inc".to_string(), vec![e]);
    let e = call(call(call(var("x"))));
    assert_eq!(
        e.expand_funcs(&c.vars, &c.fns, 1),
        Some(Expr::Add(vec![
            Expr::Add(vec![Expr::Add(vec![var("x"), lit(1.0)]), lit(1.0)]),
            lit(1.0)
        ]))
    );
    assert_eq!(simplify(&c, &e), Expr::Add(vec![lit(3.0), var("x")]));
}

#[test]
fn a_context_is_closed_where_every_call_is_declared() {
    let mut c = Context::new();
    assert!(c.is_closed());
    c.def_func("f", false, vec!["a".to_string()], var("a"));
    c.def_var("k", Expr::Fn("f".to_string(), vec![lit(1.0)]));
    assert!(c.is_closed());
    assert!(Expr::Fn("f".to_string(), vec![var("x")]).calls_declared(&c.fns));
    assert!(!Expr::Fn("g".to_string(), vec![var("x")]).calls_declared(&c.fns));
    assert!(!Expr::Add(vec![
        var("x"),
        Expr::Pow(
            Box::new(lit(2.0)),
            Box::new(Expr::Fn("f".to_string(), vec![Expr::Fn("g".to_string(), vec![])]))
        )
    ])
    .calls_declared(&c.fns));
    c.def_func("h", true, vec![], Expr::Fn("nowhere".to_string(), vec![]));
    assert!(!c.is_closed());
    let mut d = Context::new();
    d.def_var("v", Expr::Unary(UnaryKind::Sin, Box::new(Expr::Fn("nowhere".to_string(), vec![]))));
    assert!(!d.is_closed());
}

#[test]
fn simplify_succeeds_in_a_checked_and_closed_context() {
    let mut c = Context::new();
    c.def_var("a", Expr::Add(vec![var("b"), lit(1.0)]));
    c.def_var("b", Expr::Mul(vec![var("pi"), var("x")]));
    c.def_func("sq", false, vec!["t".to_string()], Expr::Mul(vec![var("t"), var("t")]));
    c.def_func(
        "quad",
        false,
        vec!["t".to_string()],
        Expr::Fn("sq".to_string(), vec![Expr::Fn("sq".to_string(), vec![var("t")])]),
    );
    c.def_var("out", Expr::Fn("quad".to_string(), vec![var("a")]));
    assert_eq!(c.check_for_illigal_recursion(), Ok(()));
    assert!(c.is_closed());
    let (e, funcs) = c.simplify_for_var("out", &arith).unwrap();
    assert!(funcs.is_empty());
    assert!(!e.has_var(&"a".to_string(), &c));
    assert!(!e.has_var(&"b".to_string(), &c));
    assert!(!e.has_fn(&"sq".to_string(), &c));
    let again = c.simplify(&e, &arith).unwrap().0;
    assert_eq!(again, e);
}

#[test]
fn a_cycle_through_a_variable_and_a_function_yields_nothing() {
    let mut c = Context::new();
    c.def_var("k", Expr::Fn("f".to_string(), vec![lit(1.0)]));
    c.def_func("f", false, vec!["n".to_string()], Expr::Add(vec![var("n"), var("k")]));
    assert!(c.simplify_for_var("k", &arith).is_none());
    assert_eq!(c.evaluate(&var("k"), &arith, 40), None);
}

#[test]
fn a_second_pass_takes_up_what_elimination_uncovered() {
    let c = Context::new();
    let e = Expr::Add(vec![
        Expr::Mul(vec![lit(1.0), Expr::Add(vec![var("a"), var("b")])]),
        var("c"),
    ]);
    let once = simplify(&c, &e);
    assert_eq!(
        once,
        Expr::Add(vec![var("c"), Expr::Add(vec![var("a"), var("b")])])
    );
    let twice = simplify(&c, &once);
    assert_eq!(twice, Expr::Add(vec![var("a"), var("b"), var("c")]));
    assert_eq!(simplify(&c, &twice), twice);
}

#[test]
fn flattening_and_folding_twice_change_nothing_more() {
    let e = Expr::Mul(vec![
        Expr::Mul(vec![lit(2.0), var("y")]),
        Expr::Add(vec![Expr::Add(vec![lit(1.0), lit(2.0)]), var("x")]),
        lit(4.0),
    ]);
    let flat = e.flatten();
    assert_eq!(flat.flatten(), flat);
    let reduced = flat.reduce_const(&arith);
    assert_eq!(reduced.reduce_const(&arith), reduced);
    assert_eq!(
        reduced,
        Expr::Mul(vec![
            lit(8.0),
            var("y"),
            Expr::Add(vec![lit(3.0), var("x")])
        ])
    );
}

#[test]
fn constant_folding_regroups_a_nested_sum() {
    let c = Context::new();
    let nested = Expr::Add(vec![
        lit(0.1),
        Expr::Add(vec![lit(0.2), lit(0.3)]),
    ]);
    let direct = c.evaluate(&nested, &arith, 4).unwrap();
    let flat = c.evaluate(&nested.flatten(), &arith, 4).unwrap();
    assert_eq!(direct, Term::Real(bits(0.1 + (0.2 + 0.3))));
    assert_eq!(flat, Term::Real(bits((0.1 + 0.2) + 0.3)));
    assert_eq!(simplify(&c, &nested), Expr::Term(flat));
    assert_ne!(bits(0.1 + (0.2 + 0.3)), bits((0.1 + 0.2) + 0.3));
}

#[test]
fn sample_2d_of_a_context_with_an_undeclared_call_has_no_values() {
    let mut c = Context::new();
    c.def_var("out", Expr::Add(vec![var("x"), Expr::Fn("nowhere".to_string(), vec![var("y")])]));
    assert!(!c.is_closed());
    let rx = Sweep { start: bits(0.0), end: bits(1.0), steps: 1 };
    let ry = Sweep { start: bits(0.0), end: bits(1.0), steps: 2 };
    let out = c.sample_2d("out", "x", &rx, "y", &ry, &arith, 8);
    assert_eq!(out.len(), 6);
    assert!(out.iter().all(|p| p.2.is_none()));
    assert_eq!(f64::from_bits(out[4].1), 0.5);
    let none = c.sample_2d("missing", "x", &rx, "y", &ry, &arith, 8);
    assert!(none.iter().all(|p| p.2.is_none()));
}
