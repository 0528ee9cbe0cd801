use mathexpr::context::Context;
use mathexpr::convert::{convert, convert_expr, convert_node, convert_term};
use mathexpr::expr::Expr;
use mathexpr::number::UnaryKind;
use mathexpr::parse;
use mathexpr::term::Term;

fn bits(x: f64) -> u64 {
    x.to_bits()
}

fn lit(x: f64) -> Expr {
    Expr::Term(Term::Real(bits(x)))
}

fn var(name: &str) -> Expr {
    Expr::Term(Term::Var(name.to_string()))
}

fn leaf(t: parse::Term) -> parse::Expr {
    parse::Expr::Rhs(parse::Product::Rhs(parse::Power::Rhs(parse::Node::Term(t))))
}

fn name(n: &str) -> parse::Expr {
    leaf(parse::Term::Var(n.to_string()))
}

fn number(x: f64) -> parse::Expr {
    leaf(parse::Term::Float(bits(x)))
}

fn as_power(e: parse::Expr) -> parse::Power {
    parse::Power::Rhs(parse::Node::Paren(Box::new(e)))
}

fn as_product(e: parse::Expr) -> parse::Product {
    parse::Product::Rhs(as_power(e))
}

fn of_node(n: parse::Node) -> parse::Expr {
    parse::Expr::Rhs(parse::Product::Rhs(parse::Power::Rhs(n)))
}

#[test]
fn convert_term_of_each_kind() {
    assert_eq!(
        convert_term(&parse::Term::Var("x".to_string())),
        Term::Var("x".to_string())
    );
    assert_eq!(convert_term(&parse::Term::Float(bits(1.5))), Term::Real(bits(1.5)));
    assert_eq!(convert_term(&parse::Term::Int(bits(3.0))), Term::Real(bits(3.0)));
}

#[test]
fn convert_expr_desugars_subtraction_and_division() {
    let diff = parse::Expr::Binary {
        lhs: Box::new(name("a")),
        op: parse::AddOp::Sub,
        rhs: as_product(name("b")),
    };
    assert_eq!(
        *convert_expr(&diff),
        Expr::Add(vec![var("a"), Expr::Mul(vec![lit(-1.0), var("b")])])
    );
    let quotient = parse::Expr::Rhs(parse::Product::Binary {
        lhs: Box::new(as_product(name("a"))),
        op: parse::MulOp::Div,
        rhs: as_power(name("b")),
    });
    assert_eq!(
        *convert_expr(&quotient),
        Expr::Mul(vec![
            var("a"),
            Expr::Pow(Box::new(var("b")), Box::new(lit(-1.0)))
        ])
    );
}

#[test]
fn convert_expr_reads_operators_left_to_right() {
    let e = parse::Expr::Binary {
        lhs: Box::new(parse::Expr::Binary {
            lhs: Box::new(name("a")),
            op: parse::AddOp::Add,
            rhs: as_product(name("b")),
        }),
        op: parse::AddOp::Add,
        rhs: as_product(name("c")),
    };
    assert_eq!(
        *convert_expr(&e),
        Expr::Add(vec![Expr::Add(vec![var("a"), var("b")]), var("c")])
    );
    let p = parse::Expr::Rhs(parse::Product::Rhs(parse::Power::Binary {
        lhs: Box::new(as_power(name("a"))),
        op: parse::PowOp::Pow,
        rhs: parse::Node::Term(parse::Term::Int(bits(2.0))),
    }));
    assert_eq!(
        *convert_expr(&p),
        Expr::Pow(Box::new(var("a")), Box::new(lit(2.0)))
    );
}

#[test]
fn convert_node_of_functions_roots_and_logarithms() {
    let x = || Box::new(name("x"));
    assert_eq!(
        *convert_node(&parse::Node::Sin(x())),
        Expr::Unary(UnaryKind::Sin, Box::new(var("x")))
    );
    assert_eq!(
        *convert_node(&parse::Node::Atanh(x())),
        Expr::Unary(UnaryKind::Atanh, Box::new(var("x")))
    );
    assert_eq!(
        *convert_node(&parse::Node::Abs(x())),
        Expr::Unary(UnaryKind::Abs, Box::new(var("x")))
    );
    assert_eq!(
        *convert_node(&parse::Node::Ln(x())),
        Expr::Unary(UnaryKind::Ln, Box::new(var("x")))
    );
    assert_eq!(
        *convert_node(&parse::Node::Neg(x())),
        Expr::Mul(vec![lit(-1.0), var("x")])
    );
    assert_eq!(
        *convert_node(&parse::Node::Sqrt(x())),
        Expr::Pow(Box::new(var("x")), Box::new(lit(0.5)))
    );
    assert_eq!(
        *convert_node(&parse::Node::Cbrt(x())),
        Expr::Pow(
            Box::new(var("x")),
            Box::new(Expr::Pow(Box::new(lit(3.0)), Box::new(lit(-1.0))))
        )
    );
    assert_eq!(
        *convert_node(&parse::Node::Root(Box::new(name("n")), x())),
        Expr::Pow(
            Box::new(var("x")),
            Box::new(Expr::Pow(Box::new(var("n")), Box::new(lit(-1.0))))
        )
    );
    assert_eq!(
        *convert_node(&parse::Node::Log(Box::new(name("b")), x())),
        Expr::Mul(vec![
            Expr::Unary(UnaryKind::Ln, Box::new(var("x"))),
            Expr::Pow(
                Box::new(Expr::Unary(UnaryKind::Ln, Box::new(var("b")))),
                Box::new(lit(-1.0))
            ),
        ])
    );
    assert_eq!(*convert_node(&parse::Node::Paren(x())), var("x"));
    assert_eq!(
        *convert_node(&parse::Node::Fn("f".to_string(), vec![name("x"), number(2.0)])),
        Expr::Fn("f".to_string(), vec![var("x"), lit(2.0)])
    );
}

#[test]
fn convert_declares_each_statement_in_turn() {
    let statements = vec![
        parse::Statement::Let {
            name: "k".to_string(),
            body: number(2.0),
        },
        parse::Statement::Fn {
            recursive: true,
            name: "f".to_string(),
            args: vec!["n".to_string()],
            body: of_node(parse::Node::Fn("f".to_string(), vec![name("n")])),
        },
        parse::Statement::Fn {
            recursive: false,
            name: "g".to_string(),
            args: vec![],
            body: name("k"),
        },
        parse::Statement::Let {
            name: "k".to_string(),
            body: number(3.0),
        },
    ];
    let c = convert(statements);
    let names: Vec<&str> = c.vars.iter().map(|v| v.name.as_str()).collect();
    assert_eq!(names, vec!["e", "pi", "i", "k"]);
    assert_eq!(c.vars[3].value, lit(3.0));
    assert_eq!(c.fns.len(), 2);
    assert_eq!(c.fns[0].name, "f");
    assert!(c.fns[0].recursive);
    assert_eq!(c.fns[0].args, vec!["n".to_string()]);
    assert_eq!(c.fns[0].body, Expr::Fn("f".to_string(), vec![var("n")]));
    assert!(!c.fns[1].recursive);
    assert_eq!(c.check_for_illigal_recursion(), Ok(()));
}

#[test]
fn convert_of_nothing_is_the_initial_context() {
    let c = convert(Vec::new());
    let fresh = Context::new();
    assert_eq!(c.vars.len(), fresh.vars.len());
    assert_eq!(c.vars[0].name, "e");
    assert_eq!(c.vars[1].name, "pi");
    assert_eq!(c.vars[2].name, "i");
    assert_eq!(c.vars[2].value, Expr::Term(Term::Complex(bits(0.0), bits(1.0))));
    assert!(c.fns.is_empty());
}

#[test]
fn terms_and_leaves_from_their_parts() {
    assert_eq!(Term::from("x".to_string()), Term::Var("x".to_string()));
    assert_eq!(Expr::from(Term::Real(bits(2.0))), lit(2.0));
    let e: Expr = Term::from("y".to_string()).into();
    assert_eq!(e, var("y"));
    assert!(matches!(*e.boxed(), Expr::Term(Term::Var(_))));
}

#[test]
fn numbers_precede_variables_and_variables_go_by_name() {
    let a = Term::Var("a".to_string());
    let b = Term::Var("b".to_string());
    assert!(a < b);
    assert!(b > a);
    assert!(a <= a.clone());
    assert!(Term::Real(bits(9.0)) < a);
    assert!(a > Term::Complex(bits(1.0), bits(1.0)));
    assert!(!(Term::Real(bits(2.0)) < Term::Real(bits(3.0))));
    assert!(Term::Real(bits(2.0)) <= Term::Real(bits(3.0)));
    assert!(Term::Var("ab".to_string()) > a);
    assert!(lit(5.0) < var("x"));
    assert!(var("x") < Expr::Add(vec![var("a"), var("b")]));
    assert!(var("x") < var("y"));
    assert!(!(Expr::Mul(vec![]) < Expr::Add(vec![])));
    assert!(Expr::Mul(vec![]) <= Expr::Add(vec![]));
}
