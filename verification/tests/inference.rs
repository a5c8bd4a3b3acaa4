use hm_infer::ast::{Exp, Lit};
use hm_infer::error::TypeError;
use hm_infer::infer::infer_type;
use hm_infer::ty::Ty;

fn var(n: &str) -> Exp {
    Exp::Var(String::from(n))
}

fn app(f: Exp, a: Exp) -> Exp {
    Exp::App(Box::new(f), Box::new(a))
}

fn abs(p: &str, b: Exp) -> Exp {
    Exp::Abs(String::from(p), Box::new(b))
}

fn let_in(n: &str, bound: Exp, body: Exp) -> Exp {
    Exp::Let(String::from(n), Box::new(bound), Box::new(body))
}

#[test]
fn literals_have_base_types() {
    assert_eq!(infer_type(&Exp::Lit(Lit::Int(3))), Ok(Ty::Int));
    assert_eq!(infer_type(&Exp::Lit(Lit::Bool(false))), Ok(Ty::Bool));
    assert_eq!(
        infer_type(&Exp::Lit(Lit::Str(String::from("hi")))),
        Ok(Ty::Str)
    );
}

#[test]
fn unbound_variable_is_reported_unchanged() {
    let r = infer_type(&var("z"));
    assert_eq!(r, Err(TypeError::UnboundVariable(String::from("z"))));
}

#[test]
fn identity_has_principal_shape() {
    let r = infer_type(&abs("x", var("x"))).unwrap();
    match r {
        Ty::Fun(dom, cod) => match (*dom, *cod) {
            (Ty::Var(d), Ty::Var(c)) => assert_eq!(d, c),
            other => panic!("expected a variable on both sides, got {:?}", other),
        },
        other => panic!("expected a function type, got {:?}", other),
    }
}

#[test]
fn applying_a_non_function_is_a_mismatch() {
    let e = app(Exp::Lit(Lit::Bool(true)), Exp::Lit(Lit::Int(1)));
    match infer_type(&e) {
        Err(TypeError::TypeMismatch(_, _)) => {}
        other => panic!("expected a type mismatch, got {:?}", other),
    }
}

#[test]
fn applying_a_literal_reports_the_exact_shapes() {
    let e = app(Exp::Lit(Lit::Bool(true)), Exp::Lit(Lit::Int(1)));
    assert_eq!(
        infer_type(&e),
        Err(TypeError::TypeMismatch(
            Ty::Bool,
            Ty::Fun(Box::new(Ty::Int), Box::new(Ty::Var(String::from("t0"))))
        ))
    );
}

#[test]
fn let_polymorphism_allows_two_uses_at_different_types() {
    // let id = \x. x in (id id) 1
    let e = let_in(
        "id",
        abs("x", var("x")),
        app(app(var("id"), var("id")), Exp::Lit(Lit::Int(1))),
    );
    assert_eq!(infer_type(&e), Ok(Ty::Int));
}

#[test]
fn self_application_is_an_infinite_type() {
    let e = abs("x", app(var("x"), var("x")));
    match infer_type(&e) {
        Err(TypeError::InfiniteType(_, _)) => {}
        other => panic!("expected an infinite type, got {:?}", other),
    }
}

#[test]
fn application_pipes_argument_through() {
    // (\x. x) 1
    let e = app(abs("x", var("x")), Exp::Lit(Lit::Int(1)));
    assert_eq!(infer_type(&e), Ok(Ty::Int));
}

#[test]
fn let_binds_a_monomorphic_value() {
    let e = let_in("s", Exp::Lit(Lit::Str(String::from("hi"))), var("s"));
    assert_eq!(infer_type(&e), Ok(Ty::Str));
}

#[test]
fn constant_function_ignores_its_argument() {
    // (\x. \y. x) true
    let e = app(abs("x", abs("y", var("x"))), Exp::Lit(Lit::Bool(true)));
    match infer_type(&e) {
        Ok(Ty::Fun(_, cod)) => assert_eq!(*cod, Ty::Bool),
        other => panic!("expected a function to Bool, got {:?}", other),
    }
}

#[test]
fn inner_let_shadows_outer_binding() {
    let e = let_in(
        "x",
        Exp::Lit(Lit::Int(1)),
        let_in("x", Exp::Lit(Lit::Bool(true)), var("x")),
    );
    assert_eq!(infer_type(&e), Ok(Ty::Bool));
}

#[test]
fn polymorphic_uses_stay_independent() {
    // let id = \x. x in let a = id 1 in id true
    let e = let_in(
        "id",
        abs("x", var("x")),
        let_in(
            "a",
            app(var("id"), Exp::Lit(Lit::Int(1))),
            app(var("id"), Exp::Lit(Lit::Bool(true))),
        ),
    );
    assert_eq!(infer_type(&e), Ok(Ty::Bool));
}

#[test]
fn lambda_bound_names_stay_monomorphic() {
    // \f. let g = f in g 1, applied so f must be a function of Int
    let e = app(
        abs("f", let_in("g", var("f"), app(var("g"), Exp::Lit(Lit::Int(1))))),
        abs("x", var("x")),
    );
    assert_eq!(infer_type(&e), Ok(Ty::Int));
}

#[test]
fn unbound_name_inside_deeper_expression() {
    let e = let_in("x", Exp::Lit(Lit::Int(1)), app(var("f"), var("x")));
    assert_eq!(
        infer_type(&e),
        Err(TypeError::UnboundVariable(String::from("f")))
    );
}

#[test]
fn argument_type_must_match_parameter_use() {
    // (\f. f 1) true : applying true as a function of 1
    let e = app(
        abs("f", app(var("f"), Exp::Lit(Lit::Int(1)))),
        Exp::Lit(Lit::Bool(true)),
    );
    match infer_type(&e) {
        Err(TypeError::TypeMismatch(_, _)) => {}
        other => panic!("expected a type mismatch, got {:?}", other),
    }
}
