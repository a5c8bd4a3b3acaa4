use hm_infer::env::{generalize, TypeEnv};
use hm_infer::error::TypeError;
use hm_infer::fresh::Fresh;
use hm_infer::scheme::Scheme;
use hm_infer::subst::Subst;
use hm_infer::ty::Ty;
use hm_infer::unify::unify;

fn tvar(n: &str) -> Ty {
    Ty::Var(String::from(n))
}

fn fun(a: Ty, b: Ty) -> Ty {
    Ty::Fun(Box::new(a), Box::new(b))
}

#[test]
fn apply_substitutes_bound_variable() {
    let mut s = Subst::empty();
    s.insert(String::from("a"), Ty::Int);
    assert_eq!(tvar("a").apply(&s), Ty::Int);
    assert_eq!(tvar("b").apply(&s), tvar("b"));
    assert_eq!(fun(tvar("a"), Ty::Bool).apply(&s), fun(Ty::Int, Ty::Bool));
}

#[test]
fn apply_is_idempotent_on_fixed_point_substitution() {
    let mut s = Subst::empty();
    s.insert(String::from("a"), Ty::Int);
    s.insert(String::from("b"), fun(Ty::Str, Ty::Bool));
    let t = fun(tvar("a"), fun(tvar("b"), tvar("c")));
    let once = t.apply(&s);
    let twice = once.apply(&s);
    assert_eq!(twice, once);
}

#[test]
fn compose_applies_right_then_left() {
    let mut s1 = Subst::empty();
    s1.insert(String::from("a"), Ty::Int);
    let mut s2 = Subst::empty();
    s2.insert(String::from("b"), tvar("a"));
    let s = s1.compose(&s2);
    // s2 sends b to a, then s1 resolves a to Int
    assert_eq!(tvar("b").apply(&s), Ty::Int);
    assert_eq!(tvar("a").apply(&s), Ty::Int);
}

#[test]
fn compose_agrees_with_applying_in_sequence() {
    let mut s1 = Subst::empty();
    s1.insert(String::from("a"), Ty::Int);
    let mut s2 = Subst::empty();
    s2.insert(String::from("b"), fun(tvar("a"), Ty::Bool));
    let t = fun(tvar("b"), tvar("a"));
    let composed = t.apply(&s1.compose(&s2));
    let sequenced = t.apply(&s2).apply(&s1);
    assert_eq!(composed, sequenced);
}

#[test]
fn compose_prefers_the_rewritten_right_mapping_on_shared_keys() {
    let mut s1 = Subst::empty();
    s1.insert(String::from("a"), Ty::Int);
    let mut s2 = Subst::empty();
    s2.insert(String::from("a"), Ty::Bool);
    // applying s2 first resolves a to Bool, and s1 no longer sees a variable
    assert_eq!(tvar("a").apply(&s1.compose(&s2)), Ty::Bool);
}

#[test]
fn insert_shadows_an_earlier_binding() {
    let mut s = Subst::empty();
    s.insert(String::from("a"), Ty::Int);
    s.insert(String::from("a"), Ty::Str);
    assert_eq!(tvar("a").apply(&s), Ty::Str);
}

#[test]
fn unify_variable_with_type_gives_binding() {
    let r = unify(&tvar("a"), &Ty::Int);
    let s = r.unwrap();
    assert_eq!(tvar("a").apply(&s), Ty::Int);
}

#[test]
fn unify_function_types() {
    let left = fun(tvar("a"), Ty::Int);
    let right = fun(Ty::Bool, tvar("b"));
    let s = unify(&left, &right).unwrap();
    assert_eq!(left.apply(&s), fun(Ty::Bool, Ty::Int));
    assert_eq!(right.apply(&s), fun(Ty::Bool, Ty::Int));
}

#[test]
fn unify_equal_types_changes_nothing() {
    let t = fun(Ty::Int, tvar("a"));
    let s = unify(&t, &t).unwrap();
    assert_eq!(t.apply(&s), t);
    assert!(s.get(&String::from("a")).is_none());
}

#[test]
fn occurs_check_rejects_infinite_type() {
    let lhs = tvar("a");
    let rhs = fun(tvar("a"), Ty::Int);
    let r = unify(&lhs, &rhs);
    assert_eq!(
        r,
        Err(TypeError::InfiniteType(
            String::from("a"),
            fun(tvar("a"), Ty::Int)
        ))
    );
}

#[test]
fn unify_mismatched_bases_fails() {
    let r = unify(&Ty::Int, &Ty::Bool);
    assert_eq!(r, Err(TypeError::TypeMismatch(Ty::Int, Ty::Bool)));
}

#[test]
fn fresh_names_count_upward() {
    let mut c = Fresh::new();
    assert_eq!(c.next(), String::from("t0"));
    assert_eq!(c.next(), String::from("t1"));
    for _ in 0..9 {
        c.next();
    }
    assert_eq!(c.next(), String::from("t11"));
}

#[test]
fn instantiate_replaces_quantified_with_fresh() {
    let sch = Scheme {
        vars: vec![String::from("a")],
        ty: fun(tvar("a"), tvar("a")),
    };
    let mut c = Fresh::new();
    let t = sch.instantiate(&mut c);
    assert_eq!(t, fun(tvar("t0"), tvar("t0")));
}

#[test]
fn instantiate_keeps_distinct_variables_distinct() {
    let sch = Scheme {
        vars: vec![String::from("a"), String::from("b")],
        ty: fun(tvar("a"), tvar("b")),
    };
    let mut c = Fresh::new();
    let t = sch.instantiate(&mut c);
    assert_eq!(t, fun(tvar("t0"), tvar("t1")));
}

#[test]
fn instantiate_leaves_free_variables_alone() {
    let sch = Scheme {
        vars: vec![String::from("a")],
        ty: fun(tvar("a"), tvar("b")),
    };
    let mut c = Fresh::new();
    let t = sch.instantiate(&mut c);
    assert_eq!(t, fun(tvar("t0"), tvar("b")));
}

#[test]
fn generalize_quantifies_only_variables_not_free_in_env() {
    let env = TypeEnv::new().extend(String::from("x"), Scheme::mono(tvar("a")));
    let sch = generalize(&env, &fun(tvar("a"), tvar("b")));
    assert_eq!(sch.vars, vec![String::from("b")]);
    assert_eq!(sch.ty, fun(tvar("a"), tvar("b")));
}

#[test]
fn generalize_closed_env_quantifies_everything() {
    let env = TypeEnv::new();
    let sch = generalize(&env, &fun(tvar("a"), tvar("b")));
    assert_eq!(sch.vars, vec![String::from("a"), String::from("b")]);
}

#[test]
fn extend_shadows_without_mutating() {
    let base = TypeEnv::new().extend(String::from("x"), Scheme::mono(Ty::Int));
    let child = base.extend(String::from("x"), Scheme::mono(Ty::Bool));
    assert_eq!(base.lookup(&String::from("x")).unwrap().ty, Ty::Int);
    assert_eq!(child.lookup(&String::from("x")).unwrap().ty, Ty::Bool);
}

#[test]
fn lookup_missing_name_is_unbound() {
    let env = TypeEnv::new();
    let r = env.lookup(&String::from("y"));
    assert_eq!(r, Err(TypeError::UnboundVariable(String::from("y"))));
}

#[test]
fn scheme_apply_avoids_capture() {
    let mut s = Subst::empty();
    s.insert(String::from("a"), Ty::Int);
    s.insert(String::from("b"), Ty::Str);
    let sch = Scheme {
        vars: vec![String::from("a")],
        ty: fun(tvar("a"), tvar("b")),
    };
    let applied = sch.apply(&s);
    // the quantified a is untouched, the free b is substituted
    assert_eq!(applied.ty, fun(tvar("a"), Ty::Str));
    assert_eq!(applied.vars, vec![String::from("a")]);
}
