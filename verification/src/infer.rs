//! The inference procedure (Algorithm W): a recursive walk of the expression
//! tree producing a substitution and a type for each node, composing
//! substitutions outward-in.

use vstd::prelude::*;

use crate::ast::{free_vars, no_app, Exp, Lit, SpecExp, SpecLit};
use crate::env::{generalize, TypeEnv};
use crate::error::{SpecTypeError, TypeError};
use crate::fresh::Fresh;
use crate::scheme::{distinct_values, fresh_instance_map, instance_of, Scheme};
use crate::subst::{lemma_apply_empty, spec_apply, Subst};
use crate::ty::{ftv, SpecTy, Ty};
use crate::unify::{heads_differ, unify};

verus! {

/// The base type fixed by a literal.
pub open spec fn lit_ty(l: SpecLit) -> SpecTy {
    match l {
        SpecLit::Int(_) => SpecTy::Int,
        SpecLit::Bool(_) => SpecTy::Bool,
        SpecLit::Str(_) => SpecTy::Str,
    }
}

/// Algorithm W. Walks the expression under the environment, drawing fresh
/// variables from `c`, and returns the substitution discovered and the type
/// of the expression, or the first error met in evaluation order.
///
/// A literal types as its base type with the empty substitution. A variable
/// succeeds exactly when it is bound, yielding a fresh instance of its
/// scheme. An abstraction always types as a function type, and the identity
/// abstraction types exactly as one variable to itself. Applying a literal
/// always fails, with the exact mismatch when the argument is a literal too.
/// An expression without applications succeeds whenever its free variables
/// are bound: only applications introduce constraints. `UnboundVariable` is
/// reported only for a name truly free in the expression and absent from the
/// environment; the other two errors are truthful in the sense of
/// unification's contract. On success every free variable of the expression
/// is bound in the environment.
pub fn infer(env: &TypeEnv, e: &Exp, c: &mut Fresh) -> (r: Result<(Subst, Ty), TypeError>)
    requires
        env.wf(),
    ensures
        final(c)@ >= old(c)@,
        (match r {
            Ok(_) => free_vars(e@).subset_of(env@.dom()),
            Err(err) => match err@ {
                SpecTypeError::Unbound(n) => !env@.dom().contains(n) && free_vars(e@).contains(n),
                SpecTypeError::Infinite(n, u) => ftv(u).contains(n) && u != SpecTy::Var(n),
                SpecTypeError::Mismatch(x, y) => heads_differ(x, y),
            },
        }),
        no_app(e@) && free_vars(e@).subset_of(env@.dom()) ==> r is Ok,
        (match e@ {
            SpecExp::Lit(l) => r matches Ok(p) && p.0@ == Map::<Seq<char>, SpecTy>::empty() && p.1@
                == lit_ty(l),
            SpecExp::Var(n) => {
                &&& (env@.dom().contains(n) <==> r is Ok)
                &&& (r matches Ok(p) ==> p.0@ == Map::<Seq<char>, SpecTy>::empty() && instance_of(
                    p.1@,
                    env@[n],
                ))
                &&& (r matches Ok(p) ==> (final(c)@ < u64::MAX ==> (exists|
                    m: Map<Seq<char>, SpecTy>,
                |
                    fresh_instance_map(m, env@[n].vars, old(c)@, final(c)@) && distinct_values(m)
                        && p.1@ == spec_apply(m, env@[n].body))))
                &&& (r matches Err(err) ==> err@ == SpecTypeError::Unbound(n))
            },
            SpecExp::Abs(p, b) => {
                &&& (r matches Ok(pr) ==> pr.1@ is Fun)
                &&& (*b == SpecExp::Var(p) ==> (r matches Ok(pr) && pr.0@ == Map::<
                    Seq<char>,
                    SpecTy,
                >::empty() && (exists|v: Seq<char>|
                    pr.1@ == SpecTy::Fun(Box::new(SpecTy::Var(v)), Box::new(SpecTy::Var(v))))))
            },
            SpecExp::App(f, a) => (match *f {
                SpecExp::Lit(lf) => {
                    &&& r is Err
                    &&& (match *a {
                        SpecExp::Lit(la) => (r matches Err(err) && (exists|v: Seq<char>|
                            err@ == SpecTypeError::Mismatch(
                                lit_ty(lf),
                                SpecTy::Fun(Box::new(lit_ty(la)), Box::new(SpecTy::Var(v))),
                            ))),
                        _ => true,
                    })
                },
                _ => true,
            }),
            _ => true,
        }),
    decreases e,
{
    match e {
        Exp::Lit(l) => {
            let t = match l {
                Lit::Int(_) => Ty::Int,
                Lit::Bool(_) => Ty::Bool,
                Lit::Str(_) => Ty::Str,
            };
            Ok((Subst::empty(), t))
        },
        Exp::Var(n) => {
            match env.lookup(n) {
                Ok(sch) => {
                    let t = sch.instantiate(c);
                    Ok((Subst::empty(), t))
                },
                Err(err) => {
                    proof {
                        if free_vars(e@).subset_of(env@.dom()) {
                            assert(free_vars(e@).contains(n@));
                            assert(false);
                        }
                    }
                    Err(err)
                },
            }
        },
        Exp::Abs(param, body) => {
            let tv = c.next();
            let env2 = env.extend(param.clone(), Scheme::mono(Ty::Var(tv.clone())));
            proof {
                assert(env2@.dom() =~= env@.dom().insert(param@));
            }
            match infer(&env2, body, c) {
                Ok((s1, t1)) => {
                    let dom = Ty::Var(tv).apply(&s1);
                    proof {
                        assert(free_vars(e@) == free_vars(body@).remove(param@));
                        assert(free_vars(e@).subset_of(env@.dom()));
                        if body@ == SpecExp::Var(param@) {
                            assert(env2@.dom().contains(param@));
                            assert(s1@ == Map::<Seq<char>, SpecTy>::empty());
                            assert(env2@[param@].vars =~= Set::<Seq<char>>::empty());
                            assert(env2@[param@].body == SpecTy::Var(tv@));
                            assert(instance_of(t1@, env2@[param@]));
                            let m = choose|m: Map<Seq<char>, SpecTy>|
                                m.dom() == env2@[param@].vars && t1@ == spec_apply(
                                    m,
                                    env2@[param@].body,
                                );
                            assert(m =~= Map::<Seq<char>, SpecTy>::empty()) by {
                                assert(m.dom() =~= Set::<Seq<char>>::empty());
                            }
                            assert(t1@ == SpecTy::Var(tv@));
                            assert(dom@ == SpecTy::Var(tv@));
                        }
                    }
                    Ok((s1, Ty::Fun(Box::new(dom), Box::new(t1))))
                },
                Err(err) => {
                    proof {
                        assert(free_vars(e@) == free_vars(body@).remove(param@));
                        if let SpecTypeError::Unbound(n) = err@ {
                            assert(free_vars(e@).contains(n));
                        }
                        if body@ == SpecExp::Var(param@) {
                            assert(env2@.dom().contains(param@));
                            assert(false);
                        }
                        if no_app(e@) && free_vars(e@).subset_of(env@.dom()) {
                            assert(no_app(body@));
                            assert(free_vars(body@).subset_of(env2@.dom())) by {
                                assert forall|x: Seq<char>|
                                    free_vars(body@).contains(x) implies env2@.dom().contains(
                                    x,
                                ) by {
                                    if x != param@ {
                                        assert(free_vars(e@).contains(x));
                                    }
                                }
                            }
                            assert(false);
                        }
                    }
                    Err(err)
                },
            }
        },
        Exp::App(f, a) => {
            let tv = c.next();
            match infer(env, f, c) {
                Err(err) => {
                    proof {
                        if let SpecExp::Lit(_) = f@ {
                            assert(false);
                        }
                    }
                    Err(err)
                },
                Ok((s1, tf)) => {
                    let env1 = env.apply(&s1);
                    proof {
                        assert(env1@.dom() =~= env@.dom());
                    }
                    match infer(&env1, a, c) {
                        Err(err) => {
                            proof {
                                if let SpecExp::Lit(_) = a@ {
                                    assert(false);
                                }
                            }
                            Err(err)
                        },
                        Ok((s2, ta)) => {
                            let tfs = tf.apply(&s2);
                            let ghost ta_view = ta@;
                            let tvt = Ty::Var(tv.clone());
                            let ghost tvt_view = tvt@;
                            proof {
                                assert(tvt_view == SpecTy::Var(tv@));
                            }
                            let expected = Ty::Fun(Box::new(ta), Box::new(tvt));
                            proof {
                                assert(expected@ == SpecTy::Fun(
                                    Box::new(ta_view),
                                    Box::new(SpecTy::Var(tv@)),
                                ));
                            }
                            match unify(&tfs, &expected) {
                                Err(err) => {
                                    proof {
                                        if let SpecExp::Lit(lf) = f@ {
                                            assert(tf@ == lit_ty(lf));
                                            assert(tfs@ == lit_ty(lf));
                                            assert(expected@ == SpecTy::Fun(
                                                Box::new(ta_view),
                                                Box::new(SpecTy::Var(tv@)),
                                            ));
                                            assert(heads_differ(tfs@, expected@));
                                            assert(err@ == SpecTypeError::Mismatch(
                                                tfs@,
                                                expected@,
                                            ));
                                            if let SpecExp::Lit(la) = a@ {
                                                assert(ta_view == lit_ty(la));
                                                assert(err@ == SpecTypeError::Mismatch(
                                                    lit_ty(lf),
                                                    SpecTy::Fun(
                                                        Box::new(lit_ty(la)),
                                                        Box::new(SpecTy::Var(tv@)),
                                                    ),
                                                ));
                                            }
                                        }
                                    }
                                    Err(err)
                                },
                                Ok(s3) => {
                                    proof {
                                        if let SpecExp::Lit(lf) = f@ {
                                            assert(tfs@ == lit_ty(lf));
                                            assert(heads_differ(tfs@, expected@));
                                            assert(false);
                                        }
                                    }
                                    let t = Ty::Var(tv).apply(&s3);
                                    let s = s3.compose(&s2.compose(&s1));
                                    Ok((s, t))
                                },
                            }
                        },
                    }
                },
            }
        },
        Exp::Let(x, bound, body) => {
            match infer(env, bound, c) {
                Err(err) => {
                    proof {
                        if no_app(e@) && free_vars(e@).subset_of(env@.dom()) {
                            assert(no_app(bound@));
                            assert(free_vars(bound@).subset_of(env@.dom())) by {
                                assert forall|y: Seq<char>|
                                    free_vars(bound@).contains(y) implies env@.dom().contains(
                                    y,
                                ) by {
                                    assert(free_vars(e@).contains(y));
                                }
                            }
                            assert(false);
                        }
                    }
                    Err(err)
                },
                Ok((s1, t1)) => {
                    let env1 = env.apply(&s1);
                    proof {
                        assert(env1@.dom() =~= env@.dom());
                    }
                    let sch = generalize(&env1, &t1);
                    let env2 = env1.extend(x.clone(), sch);
                    proof {
                        assert(env2@.dom() =~= env@.dom().insert(x@));
                    }
                    match infer(&env2, body, c) {
                        Err(err) => {
                            proof {
                                if let SpecTypeError::Unbound(n) = err@ {
                                    assert(free_vars(body@).remove(x@).contains(n));
                                    assert(free_vars(e@).contains(n));
                                }
                                if no_app(e@) && free_vars(e@).subset_of(env@.dom()) {
                                    assert(no_app(body@));
                                    assert(free_vars(body@).subset_of(env2@.dom())) by {
                                        assert forall|y: Seq<char>|
                                            free_vars(body@).contains(y) implies env2@.dom(
                                        ).contains(y) by {
                                            if y != x@ {
                                                assert(free_vars(e@).contains(y));
                                            }
                                        }
                                    }
                                    assert(false);
                                }
                            }
                            Err(err)
                        },
                        Ok((s2, t2)) => Ok((s2.compose(&s1), t2)),
                    }
                },
            }
        },
    }
}

/// The driver: infers the type of a closed expression under the empty
/// environment with a fresh supply of its own, and resolves the returned
/// type by the final substitution. Succeeds only on expressions without
/// unbound free variables, and on every closed expression without
/// applications; a literal yields its base type, a variable always fails as
/// unbound, the identity abstraction yields one variable to itself, and
/// applying a literal always fails, with the exact mismatch when the
/// argument is a literal too.
pub fn infer_type(e: &Exp) -> (r: Result<Ty, TypeError>)
    ensures
        (match r {
            Ok(_) => free_vars(e@) == Set::<Seq<char>>::empty(),
            Err(err) => match err@ {
                SpecTypeError::Unbound(n) => free_vars(e@).contains(n),
                SpecTypeError::Infinite(n, u) => ftv(u).contains(n) && u != SpecTy::Var(n),
                SpecTypeError::Mismatch(x, y) => heads_differ(x, y),
            },
        }),
        no_app(e@) && free_vars(e@) == Set::<Seq<char>>::empty() ==> r is Ok,
        e@ matches SpecExp::Lit(l) ==> (r matches Ok(t) && t@ == lit_ty(l)),
        e@ matches SpecExp::Var(n) ==> (r matches Err(err) && err@ == SpecTypeError::Unbound(n)),
        (match e@ {
            SpecExp::Abs(p, b) => *b == SpecExp::Var(p) ==> (r matches Ok(t) && (exists|
                v: Seq<char>,
            |
                t@ == SpecTy::Fun(Box::new(SpecTy::Var(v)), Box::new(SpecTy::Var(v))))),
            SpecExp::App(f, a) => (match *f {
                SpecExp::Lit(lf) => {
                    &&& r is Err
                    &&& (match *a {
                        SpecExp::Lit(la) => (r matches Err(err) && (exists|v: Seq<char>|
                            err@ == SpecTypeError::Mismatch(
                                lit_ty(lf),
                                SpecTy::Fun(Box::new(lit_ty(la)), Box::new(SpecTy::Var(v))),
                            ))),
                        _ => true,
                    })
                },
                _ => true,
            }),
            _ => true,
        }),
    decreases e,
{
    let env = TypeEnv::new();
    let mut c = Fresh::new();
    proof {
        assert(env@.dom() =~= Set::<Seq<char>>::empty());
    }
    match infer(&env, e, &mut c) {
        Ok((s, t)) => {
            let resolved = t.apply(&s);
            proof {
                assert(free_vars(e@) =~= Set::<Seq<char>>::empty());
                if let SpecExp::Lit(_) = e@ {
                    lemma_apply_empty(t@);
                }
                if let SpecExp::Abs(p, b) = e@ {
                    if *b == SpecExp::Var(p) {
                        assert(s@ == Map::<Seq<char>, SpecTy>::empty());
                        lemma_apply_empty(t@);
                        let v = choose|v: Seq<char>|
                            t@ == SpecTy::Fun(Box::new(SpecTy::Var(v)), Box::new(SpecTy::Var(v)));
                        assert(resolved@ == SpecTy::Fun(
                            Box::new(SpecTy::Var(v)),
                            Box::new(SpecTy::Var(v)),
                        ));
                    }
                }
                if let SpecExp::App(f, _) = e@ {
                    if let SpecExp::Lit(_) = *f {
                        assert(false);
                    }
                }
            }
            Ok(resolved)
        },
        Err(err) => {
            proof {
                if let SpecTypeError::Unbound(n) = err@ {
                    assert(!env@.dom().contains(n));
                }
                if no_app(e@) && free_vars(e@) == Set::<Seq<char>>::empty() {
                    assert(free_vars(e@).subset_of(env@.dom()));
                    assert(false);
                }
                if let SpecExp::Abs(p, b) = e@ {
                    if *b == SpecExp::Var(p) {
                        assert(false);
                    }
                }
            }
            Err(err)
        },
    }
}

} // verus!
