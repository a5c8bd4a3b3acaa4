//! Unification: the most general unifier of two monotypes, with the
//! occurs-check that keeps every produced substitution acyclic.

use vstd::prelude::*;
use vstd::set_lib::lemma_len_subset;

use crate::error::{SpecTypeError, TypeError};
use crate::subst::{fixed_point, lemma_apply_disjoint, lemma_apply_empty, lemma_compose_apply,
    lemma_ftv_apply, range_ftv, spec_apply, spec_compose, Subst};
use crate::ty::{ftv, lemma_ftv_finite, size, SpecTy, Ty};

verus! {

/// Whether `s` makes `a` and `b` syntactically equal.
pub open spec fn is_unifier(s: Map<Seq<char>, SpecTy>, a: SpecTy, b: SpecTy) -> bool {
    spec_apply(s, a) == spec_apply(s, b)
}

/// What unification guarantees of a returned substitution: it unifies the
/// two types, binds only their free variables, its range stays clear of its
/// domain (so it is in fixed-point form), and nothing outside the two types'
/// variables appears anywhere in it.
pub open spec fn unify_ok(s: Map<Seq<char>, SpecTy>, a: SpecTy, b: SpecTy) -> bool {
    &&& is_unifier(s, a, b)
    &&& s.dom().subset_of(ftv(a).union(ftv(b)))
    &&& range_ftv(s).subset_of(ftv(a).union(ftv(b)).difference(s.dom()))
    &&& fixed_point(s)
}

/// Whether any substitution at all makes `a` and `b` equal.
pub open spec fn unifiable(a: SpecTy, b: SpecTy) -> bool {
    exists|u: Map<Seq<char>, SpecTy>| #[trigger] is_unifier(u, a, b)
}

/// `u` factors through `s`: applying `u` is applying `s` and then `w`.
pub open spec fn factors_through(
    u: Map<Seq<char>, SpecTy>,
    w: Map<Seq<char>, SpecTy>,
    s: Map<Seq<char>, SpecTy>,
) -> bool {
    forall|t: SpecTy| #![trigger spec_apply(s, t)] spec_apply(u, t) == spec_apply(w, spec_apply(s, t))
}

/// `s` is a most general unifier of `a` and `b`: every unifier factors
/// through it.
pub open spec fn most_general(s: Map<Seq<char>, SpecTy>, a: SpecTy, b: SpecTy) -> bool {
    forall|u: Map<Seq<char>, SpecTy>| #[trigger]
        is_unifier(u, a, b) ==> exists|w: Map<Seq<char>, SpecTy>| factors_through(u, w, s)
}

/// Two types whose outermost shapes can never be made equal: distinct
/// constructors and neither side a variable.
pub open spec fn heads_differ(a: SpecTy, b: SpecTy) -> bool {
    match (a, b) {
        (SpecTy::Var(_), _) => false,
        (_, SpecTy::Var(_)) => false,
        (SpecTy::Int, SpecTy::Int) => false,
        (SpecTy::Bool, SpecTy::Bool) => false,
        (SpecTy::Str, SpecTy::Str) => false,
        (SpecTy::Fun(_, _), SpecTy::Fun(_, _)) => false,
        _ => true,
    }
}

/// The guarantees of the empty substitution on two equal types.
proof fn lemma_unify_empty(a: SpecTy, b: SpecTy)
    requires
        a == b,
    ensures
        unify_ok(Map::empty(), a, b),
{
    let s = Map::<Seq<char>, SpecTy>::empty();
    lemma_apply_empty(a);
    assert(s.dom() =~= Set::<Seq<char>>::empty());
    assert(range_ftv(s) =~= Set::<Seq<char>>::empty());
    assert(s.dom().subset_of(ftv(a).union(ftv(b))));
    assert(range_ftv(s).subset_of(ftv(a).union(ftv(b)).difference(s.dom())));
}

/// The guarantees of a singleton binding that passed the occurs-check.
proof fn lemma_bind_ok(n: Seq<char>, t: SpecTy)
    requires
        !ftv(t).contains(n),
    ensures
        unify_ok(Map::empty().insert(n, t), SpecTy::Var(n), t),
        unify_ok(Map::empty().insert(n, t), t, SpecTy::Var(n)),
{
    let s = Map::<Seq<char>, SpecTy>::empty().insert(n, t);
    assert(s.dom() =~= Set::<Seq<char>>::empty().insert(n));
    assert(s.dom().disjoint(ftv(t)));
    lemma_apply_disjoint(s, t);
    assert(spec_apply(s, SpecTy::Var(n)) == t);
    assert(range_ftv(s) =~= ftv(t)) by {
        assert forall|x: Seq<char>| range_ftv(s).contains(x) implies ftv(t).contains(x) by {
            let k = choose|k: Seq<char>| s.contains_key(k) && ftv(s[k]).contains(x);
            assert(k == n);
        }
        assert forall|x: Seq<char>| ftv(t).contains(x) implies range_ftv(s).contains(x) by {
            assert(s.contains_key(n) && ftv(s[n]).contains(x));
        }
    }
    assert(ftv(SpecTy::Var(n)) == Set::<Seq<char>>::empty().insert(n));
    assert(range_ftv(s).subset_of(ftv(SpecTy::Var(n)).union(ftv(t)).difference(s.dom())));
    assert(range_ftv(s).subset_of(ftv(t).union(ftv(SpecTy::Var(n))).difference(s.dom())));
}

/// The guarantees of composing the two substitutions of the function case:
/// `s1` unifies the domains, `s2` unifies the codomains rewritten by `s1`,
/// and "apply `s1`, then `s2`" carries both guarantees to the function types.
proof fn lemma_compose_unify_ok(
    s1: Map<Seq<char>, SpecTy>,
    s2: Map<Seq<char>, SpecTy>,
    a1: SpecTy,
    b1: SpecTy,
    a2: SpecTy,
    b2: SpecTy,
)
    requires
        unify_ok(s1, a1, a2),
        unify_ok(s2, spec_apply(s1, b1), spec_apply(s1, b2)),
    ensures
        unify_ok(
            spec_compose(s2, s1),
            SpecTy::Fun(Box::new(a1), Box::new(b1)),
            SpecTy::Fun(Box::new(a2), Box::new(b2)),
        ),
{
    let f1 = SpecTy::Fun(Box::new(a1), Box::new(b1));
    let f2 = SpecTy::Fun(Box::new(a2), Box::new(b2));
    let s = spec_compose(s2, s1);
    let va = ftv(a1).union(ftv(a2));
    let vb = ftv(spec_apply(s1, b1)).union(ftv(spec_apply(s1, b2)));
    let v = ftv(f1).union(ftv(f2));

    // the composition unifies both components
    lemma_compose_apply(s2, s1, a1);
    lemma_compose_apply(s2, s1, a2);
    lemma_compose_apply(s2, s1, b1);
    lemma_compose_apply(s2, s1, b2);
    assert(is_unifier(s, f1, f2));

    // the free variables of the rewritten codomains sit inside v minus s1's
    // domain
    lemma_ftv_apply(s1, b1);
    lemma_ftv_apply(s1, b2);
    assert(vb.subset_of(v.difference(s1.dom())));

    // the domain of the composition
    assert(s.dom() =~= s1.dom().union(s2.dom()));
    assert(s.dom().subset_of(v));

    // every type in the composed range avoids both domains
    assert forall|x: Seq<char>| range_ftv(s).contains(x) implies v.difference(s.dom()).contains(
        x,
    ) by {
        let k = choose|k: Seq<char>| s.contains_key(k) && ftv(s[k]).contains(x);
        if s1.contains_key(k) {
            assert(s[k] == spec_apply(s2, s1[k]));
            lemma_ftv_apply(s2, s1[k]);
            assert(ftv(s1[k]).subset_of(range_ftv(s1))) by {
                assert forall|y: Seq<char>| ftv(s1[k]).contains(y) implies range_ftv(s1).contains(
                    y,
                ) by {
                    assert(s1.contains_key(k) && ftv(s1[k]).contains(y));
                }
            }
            assert(ftv(s[k]).subset_of(ftv(s1[k]).difference(s2.dom()).union(range_ftv(s2))));
        } else {
            assert(s[k] == s2[k]);
            assert(ftv(s2[k]).subset_of(range_ftv(s2))) by {
                assert forall|y: Seq<char>| ftv(s2[k]).contains(y) implies range_ftv(s2).contains(
                    y,
                ) by {
                    assert(s2.contains_key(k) && ftv(s2[k]).contains(y));
                }
            }
        }
    }
    assert(range_ftv(s).subset_of(v.difference(s.dom())));
}

/// A monotype has positive size.
proof fn lemma_size_pos(t: SpecTy)
    ensures
        size(t) >= 1,
    decreases t,
{
    match t {
        SpecTy::Fun(a, b) => {
            lemma_size_pos(*a);
            lemma_size_pos(*b);
        },
        _ => {},
    }
}

/// A type containing the variable `n` never becomes smaller than `n`'s own
/// image under any substitution, and stays strictly larger unless it is the
/// variable itself.
proof fn lemma_apply_size_ge(u: Map<Seq<char>, SpecTy>, n: Seq<char>, t: SpecTy)
    requires
        ftv(t).contains(n),
    ensures
        size(spec_apply(u, t)) >= size(spec_apply(u, SpecTy::Var(n))),
        t != SpecTy::Var(n) ==> size(spec_apply(u, t)) > size(spec_apply(u, SpecTy::Var(n))),
    decreases t,
{
    match t {
        SpecTy::Var(m) => {
            assert(m == n);
        },
        SpecTy::Fun(a, b) => {
            if ftv(*a).contains(n) {
                lemma_apply_size_ge(u, n, *a);
                lemma_size_pos(spec_apply(u, *b));
            } else {
                assert(ftv(*b).contains(n));
                lemma_apply_size_ge(u, n, *b);
                lemma_size_pos(spec_apply(u, *a));
            }
        },
        _ => {
            assert(false);
        },
    }
}

/// Occurs-check soundness: a variable and a strictly larger type containing
/// it have no unifier at all.
proof fn lemma_occurs_not_unifiable(n: Seq<char>, t: SpecTy)
    requires
        ftv(t).contains(n),
        t != SpecTy::Var(n),
    ensures
        !unifiable(SpecTy::Var(n), t),
        !unifiable(t, SpecTy::Var(n)),
{
    if unifiable(SpecTy::Var(n), t) {
        let u = choose|u: Map<Seq<char>, SpecTy>| is_unifier(u, SpecTy::Var(n), t);
        lemma_apply_size_ge(u, n, t);
    }
    if unifiable(t, SpecTy::Var(n)) {
        let u = choose|u: Map<Seq<char>, SpecTy>| is_unifier(u, t, SpecTy::Var(n));
        lemma_apply_size_ge(u, n, t);
    }
}

/// Two types with different outermost constructors, neither a variable,
/// have no unifier: substitution preserves every constructor but `Var`.
proof fn lemma_heads_not_unifiable(a: SpecTy, b: SpecTy)
    requires
        heads_differ(a, b),
    ensures
        !unifiable(a, b),
{
    if unifiable(a, b) {
        let u = choose|u: Map<Seq<char>, SpecTy>| is_unifier(u, a, b);
        assert(a is Int ==> spec_apply(u, a) is Int);
        assert(a is Bool ==> spec_apply(u, a) is Bool);
        assert(a is Str ==> spec_apply(u, a) is Str);
        assert(a is Fun ==> spec_apply(u, a) is Fun);
        assert(b is Int ==> spec_apply(u, b) is Int);
        assert(b is Bool ==> spec_apply(u, b) is Bool);
        assert(b is Str ==> spec_apply(u, b) is Str);
        assert(b is Fun ==> spec_apply(u, b) is Fun);
    }
}

/// Every unifier factors through the empty substitution.
proof fn lemma_most_general_empty(a: SpecTy, b: SpecTy)
    ensures
        most_general(Map::empty(), a, b),
{
    let s = Map::<Seq<char>, SpecTy>::empty();
    assert forall|u: Map<Seq<char>, SpecTy>| #[trigger]
        is_unifier(u, a, b) implies exists|w: Map<Seq<char>, SpecTy>| factors_through(
        u,
        w,
        s,
    ) by {
        assert(factors_through(u, u, s)) by {
            assert forall|t: SpecTy| spec_apply(u, t) == spec_apply(u, #[trigger] spec_apply(s, t)) by {
                lemma_apply_empty(t);
            }
        }
    }
}

/// Under a unifier of `Var(n)` and `t2`, substituting `t2` for `n` first
/// changes nothing.
proof fn lemma_factor_singleton(u: Map<Seq<char>, SpecTy>, n: Seq<char>, t2: SpecTy, t: SpecTy)
    requires
        spec_apply(u, SpecTy::Var(n)) == spec_apply(u, t2),
    ensures
        spec_apply(u, spec_apply(Map::empty().insert(n, t2), t)) == spec_apply(u, t),
    decreases t,
{
    match t {
        SpecTy::Fun(a, b) => {
            lemma_factor_singleton(u, n, t2, *a);
            lemma_factor_singleton(u, n, t2, *b);
        },
        _ => {},
    }
}

/// Every unifier of a variable and a type it does not occur in factors
/// through the singleton binding.
proof fn lemma_most_general_singleton(n: Seq<char>, t2: SpecTy)
    requires
        !ftv(t2).contains(n),
    ensures
        most_general(Map::empty().insert(n, t2), SpecTy::Var(n), t2),
        most_general(Map::empty().insert(n, t2), t2, SpecTy::Var(n)),
{
    let s = Map::<Seq<char>, SpecTy>::empty().insert(n, t2);
    assert forall|u: Map<Seq<char>, SpecTy>| #[trigger]
        is_unifier(u, SpecTy::Var(n), t2) implies exists|w: Map<Seq<char>, SpecTy>| factors_through(
        u,
        w,
        s,
    ) by {
        assert(factors_through(u, u, s)) by {
            assert forall|t: SpecTy| spec_apply(u, t) == spec_apply(u, #[trigger] spec_apply(s, t)) by {
                lemma_factor_singleton(u, n, t2, t);
            }
        }
    }
    assert forall|u: Map<Seq<char>, SpecTy>| #[trigger]
        is_unifier(u, t2, SpecTy::Var(n)) implies exists|w: Map<Seq<char>, SpecTy>| factors_through(
        u,
        w,
        s,
    ) by {
        assert(factors_through(u, u, s)) by {
            assert forall|t: SpecTy| spec_apply(u, t) == spec_apply(u, #[trigger] spec_apply(s, t)) by {
                lemma_factor_singleton(u, n, t2, t);
            }
        }
    }
}

/// Binds the variable `n` to the type `t`: nothing to do when `t` is the
/// same variable, `InfiniteType` when `n` occurs in `t`, and the singleton
/// substitution otherwise.
fn bind(n: &String, t: &Ty) -> (r: Result<Subst, TypeError>)
    ensures
        t@ == SpecTy::Var(n@) ==> (r matches Ok(s) && s@ == Map::<Seq<char>, SpecTy>::empty()),
        t@ != SpecTy::Var(n@) && ftv(t@).contains(n@) ==> (r matches Err(e) && e@
            == SpecTypeError::Infinite(n@, t@)),
        !ftv(t@).contains(n@) ==> (r matches Ok(s) && s@ == Map::<Seq<char>, SpecTy>::empty().insert(
            n@,
            t@,
        )),
{
    let same: bool = match t {
        Ty::Var(m) => m.eq(n),
        _ => false,
    };
    if same {
        Ok(Subst::empty())
    } else if t.ftv_contains(n) {
        Err(TypeError::InfiniteType(n.clone(), t.dup()))
    } else {
        Ok(Subst::singleton(n.clone(), t.dup()))
    }
}

/// The most general unifier of two monotypes.
///
/// On success the substitution makes the two types equal, touches only their
/// variables, and is in fixed-point form. Two equal types unify with the
/// empty substitution. A variable unifies with any type it does not occur
/// in, by the singleton binding; the occurs-check turns a self-referential
/// binding into `InfiniteType` before it is ever constructed. Two types with
/// different outermost constructors (neither a variable) fail with
/// `TypeMismatch`, and every reported error is truthful in that sense.
pub fn unify(t1: &Ty, t2: &Ty) -> (r: Result<Subst, TypeError>)
    ensures
        (match r {
            Ok(s) => unify_ok(s@, t1@, t2@) && most_general(s@, t1@, t2@),
            Err(e) => !unifiable(t1@, t2@) && match e@ {
                SpecTypeError::Unbound(_) => false,
                SpecTypeError::Infinite(n, u) => ftv(u).contains(n) && u != SpecTy::Var(n),
                SpecTypeError::Mismatch(x, y) => heads_differ(x, y),
            },
        }),
        t1@ == t2@ ==> (r matches Ok(s) && s@ == Map::<Seq<char>, SpecTy>::empty()),
        (match t1@ {
            SpecTy::Var(n) => {
                &&& (t2@ != SpecTy::Var(n) && ftv(t2@).contains(n)) ==> (r matches Err(e) && e@
                    == SpecTypeError::Infinite(n, t2@))
                &&& !ftv(t2@).contains(n) ==> (r matches Ok(s) && s@ == Map::<
                    Seq<char>,
                    SpecTy,
                >::empty().insert(n, t2@))
            },
            _ => true,
        }),
        (match t2@ {
            SpecTy::Var(n) => !(t1@ is Var) ==> {
                &&& ftv(t1@).contains(n) ==> (r matches Err(e) && e@ == SpecTypeError::Infinite(
                    n,
                    t1@,
                ))
                &&& !ftv(t1@).contains(n) ==> (r matches Ok(s) && s@ == Map::<
                    Seq<char>,
                    SpecTy,
                >::empty().insert(n, t1@))
            },
            _ => true,
        }),
        heads_differ(t1@, t2@) ==> (r matches Err(e) && e@ == SpecTypeError::Mismatch(t1@, t2@)),
    decreases ftv(t1@).union(ftv(t2@)).len(), size(t1@) + size(t2@),
{
    match (t1, t2) {
        (Ty::Var(n), _) => {
            let r = bind(n, t2);
            proof {
                if t2@ == SpecTy::Var(n@) {
                    lemma_unify_empty(t1@, t2@);
                    lemma_most_general_empty(t1@, t2@);
                } else if !ftv(t2@).contains(n@) {
                    lemma_bind_ok(n@, t2@);
                    lemma_most_general_singleton(n@, t2@);
                } else {
                    lemma_occurs_not_unifiable(n@, t2@);
                }
            }
            r
        },
        (_, Ty::Var(n)) => {
            let r = bind(n, t1);
            proof {
                if t1@ == SpecTy::Var(n@) {
                    lemma_unify_empty(t1@, t2@);
                    lemma_most_general_empty(t1@, t2@);
                } else if !ftv(t1@).contains(n@) {
                    lemma_bind_ok(n@, t1@);
                    lemma_most_general_singleton(n@, t1@);
                } else {
                    lemma_occurs_not_unifiable(n@, t1@);
                }
            }
            r
        },
        (Ty::Int, Ty::Int) => {
            proof {
                lemma_unify_empty(t1@, t2@);
                lemma_most_general_empty(t1@, t2@);
            }
            Ok(Subst::empty())
        },
        (Ty::Bool, Ty::Bool) => {
            proof {
                lemma_unify_empty(t1@, t2@);
                lemma_most_general_empty(t1@, t2@);
            }
            Ok(Subst::empty())
        },
        (Ty::Str, Ty::Str) => {
            proof {
                lemma_unify_empty(t1@, t2@);
                lemma_most_general_empty(t1@, t2@);
            }
            Ok(Subst::empty())
        },
        (Ty::Fun(a1, b1), Ty::Fun(a2, b2)) => {
            proof {
                lemma_ftv_finite(t1@);
                lemma_ftv_finite(t2@);
                assert(ftv(t1@) == ftv(a1@).union(ftv(b1@)));
                assert(ftv(t2@) == ftv(a2@).union(ftv(b2@)));
                assert(ftv(a1@).union(ftv(a2@)).subset_of(ftv(t1@).union(ftv(t2@))));
                lemma_len_subset(ftv(a1@).union(ftv(a2@)), ftv(t1@).union(ftv(t2@)));
            }
            let r1 = unify(a1, a2);
            match r1 {
                Err(e) => {
                    proof {
                        assert(t1@ == SpecTy::Fun(Box::new(a1@), Box::new(b1@)));
                        assert(t2@ == SpecTy::Fun(Box::new(a2@), Box::new(b2@)));
                        if unifiable(t1@, t2@) {
                            let u = choose|u: Map<Seq<char>, SpecTy>| is_unifier(u, t1@, t2@);
                            assert(spec_apply(u, t1@) == SpecTy::Fun(
                                Box::new(spec_apply(u, a1@)),
                                Box::new(spec_apply(u, b1@)),
                            ));
                            assert(spec_apply(u, t2@) == SpecTy::Fun(
                                Box::new(spec_apply(u, a2@)),
                                Box::new(spec_apply(u, b2@)),
                            ));
                            assert(is_unifier(u, a1@, a2@));
                        }
                    }
                    Err(e)
                },
                Ok(s1) => {
                    let b1s = b1.apply(&s1);
                    let b2s = b2.apply(&s1);
                    let ghost v = ftv(t1@).union(ftv(t2@));
                    proof {
                        lemma_ftv_apply(s1@, b1@);
                        lemma_ftv_apply(s1@, b2@);
                        lemma_ftv_finite(b1s@);
                        lemma_ftv_finite(b2s@);
                        assert(ftv(b1s@).union(ftv(b2s@)).subset_of(v.difference(s1@.dom()).union(
                            range_ftv(s1@),
                        )));
                        assert(ftv(b1s@).union(ftv(b2s@)).subset_of(v));
                        lemma_len_subset(s1@.dom(), v);
                        if s1@.dom().len() == 0 {
                            assert(s1@.dom() =~= Set::<Seq<char>>::empty());
                            assert(s1@ =~= Map::<Seq<char>, SpecTy>::empty());
                            lemma_apply_empty(b1@);
                            lemma_apply_empty(b2@);
                            assert(size(b1s@) + size(b2s@) < size(t1@) + size(t2@));
                            lemma_len_subset(ftv(b1s@).union(ftv(b2s@)), v);
                        } else {
                            let x = s1@.dom().choose();
                            assert(s1@.dom().contains(x));
                            assert(!ftv(b1s@).union(ftv(b2s@)).contains(x));
                            assert(v.contains(x));
                            ftv(b1s@).union(ftv(b2s@)).lemma_subset_not_in_lt(v, x);
                        }
                    }
                    let r2 = unify(&b1s, &b2s);
                    match r2 {
                        Err(e) => {
                            proof {
                                assert(t1@ == SpecTy::Fun(Box::new(a1@), Box::new(b1@)));
                                assert(t2@ == SpecTy::Fun(Box::new(a2@), Box::new(b2@)));
                                if unifiable(t1@, t2@) {
                                    let u = choose|u: Map<Seq<char>, SpecTy>|
                                        is_unifier(u, t1@, t2@);
                                    assert(spec_apply(u, t1@) == SpecTy::Fun(
                                        Box::new(spec_apply(u, a1@)),
                                        Box::new(spec_apply(u, b1@)),
                                    ));
                                    assert(spec_apply(u, t2@) == SpecTy::Fun(
                                        Box::new(spec_apply(u, a2@)),
                                        Box::new(spec_apply(u, b2@)),
                                    ));
                                    assert(is_unifier(u, a1@, a2@));
                                    assert(exists|w: Map<Seq<char>, SpecTy>|
                                        factors_through(u, w, s1@));
                                    let w1 = choose|w: Map<Seq<char>, SpecTy>|
                                        factors_through(u, w, s1@);
                                    assert(spec_apply(u, b1@) == spec_apply(
                                        w1,
                                        spec_apply(s1@, b1@),
                                    ));
                                    assert(spec_apply(u, b2@) == spec_apply(
                                        w1,
                                        spec_apply(s1@, b2@),
                                    ));
                                    assert(is_unifier(w1, b1s@, b2s@));
                                }
                            }
                            Err(e)
                        },
                        Ok(s2) => {
                            let s = s2.compose(&s1);
                            proof {
                                lemma_compose_unify_ok(s1@, s2@, a1@, b1@, a2@, b2@);
                                assert(t1@ == SpecTy::Fun(Box::new(a1@), Box::new(b1@)));
                                assert(t2@ == SpecTy::Fun(Box::new(a2@), Box::new(b2@)));
                                if t1@ == t2@ {
                                    assert(a1@ == a2@ && b1@ == b2@);
                                    assert(s1@ == Map::<Seq<char>, SpecTy>::empty());
                                    assert(s2@ == Map::<Seq<char>, SpecTy>::empty());
                                    assert(s@ =~= Map::<Seq<char>, SpecTy>::empty());
                                }
                                assert forall|u: Map<Seq<char>, SpecTy>| #[trigger]
                                    is_unifier(u, t1@, t2@) implies exists|
                                    w: Map<Seq<char>, SpecTy>,
                                |
                                    factors_through(u, w, s@) by {
                                    assert(spec_apply(u, t1@) == SpecTy::Fun(
                                        Box::new(spec_apply(u, a1@)),
                                        Box::new(spec_apply(u, b1@)),
                                    ));
                                    assert(spec_apply(u, t2@) == SpecTy::Fun(
                                        Box::new(spec_apply(u, a2@)),
                                        Box::new(spec_apply(u, b2@)),
                                    ));
                                    assert(is_unifier(u, a1@, a2@));
                                    assert(exists|w: Map<Seq<char>, SpecTy>|
                                        factors_through(u, w, s1@));
                                    let w1 = choose|w: Map<Seq<char>, SpecTy>|
                                        factors_through(u, w, s1@);
                                    assert(spec_apply(u, b1@) == spec_apply(
                                        w1,
                                        spec_apply(s1@, b1@),
                                    ));
                                    assert(spec_apply(u, b2@) == spec_apply(
                                        w1,
                                        spec_apply(s1@, b2@),
                                    ));
                                    assert(is_unifier(w1, b1s@, b2s@));
                                    assert(exists|w: Map<Seq<char>, SpecTy>|
                                        factors_through(w1, w, s2@));
                                    let w2 = choose|w: Map<Seq<char>, SpecTy>|
                                        factors_through(w1, w, s2@);
                                    assert(factors_through(u, w2, s@)) by {
                                        assert forall|t: SpecTy|
                                            spec_apply(u, t) == spec_apply(
                                                w2,
                                                #[trigger] spec_apply(s@, t),
                                            ) by {
                                            assert(spec_apply(u, t) == spec_apply(
                                                w1,
                                                spec_apply(s1@, t),
                                            ));
                                            assert(spec_apply(w1, spec_apply(s1@, t))
                                                == spec_apply(
                                                w2,
                                                spec_apply(s2@, spec_apply(s1@, t)),
                                            ));
                                            lemma_compose_apply(s2@, s1@, t);
                                        }
                                    }
                                }
                            }
                            Ok(s)
                        },
                    }
                },
            }
        },
        _ => {
            proof {
                assert(heads_differ(t1@, t2@));
                lemma_heads_not_unifiable(t1@, t2@);
            }
            Err(TypeError::TypeMismatch(t1.dup(), t2.dup()))
        },
    }
}

} // verus!
