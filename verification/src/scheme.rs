//! Type schemes (polytypes): a set of quantified variable names over a
//! monotype body, with capture-avoiding substitution and instantiation.

use vstd::prelude::*;

use crate::fresh::{lemma_var_name_injective, var_name, Fresh};
use crate::subst::{spec_apply, Subst};
use crate::ty::{contains_name, ftv, lemma_name_set_take, name_set, SpecTy, Ty};

verus! {

/// A type scheme: the names quantified at a let binding over a monotype body.
#[derive(Debug, PartialEq, Eq)]
pub struct Scheme {
    /// The quantified variable names.
    pub vars: Vec<String>,
    /// The monotype body.
    pub ty: Ty,
}

/// The mathematical model of a scheme: a set of quantified names and the
/// model of the body.
pub ghost struct SpecScheme {
    pub vars: Set<Seq<char>>,
    pub body: SpecTy,
}

impl View for Scheme {
    type V = SpecScheme;

    open spec fn view(&self) -> SpecScheme {
        SpecScheme { vars: name_set(self.vars@), body: self.ty@ }
    }
}

/// The free type variables of a scheme: those of the body minus the
/// quantified names.
pub open spec fn scheme_ftv(sch: SpecScheme) -> Set<Seq<char>> {
    ftv(sch.body).difference(sch.vars)
}

/// Applying a substitution to a scheme: quantified names are removed from
/// the substitution first, so bound names are never substituted.
pub open spec fn spec_apply_scheme(s: Map<Seq<char>, SpecTy>, sch: SpecScheme) -> SpecScheme {
    SpecScheme { vars: sch.vars, body: spec_apply(s.remove_keys(sch.vars), sch.body) }
}

/// A substitution instantiating exactly the names `vars`, each with a
/// generated variable whose index lies between `lo` and `hi`.
pub open spec fn fresh_instance_map(
    m: Map<Seq<char>, SpecTy>,
    vars: Set<Seq<char>>,
    lo: nat,
    hi: nat,
) -> bool {
    &&& m.dom() == vars
    &&& forall|k: Seq<char>| #[trigger]
        m.contains_key(k) ==> exists|j: nat| lo <= j <= hi && m[k] == SpecTy::Var(var_name(j))
}

/// A mapping sending distinct names to distinct types.
pub open spec fn distinct_values(m: Map<Seq<char>, SpecTy>) -> bool {
    forall|k1: Seq<char>, k2: Seq<char>|
        #![trigger m[k1], m[k2]]
        m.contains_key(k1) && m.contains_key(k2) && k1 != k2 ==> m[k1] != m[k2]
}

/// Whether a monotype is an instance of a scheme: the body with the
/// quantified names (and only those) substituted.
pub open spec fn instance_of(t: SpecTy, sch: SpecScheme) -> bool {
    exists|m: Map<Seq<char>, SpecTy>| m.dom() == sch.vars && t == spec_apply(m, sch.body)
}

impl Scheme {
    /// The scheme that quantifies nothing over `t`.
    pub fn mono(t: Ty) -> (r: Scheme)
        ensures
            r@.vars == Set::<Seq<char>>::empty(),
            r@.body == t@,
    {
        let r = Scheme { vars: Vec::new(), ty: t };
        proof {
            assert(r@.vars =~= Set::<Seq<char>>::empty());
        }
        r
    }

    /// A structural copy whose model equals this scheme's model.
    pub fn dup(&self) -> (r: Scheme)
        ensures
            r@ == self@,
    {
        let mut vars: Vec<String> = Vec::new();
        let mut i: usize = 0;
        while i < self.vars.len()
            invariant
                0 <= i <= self.vars@.len(),
                vars@ == self.vars@.take(i as int),
            decreases self.vars@.len() - i,
        {
            vars.push(self.vars[i].clone());
            proof {
                assert(vars@ =~= self.vars@.take(i as int + 1));
            }
            i = i + 1;
        }
        proof {
            assert(self.vars@.take(self.vars@.len() as int) =~= self.vars@);
        }
        Scheme { vars, ty: self.ty.dup() }
    }

    /// Whether the name `n` occurs free in this scheme.
    pub fn ftv_contains(&self, n: &String) -> (r: bool)
        ensures
            r == scheme_ftv(self@).contains(n@),
    {
        self.ty.ftv_contains(n) && !contains_name(&self.vars, n)
    }

    /// Capture-avoiding substitution: applies `s` with the quantified names
    /// removed to the body and keeps the quantifiers.
    pub fn apply(&self, s: &Subst) -> (r: Scheme)
        ensures
            r@ == spec_apply_scheme(s@, self@),
    {
        let restricted = s.remove_names(&self.vars);
        let body = self.ty.apply(&restricted);
        let mut vars: Vec<String> = Vec::new();
        let mut i: usize = 0;
        while i < self.vars.len()
            invariant
                0 <= i <= self.vars@.len(),
                vars@ == self.vars@.take(i as int),
            decreases self.vars@.len() - i,
        {
            vars.push(self.vars[i].clone());
            proof {
                assert(vars@ =~= self.vars@.take(i as int + 1));
            }
            i = i + 1;
        }
        proof {
            assert(self.vars@.take(self.vars@.len() as int) =~= self.vars@);
        }
        Scheme { vars, ty: body }
    }

    /// Instantiation: replaces every quantified variable with a freshly
    /// generated one, producing one monomorphic instance of the scheme.
    /// While the supply has headroom for every quantified name, distinct
    /// names receive distinct fresh variables.
    pub fn instantiate(&self, c: &mut Fresh) -> (r: Ty)
        ensures
            final(c)@ >= old(c)@,
            exists|m: Map<Seq<char>, SpecTy>|
                fresh_instance_map(m, self@.vars, old(c)@, final(c)@) && r@ == spec_apply(
                    m,
                    self@.body,
                ),
            instance_of(r@, self@),
            old(c)@ + self.vars@.len() <= u64::MAX ==> final(c)@ == old(c)@ + self.vars@.len()
                && exists|m: Map<Seq<char>, SpecTy>|
                fresh_instance_map(m, self@.vars, old(c)@, final(c)@) && distinct_values(m) && r@
                    == spec_apply(m, self@.body),
            final(c)@ < u64::MAX ==> old(c)@ + self.vars@.len() <= u64::MAX,
    {
        let mut s = Subst::empty();
        proof {
            assert(s@.dom() =~= name_set(self.vars@.take(0)));
        }
        let mut i: usize = 0;
        while i < self.vars.len()
            invariant
                0 <= i <= self.vars@.len(),
                c@ >= old(c)@,
                s@.dom() == name_set(self.vars@.take(i as int)),
                forall|k: Seq<char>| #[trigger]
                    s@.contains_key(k) ==> exists|j: nat|
                        old(c)@ <= j <= c@ && s@[k] == SpecTy::Var(var_name(j)),
                old(c)@ + self.vars@.len() <= u64::MAX ==> {
                    &&& c@ == old(c)@ + i
                    &&& forall|k: Seq<char>| #[trigger]
                        s@.contains_key(k) ==> exists|j: nat|
                            old(c)@ <= j < c@ && s@[k] == SpecTy::Var(var_name(j))
                    &&& distinct_values(s@)
                },
                c@ < u64::MAX ==> c@ == old(c)@ + i,
            decreases self.vars@.len() - i,
        {
            let ghost pre = c@;
            let ghost before = s@;
            let fresh_name = c.next();
            s.insert(self.vars[i].clone(), Ty::Var(fresh_name));
            proof {
                lemma_name_set_take(self.vars@, i as int);
                assert(s@.dom() =~= name_set(self.vars@.take(i as int + 1)));
                assert forall|k: Seq<char>| #[trigger] s@.contains_key(k) implies exists|j: nat|
                    old(c)@ <= j <= c@ && s@[k] == SpecTy::Var(var_name(j)) by {
                    if k == self.vars@[i as int]@ {
                        assert(old(c)@ <= pre <= c@ && s@[k] == SpecTy::Var(var_name(pre)));
                    }
                }
                if old(c)@ + self.vars@.len() <= u64::MAX {
                    assert(pre < u64::MAX);
                    assert(c@ == pre + 1);
                    let ghost key_i = self.vars@[i as int]@;
                    assert forall|k: Seq<char>| #[trigger] s@.contains_key(k) implies exists|
                        j: nat,
                    |
                        old(c)@ <= j < c@ && s@[k] == SpecTy::Var(var_name(j)) by {
                        if k == key_i {
                            assert(old(c)@ <= pre < c@ && s@[k] == SpecTy::Var(var_name(pre)));
                        } else {
                            let j = choose|j: nat|
                                old(c)@ <= j < pre && before[k] == SpecTy::Var(var_name(j));
                            assert(old(c)@ <= j < c@ && s@[k] == SpecTy::Var(var_name(j)));
                        }
                    }
                    assert forall|k1: Seq<char>, k2: Seq<char>|
                        #![trigger s@[k1], s@[k2]]
                        s@.contains_key(k1) && s@.contains_key(k2) && k1 != k2 implies s@[k1]
                        != s@[k2] by {
                        if k1 == key_i || k2 == key_i {
                            let other = if k1 == key_i {
                                k2
                            } else {
                                k1
                            };
                            let j = choose|j: nat|
                                old(c)@ <= j < pre && before[other] == SpecTy::Var(var_name(j));
                            if s@[k1] == s@[k2] {
                                lemma_var_name_injective(j, pre);
                            }
                        }
                    }
                }
            }
            i = i + 1;
        }
        proof {
            assert(self.vars@.take(self.vars@.len() as int) =~= self.vars@);
        }
        let r = self.ty.apply(&s);
        proof {
            assert(fresh_instance_map(s@, self@.vars, old(c)@, c@));
        }
        r
    }
}

} // verus!
