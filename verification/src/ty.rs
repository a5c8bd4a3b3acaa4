//! Monotypes: the type language of the inference engine, its mathematical
//! model, free type variables, and substitution application.

use vstd::prelude::*;

use crate::subst::Subst;

verus! {

/// A monotype: a type variable, a base type, or a function type.
#[derive(Debug, PartialEq, Eq)]
pub enum Ty {
    /// A type variable, either written by the caller or generated fresh.
    Var(String),
    /// The type of integer literals.
    Int,
    /// The type of boolean literals.
    Bool,
    /// The type of string literals.
    Str,
    /// A function type: domain and codomain.
    Fun(Box<Ty>, Box<Ty>),
}

/// The mathematical model of a monotype: variable names are character
/// sequences, everything else mirrors `Ty` structurally.
pub ghost enum SpecTy {
    Var(Seq<char>),
    Int,
    Bool,
    Str,
    Fun(Box<SpecTy>, Box<SpecTy>),
}

/// The model of a `Ty` value.
pub open spec fn view_ty(t: Ty) -> SpecTy
    decreases t,
{
    match t {
        Ty::Var(n) => SpecTy::Var(n@),
        Ty::Int => SpecTy::Int,
        Ty::Bool => SpecTy::Bool,
        Ty::Str => SpecTy::Str,
        Ty::Fun(a, b) => SpecTy::Fun(Box::new(view_ty(*a)), Box::new(view_ty(*b))),
    }
}

impl View for Ty {
    type V = SpecTy;

    open spec fn view(&self) -> SpecTy {
        view_ty(*self)
    }
}

/// The set of free type variables of a monotype: a `Var` contributes its
/// name, base types contribute nothing, a `Fun` contributes both sides.
pub open spec fn ftv(t: SpecTy) -> Set<Seq<char>>
    decreases t,
{
    match t {
        SpecTy::Var(n) => Set::empty().insert(n),
        SpecTy::Fun(a, b) => ftv(*a).union(ftv(*b)),
        _ => Set::empty(),
    }
}

/// The structural size of a monotype, used as a termination measure.
pub open spec fn size(t: SpecTy) -> nat
    decreases t,
{
    match t {
        SpecTy::Fun(a, b) => 1 + size(*a) + size(*b),
        _ => 1,
    }
}

/// The set of free type variables is always finite.
pub proof fn lemma_ftv_finite(t: SpecTy)
    ensures
        ftv(t).finite(),
    decreases t,
{
    match t {
        SpecTy::Fun(a, b) => {
            lemma_ftv_finite(*a);
            lemma_ftv_finite(*b);
        },
        _ => {},
    }
}

/// The set of names denoted by a sequence of `String`s.
pub open spec fn name_set(s: Seq<String>) -> Set<Seq<char>>
    decreases s.len(),
{
    if s.len() == 0 {
        Set::empty()
    } else {
        name_set(s.drop_last()).insert(s.last()@)
    }
}

/// A name is in the set exactly when some element denotes it.
pub proof fn lemma_name_set_dom(s: Seq<String>, x: Seq<char>)
    ensures
        name_set(s).contains(x) <==> exists|i: int| 0 <= i < s.len() && s[i]@ == x,
    decreases s.len(),
{
    if s.len() > 0 {
        lemma_name_set_dom(s.drop_last(), x);
        if s.last()@ == x {
            assert(s[s.len() - 1]@ == x);
        } else if name_set(s).contains(x) {
            let i = choose|i: int| 0 <= i < s.drop_last().len() && s.drop_last()[i]@ == x;
            assert(s[i]@ == x);
        } else if exists|i: int| 0 <= i < s.len() && s[i]@ == x {
            let i = choose|i: int| 0 <= i < s.len() && s[i]@ == x;
            assert(s.drop_last()[i]@ == x);
        }
    }
}

/// Taking one more name denotes one more insertion.
pub proof fn lemma_name_set_take(s: Seq<String>, i: int)
    requires
        0 <= i < s.len(),
    ensures
        name_set(s.take(i + 1)) == name_set(s.take(i)).insert(s[i]@),
{
    assert(s.take(i + 1).drop_last() =~= s.take(i));
    assert(s.take(i + 1).last() == s[i]);
}

/// Whether a name occurs in a list of names.
pub fn contains_name(v: &Vec<String>, n: &String) -> (r: bool)
    ensures
        r == name_set(v@).contains(n@),
{
    proof {
        lemma_name_set_dom(v@, n@);
    }
    let mut i: usize = 0;
    while i < v.len()
        invariant
            0 <= i <= v@.len(),
            forall|j: int| 0 <= j < i ==> v@[j]@ != n@,
            name_set(v@).contains(n@) <==> exists|j: int| 0 <= j < v@.len() && v@[j]@ == n@,
        decreases v@.len() - i,
    {
        if v[i].eq(n) {
            return true;
        }
        i = i + 1;
    }
    false
}

impl Ty {
    /// A structural copy, equal to this type.
    pub fn dup(&self) -> (r: Ty)
        ensures
            r == *self,
        decreases self,
    {
        match self {
            Ty::Var(n) => Ty::Var(n.clone()),
            Ty::Int => Ty::Int,
            Ty::Bool => Ty::Bool,
            Ty::Str => Ty::Str,
            Ty::Fun(a, b) => Ty::Fun(Box::new(a.dup()), Box::new(b.dup())),
        }
    }

    /// Whether the name `n` occurs free in this type: the occurs-check.
    pub fn ftv_contains(&self, n: &String) -> (r: bool)
        ensures
            r == ftv(self@).contains(n@),
        decreases self,
    {
        match self {
            Ty::Var(m) => m.eq(n),
            Ty::Fun(a, b) => a.ftv_contains(n) || b.ftv_contains(n),
            _ => false,
        }
    }

    /// The free type variables of this type, as a list of names; the list
    /// denotes exactly `ftv` of the model.
    pub fn ftv(&self) -> (r: Vec<String>)
        ensures
            name_set(r@) == ftv(self@),
        decreases self,
    {
        match self {
            Ty::Var(n) => {
                let mut r: Vec<String> = Vec::new();
                r.push(n.clone());
                proof {
                    assert(r@.len() == 1);
                    assert(r@.drop_last() =~= Seq::<String>::empty());
                    assert(name_set(r@.drop_last()) =~= Set::<Seq<char>>::empty());
                    assert(name_set(r@) == name_set(r@.drop_last()).insert(r@.last()@));
                    assert(r@.last()@ == n@);
                    assert(ftv(self@) == Set::empty().insert(n@));
                    assert(name_set(r@) =~= ftv(self@));
                }
                r
            },
            Ty::Fun(a, b) => {
                let mut r = a.ftv();
                let rb = b.ftv();
                let ghost ra = r@;
                proof {
                    assert(rb@.take(0) =~= Seq::<String>::empty());
                    assert(name_set(ra).union(name_set(rb@.take(0))) =~= name_set(ra));
                }
                let mut i: usize = 0;
                while i < rb.len()
                    invariant
                        0 <= i <= rb@.len(),
                        name_set(r@) == name_set(ra).union(name_set(rb@.take(i as int))),
                    decreases rb@.len() - i,
                {
                    proof {
                        lemma_name_set_take(rb@, i as int);
                        assert(r@.push(rb@[i as int]).drop_last() =~= r@);
                    }
                    r.push(rb[i].clone());
                    proof {
                        assert(name_set(r@) =~= name_set(ra).union(
                            name_set(rb@.take(i as int + 1)),
                        ));
                    }
                    i = i + 1;
                }
                proof {
                    assert(rb@.take(rb@.len() as int) =~= rb@);
                    assert(self@ == SpecTy::Fun(Box::new(a@), Box::new(b@)));
                    assert(ftv(self@) == ftv(a@).union(ftv(b@)));
                    assert(name_set(r@) =~= ftv(self@));
                }
                r
            },
            _ => {
                let r: Vec<String> = Vec::new();
                proof {
                    assert(name_set(r@) =~= ftv(self@));
                }
                r
            },
        }
    }

    /// Substitution application: a `Var` bound in `s` is replaced by its
    /// image, a `Fun` is rewritten on both sides, anything else is unchanged.
    pub fn apply(&self, s: &Subst) -> (r: Ty)
        ensures
            r@ == crate::subst::spec_apply(s@, self@),
        decreases self,
    {
        match self {
            Ty::Var(n) => {
                match s.get(n) {
                    Some(t) => t.dup(),
                    None => Ty::Var(n.clone()),
                }
            },
            Ty::Fun(a, b) => Ty::Fun(Box::new(a.apply(s)), Box::new(b.apply(s))),
            Ty::Int => Ty::Int,
            Ty::Bool => Ty::Bool,
            Ty::Str => Ty::Str,
        }
    }
}

} // verus!
