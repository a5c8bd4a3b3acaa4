//! Substitutions: finite mappings from type-variable names to monotypes,
//! their application to types, and composition, together with the algebraic
//! laws the rest of the engine relies on.

use vstd::prelude::*;

use crate::table::{lemma_pairs_map_dom, lemma_pairs_map_last_occurrence, lemma_pairs_map_push,
    pairs_map};
use crate::ty::{ftv, SpecTy, Ty};

verus! {

/// Applying a substitution to a monotype model: a bound `Var` becomes its
/// image, a `Fun` is rewritten on both sides, anything else is unchanged.
pub open spec fn spec_apply(s: Map<Seq<char>, SpecTy>, t: SpecTy) -> SpecTy
    decreases t,
{
    match t {
        SpecTy::Var(n) => if s.contains_key(n) {
            s[n]
        } else {
            SpecTy::Var(n)
        },
        SpecTy::Fun(a, b) => SpecTy::Fun(
            Box::new(spec_apply(s, *a)),
            Box::new(spec_apply(s, *b)),
        ),
        _ => t,
    }
}

/// The composition "apply `s2`, then `s1`": every variable of `s2`'s domain
/// maps to `s1` applied to its image under `s2`, and `s1`'s mappings are kept
/// for the remaining keys.
pub open spec fn spec_compose(
    s1: Map<Seq<char>, SpecTy>,
    s2: Map<Seq<char>, SpecTy>,
) -> Map<Seq<char>, SpecTy> {
    Map::new(
        |k: Seq<char>| s1.contains_key(k) || s2.contains_key(k),
        |k: Seq<char>|
            if s2.contains_key(k) {
                spec_apply(s1, s2[k])
            } else {
                s1[k]
            },
    )
}

/// The free variables of a substitution's range.
pub open spec fn range_ftv(s: Map<Seq<char>, SpecTy>) -> Set<Seq<char>> {
    Set::new(|x: Seq<char>| exists|k: Seq<char>| s.contains_key(k) && ftv(s[k]).contains(x))
}

/// A substitution in fixed-point form: no key occurs free in any type of the
/// range, so applying it a second time changes nothing.
pub open spec fn fixed_point(s: Map<Seq<char>, SpecTy>) -> bool {
    s.dom().disjoint(range_ftv(s))
}

/// Applying the empty substitution leaves any type unchanged.
pub proof fn lemma_apply_empty(t: SpecTy)
    ensures
        spec_apply(Map::empty(), t) == t,
    decreases t,
{
    match t {
        SpecTy::Fun(a, b) => {
            lemma_apply_empty(*a);
            lemma_apply_empty(*b);
        },
        _ => {},
    }
}

/// A substitution whose domain avoids every free variable of `t` leaves `t`
/// unchanged.
pub proof fn lemma_apply_disjoint(s: Map<Seq<char>, SpecTy>, t: SpecTy)
    requires
        s.dom().disjoint(ftv(t)),
    ensures
        spec_apply(s, t) == t,
    decreases t,
{
    match t {
        SpecTy::Var(n) => {
            assert(ftv(t).contains(n));
        },
        SpecTy::Fun(a, b) => {
            assert(ftv(t) == ftv(*a).union(ftv(*b)));
            assert(s.dom().disjoint(ftv(*a)));
            assert(s.dom().disjoint(ftv(*b)));
            lemma_apply_disjoint(s, *a);
            lemma_apply_disjoint(s, *b);
        },
        _ => {},
    }
}

/// Idempotence: applying a fixed-point substitution twice is the same as
/// applying it once.
pub proof fn lemma_apply_idempotent(s: Map<Seq<char>, SpecTy>, t: SpecTy)
    requires
        fixed_point(s),
    ensures
        spec_apply(s, spec_apply(s, t)) == spec_apply(s, t),
    decreases t,
{
    match t {
        SpecTy::Var(n) => {
            if s.contains_key(n) {
                assert(s.dom().disjoint(ftv(s[n]))) by {
                    assert forall|x: Seq<char>| ftv(s[n]).contains(x) implies !s.dom().contains(
                        x,
                    ) by {
                        assert(range_ftv(s).contains(x));
                    }
                }
                lemma_apply_disjoint(s, s[n]);
            }
        },
        SpecTy::Fun(a, b) => {
            lemma_apply_idempotent(s, *a);
            lemma_apply_idempotent(s, *b);
        },
        _ => {},
    }
}

/// The composition law: applying `compose(s1, s2)` is applying `s2` and then
/// `s1`.
pub proof fn lemma_compose_apply(
    s1: Map<Seq<char>, SpecTy>,
    s2: Map<Seq<char>, SpecTy>,
    t: SpecTy,
)
    ensures
        spec_apply(spec_compose(s1, s2), t) == spec_apply(s1, spec_apply(s2, t)),
    decreases t,
{
    match t {
        SpecTy::Fun(a, b) => {
            lemma_compose_apply(s1, s2, *a);
            lemma_compose_apply(s1, s2, *b);
        },
        _ => {},
    }
}

/// The free variables of `spec_apply(s, t)` come from the unsubstituted free
/// variables of `t` or from the range of `s`.
pub proof fn lemma_ftv_apply(s: Map<Seq<char>, SpecTy>, t: SpecTy)
    ensures
        ftv(spec_apply(s, t)).subset_of(ftv(t).difference(s.dom()).union(range_ftv(s))),
    decreases t,
{
    match t {
        SpecTy::Var(n) => {
            if s.contains_key(n) {
                assert forall|x: Seq<char>| ftv(s[n]).contains(x) implies range_ftv(s).contains(
                    x,
                ) by {}
            }
        },
        SpecTy::Fun(a, b) => {
            lemma_ftv_apply(s, *a);
            lemma_ftv_apply(s, *b);
        },
        _ => {},
    }
}

/// A substitution: a finite mapping from type-variable names to monotypes.
/// Its model is the map denoted by the entry list; a later entry for a name
/// shadows an earlier one.
#[derive(Debug, PartialEq, Eq)]
pub struct Subst {
    entries: Vec<(String, Ty)>,
}

impl View for Subst {
    type V = Map<Seq<char>, SpecTy>;

    closed spec fn view(&self) -> Map<Seq<char>, SpecTy> {
        pairs_map(self.entries@)
    }
}

impl Subst {
    /// The empty substitution.
    pub fn empty() -> (r: Subst)
        ensures
            r@ == Map::<Seq<char>, SpecTy>::empty(),
    {
        Subst { entries: Vec::new() }
    }

    /// The substitution that maps `n` to `t` and nothing else.
    pub fn singleton(n: String, t: Ty) -> (r: Subst)
        ensures
            r@ == Map::<Seq<char>, SpecTy>::empty().insert(n@, t@),
    {
        let mut entries: Vec<(String, Ty)> = Vec::new();
        entries.push((n, t));
        proof {
            lemma_pairs_map_push(entries@.drop_last(), entries@.last());
            assert(entries@.drop_last() =~= Seq::<(String, Ty)>::empty());
        }
        Subst { entries }
    }

    /// Adds the mapping `n -> t`, shadowing any earlier mapping of `n`.
    pub fn insert(&mut self, n: String, t: Ty)
        ensures
            final(self)@ == old(self)@.insert(n@, t@),
    {
        proof {
            lemma_pairs_map_push(self.entries@, (n, t));
        }
        self.entries.push((n, t));
    }

    /// Looks a name up: `Some` of its image when bound, `None` otherwise.
    pub fn get(&self, n: &String) -> (r: Option<&Ty>)
        ensures
            match r {
                Some(t) => self@.contains_key(n@) && t@ == self@[n@],
                None => !self@.contains_key(n@),
            },
    {
        let mut i: usize = self.entries.len();
        while i > 0
            invariant
                0 <= i <= self.entries.len(),
                forall|j: int| i <= j < self.entries@.len() ==> self.entries@[j].0@ != n@,
            decreases i,
        {
            i = i - 1;
            if self.entries[i].0.eq(n) {
                proof {
                    lemma_pairs_map_last_occurrence(self.entries@, i as int);
                }
                return Some(&self.entries[i].1);
            }
        }
        proof {
            lemma_pairs_map_dom(self.entries@, n@);
        }
        None
    }

    /// The substitution restricted to names outside the given list: every
    /// mapping whose key is in the list is dropped.
    pub fn remove_names(&self, names: &Vec<String>) -> (r: Subst)
        ensures
            r@ == self@.remove_keys(crate::ty::name_set(names@)),
    {
        let ghost keys = crate::ty::name_set(names@);
        let mut entries: Vec<(String, Ty)> = Vec::new();
        proof {
            assert(pairs_map(entries@) =~= pairs_map(self.entries@.take(0)).remove_keys(keys)) by {
                assert(self.entries@.take(0) =~= Seq::<(String, Ty)>::empty());
                assert(entries@ =~= Seq::<(String, Ty)>::empty());
            }
        }
        let mut i: usize = 0;
        while i < self.entries.len()
            invariant
                0 <= i <= self.entries@.len(),
                pairs_map(entries@) == pairs_map(self.entries@.take(i as int)).remove_keys(keys),
                keys == crate::ty::name_set(names@),
            decreases self.entries@.len() - i,
        {
            proof {
                lemma_pairs_map_push_take(self.entries@, i as int);
            }
            if !crate::ty::contains_name(names, &self.entries[i].0) {
                proof {
                    lemma_pairs_map_push(entries@, self.entries@[i as int]);
                }
                entries.push((self.entries[i].0.clone(), self.entries[i].1.dup()));
            }
            proof {
                assert(pairs_map(entries@) =~= pairs_map(
                    self.entries@.take(i as int + 1),
                ).remove_keys(keys));
            }
            i = i + 1;
        }
        proof {
            assert(self.entries@.take(self.entries@.len() as int) =~= self.entries@);
        }
        Subst { entries }
    }

    /// The composition "apply `other`, then `self`": maps every variable of
    /// `other`'s domain to `self` applied to its image, and keeps `self`'s
    /// mappings for the remaining keys.
    pub fn compose(&self, other: &Subst) -> (r: Subst)
        ensures
            r@ == spec_compose(self@, other@),
    {
        let mut entries: Vec<(String, Ty)> = Vec::new();
        let mut i: usize = 0;
        while i < self.entries.len()
            invariant
                0 <= i <= self.entries@.len(),
                entries@ == self.entries@.take(i as int),
            decreases self.entries@.len() - i,
        {
            entries.push((self.entries[i].0.clone(), self.entries[i].1.dup()));
            proof {
                assert(entries@ =~= self.entries@.take(i as int + 1));
            }
            i = i + 1;
        }
        proof {
            assert(self.entries@.take(self.entries@.len() as int) =~= self.entries@);
        }
        let ghost base = self@;
        proof {
            assert(pairs_map(entries@) =~= compose_partial(
                base,
                pairs_map(other.entries@.take(0)),
            )) by {
                assert(other.entries@.take(0) =~= Seq::<(String, Ty)>::empty());
            }
        }
        let mut i: usize = 0;
        while i < other.entries.len()
            invariant
                0 <= i <= other.entries@.len(),
                base == self@,
                pairs_map(entries@) == compose_partial(base, pairs_map(other.entries@.take(i as int))),
            decreases other.entries@.len() - i,
        {
            let t = other.entries[i].1.apply(self);
            proof {
                lemma_pairs_map_push(entries@, (other.entries@[i as int].0, t));
                lemma_pairs_map_push_take(other.entries@, i as int);
            }
            entries.push((other.entries[i].0.clone(), t));
            proof {
                assert(pairs_map(entries@) =~= compose_partial(
                    base,
                    pairs_map(other.entries@.take(i as int + 1)),
                ));
            }
            i = i + 1;
        }
        proof {
            assert(other.entries@.take(other.entries@.len() as int) =~= other.entries@);
            assert(pairs_map(entries@) =~= spec_compose(base, other@));
        }
        Subst { entries }
    }
}

/// The composition of a map with a partially-read entry list.
spec fn compose_partial(
    s1: Map<Seq<char>, SpecTy>,
    p: Map<Seq<char>, SpecTy>,
) -> Map<Seq<char>, SpecTy> {
    Map::new(
        |k: Seq<char>| s1.contains_key(k) || p.contains_key(k),
        |k: Seq<char>|
            if p.contains_key(k) {
                spec_apply(s1, p[k])
            } else {
                s1[k]
            },
    )
}

/// Taking one more entry models one more insertion.
proof fn lemma_pairs_map_push_take<V: View>(s: Seq<(String, V)>, i: int)
    requires
        0 <= i < s.len(),
    ensures
        pairs_map(s.take(i + 1)) == pairs_map(s.take(i)).insert(s[i].0@, s[i].1@),
{
    assert(s.take(i + 1).drop_last() =~= s.take(i));
    assert(s.take(i + 1).last() == s[i]);
}

} // verus!
