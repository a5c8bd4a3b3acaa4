//! The type environment: a mapping from term-variable names to type schemes
//! with copy-on-extend semantics, and generalization at let bindings.

use vstd::prelude::*;

use crate::error::{SpecTypeError, TypeError};
use crate::scheme::{scheme_ftv, spec_apply_scheme, Scheme, SpecScheme};
use crate::subst::Subst;
use crate::table::{lemma_pairs_map_dom, lemma_pairs_map_last_occurrence, lemma_pairs_map_push,
    pairs_map};
use crate::ty::{ftv, lemma_name_set_take, name_set, SpecTy, Ty};

verus! {

/// The free type variables of an environment: the union over all bound
/// schemes' free variables.
pub open spec fn env_ftv(m: Map<Seq<char>, SpecScheme>) -> Set<Seq<char>> {
    Set::new(
        |x: Seq<char>|
            exists|k: Seq<char>| #[trigger] m.contains_key(k) && scheme_ftv(m[k]).contains(x),
    )
}

/// Applying a substitution to an environment applies it to every scheme.
pub open spec fn spec_apply_env(
    s: Map<Seq<char>, SpecTy>,
    m: Map<Seq<char>, SpecScheme>,
) -> Map<Seq<char>, SpecScheme> {
    Map::new(|k: Seq<char>| m.contains_key(k), |k: Seq<char>| spec_apply_scheme(s, m[k]))
}

/// Generalization: quantifies every free variable of the type that is not
/// also free in the ambient environment.
pub open spec fn spec_generalize(m: Map<Seq<char>, SpecScheme>, t: SpecTy) -> SpecScheme {
    SpecScheme { vars: ftv(t).difference(env_ftv(m)), body: t }
}

/// Generalization scoping: a variable still free in the ambient environment
/// is never generalized away, so the quantifier set is disjoint from the
/// environment's free variables.
pub proof fn lemma_generalize_scoping(m: Map<Seq<char>, SpecScheme>, t: SpecTy)
    ensures
        spec_generalize(m, t).vars.disjoint(env_ftv(m)),
{
}

/// A type environment. Its model is a finite map from names to scheme
/// models; extension shadows without mutating the parent mapping.
#[derive(Debug, PartialEq, Eq)]
pub struct TypeEnv {
    entries: Vec<(String, Scheme)>,
}

impl View for TypeEnv {
    type V = Map<Seq<char>, SpecScheme>;

    closed spec fn view(&self) -> Map<Seq<char>, SpecScheme> {
        pairs_map(self.entries@)
    }
}

impl TypeEnv {
    /// Each name is bound by at most one entry, so every entry is visible in
    /// the model.
    pub closed spec fn wf(&self) -> bool {
        forall|i: int, j: int|
            0 <= i < j < self.entries@.len() ==> self.entries@[i].0@ != self.entries@[j].0@
    }

    /// The empty environment.
    pub fn new() -> (r: TypeEnv)
        ensures
            r@ == Map::<Seq<char>, SpecScheme>::empty(),
            r.wf(),
    {
        TypeEnv { entries: Vec::new() }
    }

    /// Looks a name up: the scheme it is bound to, or `UnboundVariable` when
    /// absent.
    pub fn lookup(&self, n: &String) -> (r: Result<&Scheme, TypeError>)
        ensures
            match r {
                Ok(sch) => self@.contains_key(n@) && sch@ == self@[n@],
                Err(e) => !self@.contains_key(n@) && e@ == SpecTypeError::Unbound(n@),
            },
    {
        let mut i: usize = self.entries.len();
        while i > 0
            invariant
                0 <= i <= self.entries@.len(),
                forall|j: int| i <= j < self.entries@.len() ==> self.entries@[j].0@ != n@,
            decreases i,
        {
            i = i - 1;
            if self.entries[i].0.eq(n) {
                proof {
                    lemma_pairs_map_last_occurrence(self.entries@, i as int);
                }
                return Ok(&self.entries[i].1);
            }
        }
        proof {
            lemma_pairs_map_dom(self.entries@, n@);
        }
        Err(TypeError::UnboundVariable(n.clone()))
    }

    /// Copy-on-extend: a new environment equal to this one but with `n`
    /// bound to `sch`, shadowing any prior binding of `n`; this environment
    /// is unaffected.
    pub fn extend(&self, n: String, sch: Scheme) -> (r: TypeEnv)
        requires
            self.wf(),
        ensures
            r@ == self@.insert(n@, sch@),
            r.wf(),
    {
        let mut entries: Vec<(String, Scheme)> = Vec::new();
        proof {
            assert(self.entries@.take(0) =~= Seq::<(String, Scheme)>::empty());
            assert(pairs_map(entries@) =~= pairs_map(self.entries@.take(0)).remove(n@));
        }
        let mut i: usize = 0;
        while i < self.entries.len()
            invariant
                0 <= i <= self.entries@.len(),
                self.wf(),
                pairs_map(entries@) == pairs_map(self.entries@.take(i as int)).remove(n@),
                forall|a: int| 0 <= a < entries@.len() ==> entries@[a].0@ != n@,
                forall|a: int, b: int|
                    0 <= a < b < entries@.len() ==> entries@[a].0@ != entries@[b].0@,
            decreases self.entries@.len() - i,
        {
            proof {
                lemma_pairs_map_push_take_env(self.entries@, i as int);
            }
            if !self.entries[i].0.eq(&n) {
                let entry = (self.entries[i].0.clone(), self.entries[i].1.dup());
                proof {
                    assert forall|a: int| 0 <= a < entries@.len() implies entries@[a].0@
                        != self.entries@[i as int].0@ by {
                        if entries@[a].0@ == self.entries@[i as int].0@ {
                            lemma_pairs_map_dom(entries@, entries@[a].0@);
                            assert(pairs_map(self.entries@.take(i as int)).contains_key(
                                entries@[a].0@,
                            ));
                            lemma_pairs_map_dom(self.entries@.take(i as int), entries@[a].0@);
                            let j = choose|j: int|
                                0 <= j < i && self.entries@.take(i as int)[j].0@ == entries@[a].0@;
                            assert(self.entries@[j].0@ == self.entries@[i as int].0@);
                        }
                    }
                    lemma_pairs_map_push(entries@, entry);
                }
                entries.push(entry);
            }
            proof {
                assert(pairs_map(entries@) =~= pairs_map(self.entries@.take(i as int + 1)).remove(
                    n@,
                ));
            }
            i = i + 1;
        }
        proof {
            assert(self.entries@.take(self.entries@.len() as int) =~= self.entries@);
            lemma_pairs_map_push(entries@, (n, sch));
        }
        let ghost pre = entries@;
        entries.push((n, sch));
        proof {
            assert(pairs_map(entries@) =~= self@.insert(entries@.last().0@, entries@.last().1@));
            assert forall|a: int, b: int|
                0 <= a < b < entries@.len() implies entries@[a].0@ != entries@[b].0@ by {
                if b == entries@.len() - 1 {
                    assert(pre[a] == entries@[a]);
                }
            }
        }
        TypeEnv { entries }
    }

    /// Applies a substitution to every scheme in the mapping.
    pub fn apply(&self, s: &Subst) -> (r: TypeEnv)
        ensures
            r@ == spec_apply_env(s@, self@),
            self.wf() ==> r.wf(),
    {
        let mut entries: Vec<(String, Scheme)> = Vec::new();
        proof {
            assert(self.entries@.take(0) =~= Seq::<(String, Scheme)>::empty());
            assert(pairs_map(entries@) =~= spec_apply_env(s@, pairs_map(self.entries@.take(0))));
        }
        let mut i: usize = 0;
        while i < self.entries.len()
            invariant
                0 <= i <= self.entries@.len(),
                entries@.len() == i,
                forall|a: int|
                    0 <= a < i ==> (#[trigger] entries@[a]).0@ == self.entries@[a].0@,
                pairs_map(entries@) == spec_apply_env(s@, pairs_map(self.entries@.take(i as int))),
            decreases self.entries@.len() - i,
        {
            let applied = self.entries[i].1.apply(s);
            proof {
                lemma_pairs_map_push(entries@, (self.entries@[i as int].0, applied));
                lemma_pairs_map_push_take_env(self.entries@, i as int);
            }
            entries.push((self.entries[i].0.clone(), applied));
            proof {
                assert(pairs_map(entries@) =~= spec_apply_env(
                    s@,
                    pairs_map(self.entries@.take(i as int + 1)),
                ));
            }
            i = i + 1;
        }
        proof {
            assert(self.entries@.take(self.entries@.len() as int) =~= self.entries@);
        }
        TypeEnv { entries }
    }

    /// Whether the name `n` occurs free in some scheme of the environment.
    pub fn ftv_contains(&self, n: &String) -> (r: bool)
        requires
            self.wf(),
        ensures
            r == env_ftv(self@).contains(n@),
    {
        let mut i: usize = 0;
        while i < self.entries.len()
            invariant
                0 <= i <= self.entries@.len(),
                self.wf(),
                forall|j: int|
                    0 <= j < i ==> !scheme_ftv((#[trigger] self.entries@[j]).1@).contains(n@),
            decreases self.entries@.len() - i,
        {
            if self.entries[i].1.ftv_contains(n) {
                proof {
                    lemma_pairs_map_last_occurrence(self.entries@, i as int);
                    assert(self@.contains_key(self.entries@[i as int].0@) && scheme_ftv(
                        self@[self.entries@[i as int].0@],
                    ).contains(n@));
                }
                return true;
            }
            i = i + 1;
        }
        proof {
            assert forall|k: Seq<char>| #[trigger] self@.contains_key(k) implies !scheme_ftv(
                self@[k],
            ).contains(n@) by {
                lemma_pairs_map_dom(self.entries@, k);
                let j = choose|j: int| 0 <= j < self.entries@.len() && self.entries@[j].0@ == k;
                assert forall|l: int| j < l < self.entries@.len() implies self.entries@[l].0@
                    != self.entries@[j].0@ by {}
                lemma_pairs_map_last_occurrence(self.entries@, j);
            }
        }
        false
    }
}

/// Generalization: quantifies every free variable of `t` that is not free in
/// the ambient environment, over `t` itself.
pub fn generalize(env: &TypeEnv, t: &Ty) -> (r: Scheme)
    requires
        env.wf(),
    ensures
        r@ == spec_generalize(env@, t@),
{
    let fv = t.ftv();
    let mut vars: Vec<String> = Vec::new();
    proof {
        assert(fv@.take(0) =~= Seq::<String>::empty());
        assert(name_set(vars@) =~= name_set(fv@.take(0)).difference(env_ftv(env@)));
    }
    let mut i: usize = 0;
    while i < fv.len()
        invariant
            0 <= i <= fv@.len(),
            env.wf(),
            name_set(vars@) == name_set(fv@.take(i as int)).difference(env_ftv(env@)),
        decreases fv@.len() - i,
    {
        proof {
            lemma_name_set_take(fv@, i as int);
        }
        if !env.ftv_contains(&fv[i]) {
            proof {
                assert(vars@.push(fv@[i as int]).drop_last() =~= vars@);
            }
            vars.push(fv[i].clone());
        }
        proof {
            assert(name_set(vars@) =~= name_set(fv@.take(i as int + 1)).difference(env_ftv(env@)));
        }
        i = i + 1;
    }
    proof {
        assert(fv@.take(fv@.len() as int) =~= fv@);
    }
    let r = Scheme { vars, ty: t.dup() };
    proof {
        assert(r@ =~= spec_generalize(env@, t@));
    }
    r
}

/// Taking one more entry models one more insertion.
proof fn lemma_pairs_map_push_take_env(s: Seq<(String, Scheme)>, i: int)
    requires
        0 <= i < s.len(),
    ensures
        pairs_map(s.take(i + 1)) == pairs_map(s.take(i)).insert(s[i].0@, s[i].1@),
{
    assert(s.take(i + 1).drop_last() =~= s.take(i));
    assert(s.take(i + 1).last() == s[i]);
}

} // verus!
