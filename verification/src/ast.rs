//! Expressions of the object language: variables, literals, application,
//! abstraction and let bindings, together with their mathematical model and
//! the free term variables of an expression.

use vstd::prelude::*;

verus! {

/// A literal: carries a concrete value, consumed only to fix its base type.
#[derive(Debug, PartialEq, Eq)]
pub enum Lit {
    /// An integer literal.
    Int(i64),
    /// A boolean literal.
    Bool(bool),
    /// A string literal.
    Str(String),
}

/// An expression of the object language.
#[derive(Debug, PartialEq, Eq)]
pub enum Exp {
    /// A variable reference.
    Var(String),
    /// A literal.
    Lit(Lit),
    /// An application of a function to an argument.
    App(Box<Exp>, Box<Exp>),
    /// An abstraction: a parameter name and a body.
    Abs(String, Box<Exp>),
    /// A let binding: a name, the bound expression, and the body.
    Let(String, Box<Exp>, Box<Exp>),
}

/// The mathematical model of a literal.
pub ghost enum SpecLit {
    Int(i64),
    Bool(bool),
    Str(Seq<char>),
}

/// The mathematical model of an expression.
pub ghost enum SpecExp {
    Var(Seq<char>),
    Lit(SpecLit),
    App(Box<SpecExp>, Box<SpecExp>),
    Abs(Seq<char>, Box<SpecExp>),
    Let(Seq<char>, Box<SpecExp>, Box<SpecExp>),
}

impl View for Lit {
    type V = SpecLit;

    open spec fn view(&self) -> SpecLit {
        match self {
            Lit::Int(i) => SpecLit::Int(*i),
            Lit::Bool(b) => SpecLit::Bool(*b),
            Lit::Str(s) => SpecLit::Str(s@),
        }
    }
}

/// The model of an expression value.
pub open spec fn view_exp(e: Exp) -> SpecExp
    decreases e,
{
    match e {
        Exp::Var(n) => SpecExp::Var(n@),
        Exp::Lit(l) => SpecExp::Lit(l@),
        Exp::App(f, a) => SpecExp::App(Box::new(view_exp(*f)), Box::new(view_exp(*a))),
        Exp::Abs(p, b) => SpecExp::Abs(p@, Box::new(view_exp(*b))),
        Exp::Let(n, b, c) => SpecExp::Let(n@, Box::new(view_exp(*b)), Box::new(view_exp(*c))),
    }
}

impl View for Exp {
    type V = SpecExp;

    open spec fn view(&self) -> SpecExp {
        view_exp(*self)
    }
}

/// Whether an expression holds no application node. Inference introduces no
/// constraints outside applications, so such an expression always types when
/// its free variables are bound.
pub open spec fn no_app(e: SpecExp) -> bool
    decreases e,
{
    match e {
        SpecExp::App(_, _) => false,
        SpecExp::Abs(_, b) => no_app(*b),
        SpecExp::Let(_, b, c) => no_app(*b) && no_app(*c),
        _ => true,
    }
}

/// The free term variables of an expression: an `Abs` binds its parameter in
/// its body, a `Let` binds its name in its body but not in the bound
/// expression.
pub open spec fn free_vars(e: SpecExp) -> Set<Seq<char>>
    decreases e,
{
    match e {
        SpecExp::Var(n) => Set::empty().insert(n),
        SpecExp::Lit(_) => Set::empty(),
        SpecExp::App(f, a) => free_vars(*f).union(free_vars(*a)),
        SpecExp::Abs(p, b) => free_vars(*b).remove(p),
        SpecExp::Let(n, b, c) => free_vars(*b).union(free_vars(*c).remove(n)),
    }
}

} // verus!
