//! Surface syntax: the fact/goal tree produced by the parser.
use vstd::prelude::*;

verus! {

/// A half-open range `[lo, hi)` of character positions in the source text.
#[derive(Clone, Copy, PartialEq, Eq, Structural, Debug)]
pub struct Span {
    pub lo: usize,
    pub hi: usize,
}

impl Span {
    pub fn new(lo: usize, hi: usize) -> (s: Span)
        ensures
            s == (Span { lo, hi }),
    {
        Span { lo, hi }
    }
}

/// One argument of an atomic application: a named variable `?X`
/// (with the span of its occurrence) or the anonymous wildcard `_`.
#[derive(Debug)]
pub enum Term {
    Var(Span, String),
    Wildcard,
}

/// An atomic predicate application, e.g. `Foo(?X, _, ?Y)`.
#[derive(Debug)]
pub struct Application {
    pub span: Span,
    pub name: String,
    pub terms: Vec<Term>,
}

/// A surface fact (goal expression).
#[derive(Debug)]
pub struct Fact {
    pub span: Span,
    pub data: FactData,
}

#[derive(Debug)]
pub enum FactData {
    True,
    False,
    And(Box<Fact>, Box<Fact>),
    Or(Box<Fact>, Box<Fact>),
    Not(Box<Fact>),
    Implication(Box<Fact>, Box<Fact>),
    ForAll(String, Box<Fact>),
    Exists(String, Box<Fact>),
    IfThenElse(Box<Fact>, Box<Fact>, Box<Fact>),
    Apply(Application),
}

/// One program item: a head application with an optional rule body,
/// written `Head.` or `Head :- Body.` in the surface text.
#[derive(Debug)]
pub struct Item {
    pub span: Span,
    pub head: Application,
    pub body: Option<Fact>,
}

#[derive(Debug)]
pub struct Program {
    pub items: Vec<Item>,
}

/// Structural size of a fact; binder nodes count double so that the size
/// bounds both the scope-stack growth and the binder counts a lowering
/// can accumulate.
pub open spec fn fact_size(f: Fact) -> int
    decreases f,
{
    match f.data {
        FactData::True => 1,
        FactData::False => 1,
        FactData::And(f1, f2) => 1 + fact_size(*f1) + fact_size(*f2),
        FactData::Or(f1, f2) => 1 + fact_size(*f1) + fact_size(*f2),
        FactData::Not(f1) => 1 + fact_size(*f1),
        FactData::Implication(f1, f2) => 1 + fact_size(*f1) + fact_size(*f2),
        FactData::ForAll(_, f1) => 2 + fact_size(*f1),
        FactData::Exists(_, f1) => 2 + fact_size(*f1),
        FactData::IfThenElse(c, t, e) => 1 + fact_size(*c) + fact_size(*t) + fact_size(*e),
        FactData::Apply(a) => 1 + a.terms@.len() as int,
    }
}

pub proof fn lemma_fact_size_pos(f: Fact)
    ensures
        fact_size(f) >= 1,
    decreases f,
{
    match f.data {
        FactData::And(f1, f2) => {
            lemma_fact_size_pos(*f1);
            lemma_fact_size_pos(*f2);
        },
        FactData::Or(f1, f2) => {
            lemma_fact_size_pos(*f1);
            lemma_fact_size_pos(*f2);
        },
        FactData::Not(f1) => {
            lemma_fact_size_pos(*f1);
        },
        FactData::Implication(f1, f2) => {
            lemma_fact_size_pos(*f1);
            lemma_fact_size_pos(*f2);
        },
        FactData::ForAll(_, f1) => {
            lemma_fact_size_pos(*f1);
        },
        FactData::Exists(_, f1) => {
            lemma_fact_size_pos(*f1);
        },
        FactData::IfThenElse(c, t, e) => {
            lemma_fact_size_pos(*c);
            lemma_fact_size_pos(*t);
            lemma_fact_size_pos(*e);
        },
        _ => {},
    }
}

} // verus!
