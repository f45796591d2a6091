//! Lowering of an implication condition into the restricted Clause grammar:
//! conjunction, negation, quantifiers, the trivial goals and atomic
//! applications are permitted; a disjunction, an implication or an
//! if-then-else at the top structural level is rejected.
use vstd::prelude::*;
use crate::ast;
use crate::ast::{Fact, FactData, fact_size};
use crate::environment::{BindV, LowerEnvironment, wilds};
use crate::error::{Error, ErrorKind, LowerResult};
use crate::goal::{
    Clause, ClauseV, clause_head_binders, clause_in_exists_v, clause_in_foralls_v, clause_view,
    clause_well_scoped, lemma_clause_in_exists_well_scoped, lemma_clause_in_foralls_well_scoped,
};
use crate::lower_application::{
    count_wildcards_v, lemma_count_wildcards_bounds, lemma_lower_terms_props, lower_app_v,
    lower_application,
};

verus! {

/// The clause an application lowers to in condition position: its `k`
/// wildcards pushed, the leaf built, and the leaf wrapped in `k` universal
/// binders (an assumption holds for every witness of its wildcards).
pub open spec fn clause_app_v(a: ast::Application, env: Seq<BindV>) -> Result<ClauseV, Error> {
    let k = count_wildcards_v(a.terms@);
    match lower_app_v(a, env + wilds(k)) {
        Ok(app) => Ok(clause_in_foralls_v(ClauseV::Leaf(app), k)),
        Err(e) => Err(e),
    }
}

/// The clause a condition fact lowers to, or the first error: a disallowed
/// top-level shape yields `IllegalClause` carrying that node's span.
pub open spec fn lower_clause_v(f: Fact, env: Seq<BindV>) -> Result<ClauseV, Error>
    decreases f,
{
    match f.data {
        FactData::True => Ok(ClauseV::True),
        FactData::False => Ok(ClauseV::False),
        FactData::And(f1, f2) => match lower_clause_v(*f1, env) {
            Ok(c1) => match lower_clause_v(*f2, env) {
                Ok(c2) => Ok(ClauseV::And(Box::new(c1), Box::new(c2))),
                Err(e) => Err(e),
            },
            Err(e) => Err(e),
        },
        FactData::Not(f1) => match lower_clause_v(*f1, env) {
            Ok(c1) => Ok(ClauseV::Not(Box::new(c1))),
            Err(e) => Err(e),
        },
        FactData::Or(_, _) => Err(Error { kind: ErrorKind::IllegalClause, span: f.span }),
        FactData::Implication(_, _) => Err(
            Error { kind: ErrorKind::IllegalClause, span: f.span },
        ),
        FactData::IfThenElse(_, _, _) => Err(
            Error { kind: ErrorKind::IllegalClause, span: f.span },
        ),
        FactData::ForAll(v, f1) => match lower_clause_v(*f1, env.push(BindV::Named(v@))) {
            Ok(c) => Ok(clause_in_foralls_v(c, 1)),
            Err(e) => Err(e),
        },
        FactData::Exists(v, f1) => match lower_clause_v(*f1, env.push(BindV::Named(v@))) {
            Ok(c) => Ok(clause_in_exists_v(c, 1)),
            Err(e) => Err(e),
        },
        FactData::Apply(a) => clause_app_v(a, env),
    }
}

pub open spec fn clause_res_view(r: LowerResult<Clause>) -> Result<ClauseV, Error> {
    match r {
        Ok(c) => Ok(clause_view(c)),
        Err(e) => Err(e),
    }
}

/// Lower a condition fact into the restricted Clause grammar against the
/// current scope stack, which is restored on every exit path.
pub fn lower_clause(f: &Fact, env: &mut LowerEnvironment) -> (r: LowerResult<Clause>)
    requires
        old(env)@.len() + fact_size(*f) <= usize::MAX,
    ensures
        final(env)@ == old(env)@,
        clause_res_view(r) == lower_clause_v(*f, old(env)@),
        r matches Ok(c) ==> clause_well_scoped(c@, old(env)@.len() as int),
        r matches Ok(c) ==> clause_head_binders(c@) <= fact_size(*f),
    decreases *f,
{
    proof {
        lemma_lower_clause_well_scoped(*f, old(env)@);
    }
    match &f.data {
        FactData::True => Ok(Clause::True),
        FactData::False => Ok(Clause::False),
        FactData::And(f1, f2) => {
            proof {
                crate::ast::lemma_fact_size_pos(**f1);
                crate::ast::lemma_fact_size_pos(**f2);
            }
            let c1 = match lower_clause(f1, env) {
                Ok(c1) => c1,
                Err(e) => {
                    return Err(e);
                },
            };
            let c2 = match lower_clause(f2, env) {
                Ok(c2) => c2,
                Err(e) => {
                    return Err(e);
                },
            };
            Ok(Clause::And(Box::new(c1), Box::new(c2)))
        },
        FactData::Not(f1) => {
            match lower_clause(f1, env) {
                Ok(c1) => Ok(Clause::Not(Box::new(c1))),
                Err(e) => Err(e),
            }
        },
        FactData::Or(_, _) => Err(Error { kind: ErrorKind::IllegalClause, span: f.span }),
        FactData::Implication(_, _) => Err(
            Error { kind: ErrorKind::IllegalClause, span: f.span },
        ),
        FactData::IfThenElse(_, _, _) => Err(
            Error { kind: ErrorKind::IllegalClause, span: f.span },
        ),
        FactData::ForAll(v, f1) => {
            env.push_bound_name(v.clone());
            let r1 = lower_clause(f1, env);
            env.pop_bound_name();
            proof {
                assert(env@ =~= old(env)@);
            }
            match r1 {
                Ok(c) => Ok(c.in_foralls(1)),
                Err(e) => Err(e),
            }
        },
        FactData::Exists(v, f1) => {
            env.push_bound_name(v.clone());
            let r1 = lower_clause(f1, env);
            env.pop_bound_name();
            proof {
                assert(env@ =~= old(env)@);
            }
            match r1 {
                Ok(c) => Ok(c.in_exists(1)),
                Err(e) => Err(e),
            }
        },
        FactData::Apply(a) => {
            let k = a.count_wildcards();
            env.push_wildcards(k);
            let r1 = lower_application(a, env);
            env.pop_wildcards(k);
            proof {
                assert(env@ =~= old(env)@);
            }
            match r1 {
                Ok(app) => Ok(Clause::Leaf(app).in_foralls(k)),
                Err(e) => Err(e),
            }
        },
    }
}

/// Whatever clause a condition lowers to is well scoped under the stack it
/// was lowered against.
pub proof fn lemma_lower_clause_well_scoped(f: Fact, env: Seq<BindV>)
    ensures
        match lower_clause_v(f, env) {
            Ok(c) => clause_well_scoped(c, env.len() as int),
            Err(_) => true,
        },
    decreases f,
{
    match f.data {
        FactData::And(f1, f2) => {
            lemma_lower_clause_well_scoped(*f1, env);
            lemma_lower_clause_well_scoped(*f2, env);
        },
        FactData::Not(f1) => {
            lemma_lower_clause_well_scoped(*f1, env);
        },
        FactData::ForAll(v, f1) => {
            lemma_lower_clause_well_scoped(*f1, env.push(BindV::Named(v@)));
            if let Ok(c) = lower_clause_v(*f1, env.push(BindV::Named(v@))) {
                lemma_clause_in_foralls_well_scoped(c, 1, env.len() as int);
            }
        },
        FactData::Exists(v, f1) => {
            lemma_lower_clause_well_scoped(*f1, env.push(BindV::Named(v@)));
            if let Ok(c) = lower_clause_v(*f1, env.push(BindV::Named(v@))) {
                lemma_clause_in_exists_well_scoped(c, 1, env.len() as int);
            }
        },
        FactData::Apply(a) => {
            lemma_clause_app_well_scoped(a, env);
        },
        _ => {},
    }
}

/// The clause an application lowers to in condition position is well
/// scoped under the stack it was lowered against.
pub proof fn lemma_clause_app_well_scoped(a: ast::Application, env: Seq<BindV>)
    ensures
        match clause_app_v(a, env) {
            Ok(c) => clause_well_scoped(c, env.len() as int),
            Err(_) => true,
        },
{
    let k = count_wildcards_v(a.terms@);
    lemma_count_wildcards_bounds(a.terms@);
    let env1 = env + wilds(k);
    lemma_lower_terms_props(a.terms@, env1, 0);
    if let Ok(app) = lower_app_v(a, env1) {
        assert forall|i: int| 0 <= i < app.args.len() implies app.args[i] < env1.len() by {
            assert(a.terms@[i] is Var || a.terms@[i] is Wildcard);
        }
        assert(crate::goal::app_well_scoped(app, env.len() + k));
        assert(clause_well_scoped(ClauseV::Leaf(app), env.len() + k));
        lemma_clause_in_foralls_well_scoped(ClauseV::Leaf(app), k, env.len() as int);
    }
}

} // verus!
