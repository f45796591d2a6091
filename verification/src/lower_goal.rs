//! The goal translator: the recursive descent from a surface fact to the
//! canonical Goal, in strict left-to-right, condition-then-consequence
//! order, with the scope stack restored on every exit path.
use vstd::prelude::*;
use crate::ast;
use crate::ast::{Fact, FactData, fact_size, lemma_fact_size_pos};
use crate::environment::{BindV, LowerEnvironment};
use crate::error::{Error, ErrorKind, LowerResult};
use crate::goal::{
    Goal, GoalV, goal_head_binders, goal_well_scoped, in_exists_v, in_foralls_v,
    lemma_in_exists_well_scoped, lemma_in_foralls_well_scoped,
};
use crate::lower_application::{
    app_goal_v, goal_res_view, lemma_app_goal_well_scoped, lower_application,
};
use crate::lower_clause::{lemma_lower_clause_well_scoped, lower_clause, lower_clause_v};

verus! {

/// The goal a surface fact lowers to against the stack `env`, or the first
/// error encountered in left-to-right, condition-first traversal order.
pub open spec fn lower_fact_v(f: Fact, env: Seq<BindV>) -> Result<GoalV, Error>
    decreases f,
{
    match f.data {
        FactData::True => Ok(GoalV::True),
        FactData::False => Ok(GoalV::False),
        FactData::And(f1, f2) => match lower_fact_v(*f1, env) {
            Ok(c1) => match lower_fact_v(*f2, env) {
                Ok(c2) => Ok(GoalV::And(Box::new(c1), Box::new(c2))),
                Err(e) => Err(e),
            },
            Err(e) => Err(e),
        },
        FactData::Or(f1, f2) => match lower_fact_v(*f1, env) {
            Ok(c1) => match lower_fact_v(*f2, env) {
                Ok(c2) => Ok(GoalV::Or(Box::new(c1), Box::new(c2))),
                Err(e) => Err(e),
            },
            Err(e) => Err(e),
        },
        FactData::Not(f1) => match lower_fact_v(*f1, env) {
            Ok(c1) => Ok(GoalV::Not(Box::new(c1))),
            Err(e) => Err(e),
        },
        FactData::Implication(f1, f2) => match lower_clause_v(*f1, env) {
            Ok(condition) => match lower_fact_v(*f2, env) {
                Ok(consequence) => Ok(GoalV::Implication(
                    Box::new(condition),
                    Box::new(consequence),
                )),
                Err(e) => Err(e),
            },
            Err(e) => Err(e),
        },
        FactData::ForAll(v, f1) => match lower_fact_v(*f1, env.push(BindV::Named(v@))) {
            Ok(c) => Ok(in_foralls_v(c, 1)),
            Err(e) => Err(e),
        },
        FactData::Exists(v, f1) => match lower_fact_v(*f1, env.push(BindV::Named(v@))) {
            Ok(c) => Ok(in_exists_v(c, 1)),
            Err(e) => Err(e),
        },
        FactData::IfThenElse(c, t, e) => match lower_fact_v(*c, env) {
            Ok(gc) => match lower_fact_v(*t, env) {
                Ok(gt) => match lower_fact_v(*e, env) {
                    Ok(ge) => Ok(GoalV::IfThenElse(Box::new(gc), Box::new(gt), Box::new(ge))),
                    Err(e1) => Err(e1),
                },
                Err(e1) => Err(e1),
            },
            Err(e1) => Err(e1),
        },
        FactData::Apply(a) => app_goal_v(a, env),
    }
}

/// Anything whose lowering yields a goal: a full fact, or a bare
/// application in head position.
pub trait LowerGoal {
    /// Structural size of the node, bounding the scope-stack growth and
    /// the binder counts its lowering can accumulate.
    spec fn lower_size(&self) -> int;

    /// What the lowering yields against the stack `env`: the canonical
    /// goal, or the first error in traversal order.
    spec fn lowered(&self, env: Seq<BindV>) -> Result<GoalV, Error>;

    /// Lower this node to a fully scoped canonical Goal against the
    /// current scope stack, which is restored on every exit path.
    fn lower_goal(&self, env: &mut LowerEnvironment) -> (r: LowerResult<Goal>)
        requires
            old(env)@.len() + self.lower_size() <= usize::MAX,
        ensures
            final(env)@ == old(env)@,
            goal_res_view(r) == self.lowered(old(env)@),
            r matches Ok(g) ==> goal_well_scoped(g@, old(env)@.len() as int),
            r matches Ok(g) ==> goal_head_binders(g@) <= self.lower_size(),
    ;
}

impl LowerGoal for ast::Application {
    open spec fn lower_size(&self) -> int {
        1 + self.terms@.len() as int
    }

    open spec fn lowered(&self, env: Seq<BindV>) -> Result<GoalV, Error> {
        app_goal_v(*self, env)
    }

    /// Collect the wildcards, bring them into scope, lower the application,
    /// and wrap the leaf in the wildcards' own existential binder.
    fn lower_goal(&self, env: &mut LowerEnvironment) -> (r: LowerResult<Goal>) {
        let k = self.count_wildcards();
        env.push_wildcards(k);
        let r1 = lower_application(self, env);
        env.pop_wildcards(k);
        proof {
            assert(env@ =~= old(env)@);
            lemma_app_goal_well_scoped(*self, old(env)@);
        }
        match r1 {
            Ok(application) => Ok(Goal::Leaf(application).in_exists(k)),
            Err(e) => Err(e),
        }
    }
}

impl LowerGoal for Fact {
    open spec fn lower_size(&self) -> int {
        fact_size(*self)
    }

    open spec fn lowered(&self, env: Seq<BindV>) -> Result<GoalV, Error> {
        lower_fact_v(*self, env)
    }

    fn lower_goal(&self, env: &mut LowerEnvironment) -> (r: LowerResult<Goal>) {
        lower_fact(self, env)
    }
}

/// Lower a surface fact to a canonical Goal against the current scope
/// stack, which is restored on every exit path, also when an error from a
/// sub-lowering propagates.
pub fn lower_fact(f: &Fact, env: &mut LowerEnvironment) -> (r: LowerResult<Goal>)
    requires
        old(env)@.len() + fact_size(*f) <= usize::MAX,
    ensures
        final(env)@ == old(env)@,
        goal_res_view(r) == lower_fact_v(*f, old(env)@),
        r matches Ok(g) ==> goal_well_scoped(g@, old(env)@.len() as int),
        r matches Ok(g) ==> goal_head_binders(g@) <= fact_size(*f),
    decreases *f,
{
    proof {
        lemma_lower_fact_well_scoped(*f, old(env)@);
    }
    match &f.data {
        FactData::True => Ok(Goal::True),
        FactData::False => Ok(Goal::False),
        FactData::And(f1, f2) => {
            proof {
                lemma_fact_size_pos(**f1);
                lemma_fact_size_pos(**f2);
            }
            let c1 = match lower_fact(f1, env) {
                Ok(c1) => c1,
                Err(e) => {
                    return Err(e);
                },
            };
            let c2 = match lower_fact(f2, env) {
                Ok(c2) => c2,
                Err(e) => {
                    return Err(e);
                },
            };
            Ok(Goal::And(Box::new(c1), Box::new(c2)))
        },
        FactData::Or(f1, f2) => {
            proof {
                lemma_fact_size_pos(**f1);
                lemma_fact_size_pos(**f2);
            }
            let c1 = match lower_fact(f1, env) {
                Ok(c1) => c1,
                Err(e) => {
                    return Err(e);
                },
            };
            let c2 = match lower_fact(f2, env) {
                Ok(c2) => c2,
                Err(e) => {
                    return Err(e);
                },
            };
            Ok(Goal::Or(Box::new(c1), Box::new(c2)))
        },
        FactData::Not(f1) => {
            match lower_fact(f1, env) {
                Ok(c1) => Ok(Goal::Not(Box::new(c1))),
                Err(e) => Err(e),
            }
        },
        FactData::Implication(f1, f2) => {
            proof {
                lemma_fact_size_pos(**f1);
                lemma_fact_size_pos(**f2);
            }
            let condition = match lower_clause(f1, env) {
                Ok(c) => c,
                Err(e) => {
                    return Err(e);
                },
            };
            let consequence = match lower_fact(f2, env) {
                Ok(c) => c,
                Err(e) => {
                    return Err(e);
                },
            };
            Ok(Goal::Implication(condition, Box::new(consequence)))
        },
        FactData::ForAll(v, f1) => {
            env.push_bound_name(v.clone());
            let r1 = lower_fact(f1, env);
            env.pop_bound_name();
            proof {
                assert(env@ =~= old(env)@);
            }
            match r1 {
                Ok(c) => Ok(c.in_foralls(1)),
                Err(e) => Err(e),
            }
        },
        FactData::Exists(v, f1) => {
            env.push_bound_name(v.clone());
            let r1 = lower_fact(f1, env);
            env.pop_bound_name();
            proof {
                assert(env@ =~= old(env)@);
            }
            match r1 {
                Ok(c) => Ok(c.in_exists(1)),
                Err(e) => Err(e),
            }
        },
        FactData::IfThenElse(c, t, e) => {
            proof {
                lemma_fact_size_pos(**c);
                lemma_fact_size_pos(**t);
                lemma_fact_size_pos(**e);
            }
            let gc = match lower_fact(c, env) {
                Ok(g) => g,
                Err(e1) => {
                    return Err(e1);
                },
            };
            let gt = match lower_fact(t, env) {
                Ok(g) => g,
                Err(e1) => {
                    return Err(e1);
                },
            };
            let ge = match lower_fact(e, env) {
                Ok(g) => g,
                Err(e1) => {
                    return Err(e1);
                },
            };
            Ok(Goal::IfThenElse(Box::new(gc), Box::new(gt), Box::new(ge)))
        },
        FactData::Apply(a) => {
            let k = a.count_wildcards();
            env.push_wildcards(k);
            let r1 = lower_application(a, env);
            env.pop_wildcards(k);
            proof {
                assert(env@ =~= old(env)@);
            }
            match r1 {
                Ok(application) => Ok(Goal::Leaf(application).in_exists(k)),
                Err(e) => Err(e),
            }
        },
    }
}

/// Well-scopedness: whatever goal a fact lowers to has every variable
/// reference's binding depth strictly below the number of binders enclosing
/// it, counting the stack it was lowered against.
pub proof fn lemma_lower_fact_well_scoped(f: Fact, env: Seq<BindV>)
    ensures
        match lower_fact_v(f, env) {
            Ok(g) => goal_well_scoped(g, env.len() as int),
            Err(_) => true,
        },
    decreases f,
{
    match f.data {
        FactData::And(f1, f2) => {
            lemma_lower_fact_well_scoped(*f1, env);
            lemma_lower_fact_well_scoped(*f2, env);
        },
        FactData::Or(f1, f2) => {
            lemma_lower_fact_well_scoped(*f1, env);
            lemma_lower_fact_well_scoped(*f2, env);
        },
        FactData::Not(f1) => {
            lemma_lower_fact_well_scoped(*f1, env);
        },
        FactData::Implication(f1, f2) => {
            lemma_lower_clause_well_scoped(*f1, env);
            lemma_lower_fact_well_scoped(*f2, env);
        },
        FactData::ForAll(v, f1) => {
            lemma_lower_fact_well_scoped(*f1, env.push(BindV::Named(v@)));
            if let Ok(c) = lower_fact_v(*f1, env.push(BindV::Named(v@))) {
                lemma_in_foralls_well_scoped(c, 1, env.len() as int);
            }
        },
        FactData::Exists(v, f1) => {
            lemma_lower_fact_well_scoped(*f1, env.push(BindV::Named(v@)));
            if let Ok(c) = lower_fact_v(*f1, env.push(BindV::Named(v@))) {
                lemma_in_exists_well_scoped(c, 1, env.len() as int);
            }
        },
        FactData::IfThenElse(c, t, e) => {
            lemma_lower_fact_well_scoped(*c, env);
            lemma_lower_fact_well_scoped(*t, env);
            lemma_lower_fact_well_scoped(*e, env);
        },
        FactData::Apply(a) => {
            lemma_app_goal_well_scoped(a, env);
        },
        _ => {},
    }
}

/// Clause restriction: lowering an implication whose condition's top-level
/// shape is a disjunction fails with `IllegalClause` at exactly that
/// disjunction's span, while the same disjunction lowered as a plain goal
/// succeeds whenever its two operands do.
pub proof fn lemma_clause_restriction(cond: Fact, q: Fact, env: Seq<BindV>)
    requires
        cond.data matches FactData::Or(_, _),
    ensures
        lower_clause_v(cond, env) == Err::<crate::goal::ClauseV, Error>(
            Error { kind: ErrorKind::IllegalClause, span: cond.span },
        ),
        forall|sp: crate::ast::Span|
            lower_fact_v(
                Fact {
                    span: sp,
                    data: FactData::Implication(Box::new(cond), Box::new(q)),
                },
                env,
            ) == Err::<GoalV, Error>(Error { kind: ErrorKind::IllegalClause, span: cond.span }),
        (lower_fact_v(cond, env) is Ok <==> {
            &&& lower_fact_v(*cond.data->Or_0, env) is Ok
            &&& lower_fact_v(*cond.data->Or_1, env) is Ok
        }),
{
}

} // verus!
