//! Lowering of one atomic application: count its wildcards, bring them into
//! scope, resolve every argument to a binding depth, and wrap the resulting
//! leaf in the wildcards' own existential binder.
use vstd::prelude::*;
use crate::ast;
use crate::ast::Term;
use crate::environment::{BindV, LowerEnvironment, lookup_v, wilds, lemma_lookup_in_range};
use crate::error::{Error, ErrorKind, LowerResult};
use crate::goal::{AppV, Application, Goal, GoalV, app_view, goal_view, in_exists_v};

verus! {

/// How many wildcard occurrences the argument list holds.
pub open spec fn count_wildcards_v(terms: Seq<Term>) -> int
    decreases terms.len(),
{
    if terms.len() == 0 {
        0
    } else {
        (if terms[0] is Wildcard {
            1int
        } else {
            0int
        }) + count_wildcards_v(terms.drop_first())
    }
}

pub proof fn lemma_count_wildcards_bounds(terms: Seq<Term>)
    ensures
        0 <= count_wildcards_v(terms) <= terms.len(),
    decreases terms.len(),
{
    if terms.len() > 0 {
        lemma_count_wildcards_bounds(terms.drop_first());
    }
}

/// The binding depths of the arguments, resolved left to right against
/// `env`; `w` wildcard occurrences were already consumed, so the next one
/// resolves to depth `w`. The first unresolvable name aborts the scan.
pub open spec fn lower_terms_v(terms: Seq<Term>, env: Seq<BindV>, w: int) -> Result<
    Seq<int>,
    Error,
>
    decreases terms.len(),
{
    if terms.len() == 0 {
        Ok(Seq::empty())
    } else {
        match terms[0] {
            Term::Var(sp, nm) => match lookup_v(env, nm@) {
                Some(d) => match lower_terms_v(terms.drop_first(), env, w) {
                    Ok(rest) => Ok(seq![d] + rest),
                    Err(e) => Err(e),
                },
                None => Err(Error { kind: ErrorKind::UnknownVariable, span: sp }),
            },
            Term::Wildcard => match lower_terms_v(terms.drop_first(), env, w + 1) {
                Ok(rest) => Ok(seq![w] + rest),
                Err(e) => Err(e),
            },
        }
    }
}

/// The lowered application: its name and its arguments' binding depths.
pub open spec fn lower_app_v(a: ast::Application, env: Seq<BindV>) -> Result<AppV, Error> {
    match lower_terms_v(a.terms@, env, 0) {
        Ok(args) => Ok(AppV { name: a.name@, args }),
        Err(e) => Err(e),
    }
}

/// The goal an application lowers to: its `k` wildcards pushed on top of
/// `env`, the leaf built, and the leaf wrapped in `k` existential binders.
pub open spec fn app_goal_v(a: ast::Application, env: Seq<BindV>) -> Result<GoalV, Error> {
    let k = count_wildcards_v(a.terms@);
    match lower_app_v(a, env + wilds(k)) {
        Ok(app) => Ok(in_exists_v(GoalV::Leaf(app), k)),
        Err(e) => Err(e),
    }
}

pub open spec fn app_res_view(r: LowerResult<Application>) -> Result<AppV, Error> {
    match r {
        Ok(a) => Ok(app_view(a)),
        Err(e) => Err(e),
    }
}

pub open spec fn goal_res_view(r: LowerResult<Goal>) -> Result<GoalV, Error> {
    match r {
        Ok(g) => Ok(goal_view(g)),
        Err(e) => Err(e),
    }
}

impl ast::Application {
    /// Count the wildcard occurrences in the argument list: a pure
    /// syntactic scan with no environment effect.
    pub fn count_wildcards(&self) -> (k: usize)
        ensures
            k == count_wildcards_v(self.terms@),
            k <= self.terms@.len(),
    {
        let ghost all = self.terms@;
        let n = self.terms.len();
        let mut k: usize = 0;
        let mut j: usize = 0;
        proof {
            assert(all.skip(0) =~= all);
        }
        while j < n
            invariant
                j <= n,
                n == all.len(),
                all == self.terms@,
                k <= j,
                count_wildcards_v(all) == k + count_wildcards_v(all.skip(j as int)),
            decreases n - j,
        {
            let ghost pre = all.skip(j as int);
            proof {
                assert(pre[0] == all[j as int]);
                assert(pre.drop_first() =~= all.skip(j + 1 as int));
            }
            match &self.terms[j] {
                Term::Wildcard => {
                    k = k + 1;
                },
                Term::Var(_, _) => {},
            }
            j = j + 1;
        }
        proof {
            assert(all.skip(n as int) =~= Seq::<Term>::empty());
        }
        k
    }
}

/// Resolve the arguments of `a` against the current stack, the wildcard
/// occurrences against depths `0, 1, ...` in occurrence order.
pub fn lower_application(a: &ast::Application, env: &LowerEnvironment) -> (r: LowerResult<
    Application,
>)
    ensures
        app_res_view(r) == lower_app_v(*a, env@),
{
    let ghost all = a.terms@;
    let n = a.terms.len();
    let mut args: Vec<usize> = Vec::new();
    let mut w: usize = 0;
    let mut j: usize = 0;
    proof {
        assert(all.skip(0) =~= all);
        assert(args@.map_values(|d: usize| d as int) =~= Seq::<int>::empty());
    }
    while j < n
        invariant
            j <= n,
            n == all.len(),
            all == a.terms@,
            w <= j,
            lower_terms_v(all, env@, 0) == match lower_terms_v(all.skip(j as int), env@, w as int) {
                Ok(rest) => Ok(args@.map_values(|d: usize| d as int) + rest),
                Err(e) => Err::<Seq<int>, Error>(e),
            },
        decreases n - j,
    {
        let ghost pre = all.skip(j as int);
        let ghost args0 = args@.map_values(|d: usize| d as int);
        proof {
            assert(pre[0] == all[j as int]);
            assert(pre.drop_first() =~= all.skip(j + 1 as int));
        }
        match &a.terms[j] {
            Term::Var(sp, nm) => {
                match env.lookup(nm) {
                    Some(d) => {
                        args.push(d);
                        proof {
                            assert(args@.map_values(|x: usize| x as int) =~= args0.push(d as int));
                            assert(args0.push(d as int) =~= args0 + seq![d as int]);
                            assert forall|rest: Seq<int>|
                                (args0 + (seq![d as int] + rest)) =~= (args0.push(d as int)
                                    + rest) by {}
                        }
                    },
                    None => {
                        return Err(Error { kind: ErrorKind::UnknownVariable, span: *sp });
                    },
                }
            },
            Term::Wildcard => {
                args.push(w);
                let ghost w0 = w as int;
                w = w + 1;
                proof {
                    assert(args@.map_values(|x: usize| x as int) =~= args0.push(w0));
                    assert forall|rest: Seq<int>|
                        (args0 + (seq![w0] + rest)) =~= (args0.push(w0) + rest) by {}
                }
            },
        }
        j = j + 1;
    }
    proof {
        assert(all.skip(n as int) =~= Seq::<Term>::empty());
        assert(lower_terms_v(Seq::<Term>::empty(), env@, w as int) == Ok::<Seq<int>, Error>(
            Seq::empty(),
        ));
        assert(args@.map_values(|d: usize| d as int) + Seq::<int>::empty() =~= args@.map_values(
            |d: usize| d as int,
        ));
    }
    let name = a.name.clone();
    let app = Application { name, args };
    proof {
        assert(app_view(app) =~= AppV {
            name: a.name@,
            args: app.args@.map_values(|d: usize| d as int),
        });
    }
    Ok(app)
}

/// What term lowering yields when it succeeds: one depth per argument;
/// named references resolve below the stack's length; the wildcard
/// occurrences take the depths `w, w + 1, ...` in occurrence order, so they
/// stay pairwise distinct and below `w` plus the wildcard count.
pub proof fn lemma_lower_terms_props(terms: Seq<Term>, env: Seq<BindV>, w: int)
    requires
        w >= 0,
    ensures
        match lower_terms_v(terms, env, w) {
            Ok(args) => {
                &&& args.len() == terms.len()
                &&& forall|i: int|
                    0 <= i < terms.len() && terms[i] is Var ==> 0 <= #[trigger] args[i]
                        < env.len()
                &&& forall|i: int|
                    0 <= i < terms.len() && terms[i] is Wildcard ==> w <= #[trigger] args[i] < w
                        + count_wildcards_v(terms)
                &&& forall|i: int, j: int|
                    0 <= i < j < terms.len() && terms[i] is Wildcard && terms[j] is Wildcard
                        ==> #[trigger] args[i] != #[trigger] args[j]
            },
            Err(_) => true,
        },
    decreases terms.len(),
{
    if terms.len() > 0 {
        let rest = terms.drop_first();
        lemma_count_wildcards_bounds(rest);
        match terms[0] {
            Term::Var(sp, nm) => {
                lemma_lookup_in_range(env, nm@);
                if let Some(d) = lookup_v(env, nm@) {
                    lemma_lower_terms_props(rest, env, w);
                    if let Ok(rest_args) = lower_terms_v(rest, env, w) {
                        let args = seq![d] + rest_args;
                        assert forall|i: int| 1 <= i < terms.len() implies terms[i]
                            == rest[i - 1] && args[i] == rest_args[i - 1] by {}
                    }
                }
            },
            Term::Wildcard => {
                lemma_lower_terms_props(rest, env, w + 1);
                if let Ok(rest_args) = lower_terms_v(rest, env, w + 1) {
                    let args = seq![w] + rest_args;
                    assert forall|i: int| 1 <= i < terms.len() implies terms[i] == rest[i - 1]
                        && args[i] == rest_args[i - 1] by {}
                }
            },
        }
    }
}

/// Wildcard freshness: when an application with `k` wildcard occurrences
/// lowers with its `k` fresh entries pushed, the synthesized bindings are
/// pairwise distinct and all lie strictly inside the application's own
/// `k`-variable existential wrapper.
pub proof fn lemma_wildcard_freshness(a: ast::Application, env: Seq<BindV>)
    ensures
        match lower_app_v(a, env + wilds(count_wildcards_v(a.terms@))) {
            Ok(app) => {
                &&& app.args.len() == a.terms@.len()
                &&& forall|i: int|
                    0 <= i < a.terms@.len() && a.terms@[i] is Wildcard ==> 0 <= #[trigger] app.args[i]
                        < count_wildcards_v(a.terms@)
                &&& forall|i: int, j: int|
                    0 <= i < j < a.terms@.len() && a.terms@[i] is Wildcard && a.terms@[j] is Wildcard
                        ==> #[trigger] app.args[i] != #[trigger] app.args[j]
            },
            Err(_) => true,
        },
{
    lemma_count_wildcards_bounds(a.terms@);
    lemma_lower_terms_props(a.terms@, env + wilds(count_wildcards_v(a.terms@)), 0);
}

/// The goal an application lowers to is well scoped under the stack it was
/// lowered against: named references stay below the stack's length, and
/// wildcard references are captured by the application's own wrapper.
pub proof fn lemma_app_goal_well_scoped(a: ast::Application, env: Seq<BindV>)
    ensures
        match app_goal_v(a, env) {
            Ok(g) => crate::goal::goal_well_scoped(g, env.len() as int),
            Err(_) => true,
        },
{
    let k = count_wildcards_v(a.terms@);
    lemma_count_wildcards_bounds(a.terms@);
    let env1 = env + wilds(k);
    lemma_lower_terms_props(a.terms@, env1, 0);
    if let Ok(app) = lower_app_v(a, env1) {
        assert forall|i: int| 0 <= i < app.args.len() implies app.args[i] < env1.len() by {
            assert(a.terms@[i] is Var || a.terms@[i] is Wildcard);
        }
        assert(crate::goal::app_well_scoped(app, env.len() + k));
        assert(crate::goal::goal_well_scoped(GoalV::Leaf(app), env.len() + k));
        crate::goal::lemma_in_exists_well_scoped(GoalV::Leaf(app), k, env.len() as int);
    }
}

} // verus!
