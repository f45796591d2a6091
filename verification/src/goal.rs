//! The canonical Goal and Clause trees that lowering produces, their
//! mathematical views, the quantifier accumulator, and well-scopedness.
use vstd::prelude::*;

verus! {

/// A lowered atomic application: the predicate name and, for each argument,
/// the binding depth of the variable it resolved to (distance, in binder
/// layers, from the reference to its binder).
#[derive(PartialEq, Eq, Debug)]
pub struct Application {
    pub name: String,
    pub args: Vec<usize>,
}

/// A canonical provable proposition. Quantifier nodes carry a count: a
/// `Forall`/`Exists` node binds that many variables at once.
#[derive(PartialEq, Eq, Debug)]
pub enum Goal {
    True,
    False,
    Leaf(Application),
    And(Box<Goal>, Box<Goal>),
    Or(Box<Goal>, Box<Goal>),
    Not(Box<Goal>),
    Implication(Clause, Box<Goal>),
    IfThenElse(Box<Goal>, Box<Goal>, Box<Goal>),
    ForAll(usize, Box<Goal>),
    Exists(usize, Box<Goal>),
}

/// A restricted Goal-like value usable as an implication's condition or as
/// a program clause. Disjunction, if-then-else and nested implication are
/// excluded from the condition grammar; the `Implication` variant (a rule
/// `consequence :- condition`) is built only by the per-item driver.
#[derive(PartialEq, Eq, Debug)]
pub enum Clause {
    True,
    False,
    Leaf(Application),
    And(Box<Clause>, Box<Clause>),
    Not(Box<Clause>),
    Implication(Box<Goal>, Application),
    ForAll(usize, Box<Clause>),
    Exists(usize, Box<Clause>),
}

/// Mathematical view of an `Application`.
#[verifier::ext_equal]
pub struct AppV {
    pub name: Seq<char>,
    pub args: Seq<int>,
}

/// Mathematical view of a `Goal`.
#[verifier::ext_equal]
pub enum GoalV {
    True,
    False,
    Leaf(AppV),
    And(Box<GoalV>, Box<GoalV>),
    Or(Box<GoalV>, Box<GoalV>),
    Not(Box<GoalV>),
    Implication(Box<ClauseV>, Box<GoalV>),
    IfThenElse(Box<GoalV>, Box<GoalV>, Box<GoalV>),
    ForAll(int, Box<GoalV>),
    Exists(int, Box<GoalV>),
}

/// Mathematical view of a `Clause`.
#[verifier::ext_equal]
pub enum ClauseV {
    True,
    False,
    Leaf(AppV),
    And(Box<ClauseV>, Box<ClauseV>),
    Not(Box<ClauseV>),
    Implication(Box<GoalV>, AppV),
    ForAll(int, Box<ClauseV>),
    Exists(int, Box<ClauseV>),
}

pub open spec fn app_view(a: Application) -> AppV {
    AppV { name: a.name@, args: a.args@.map_values(|d: usize| d as int) }
}

pub open spec fn goal_view(g: Goal) -> GoalV
    decreases g,
{
    match g {
        Goal::True => GoalV::True,
        Goal::False => GoalV::False,
        Goal::Leaf(a) => GoalV::Leaf(app_view(a)),
        Goal::And(g1, g2) => GoalV::And(Box::new(goal_view(*g1)), Box::new(goal_view(*g2))),
        Goal::Or(g1, g2) => GoalV::Or(Box::new(goal_view(*g1)), Box::new(goal_view(*g2))),
        Goal::Not(g1) => GoalV::Not(Box::new(goal_view(*g1))),
        Goal::Implication(c, g2) => GoalV::Implication(
            Box::new(clause_view(c)),
            Box::new(goal_view(*g2)),
        ),
        Goal::IfThenElse(c, t, e) => GoalV::IfThenElse(
            Box::new(goal_view(*c)),
            Box::new(goal_view(*t)),
            Box::new(goal_view(*e)),
        ),
        Goal::ForAll(n, g1) => GoalV::ForAll(n as int, Box::new(goal_view(*g1))),
        Goal::Exists(n, g1) => GoalV::Exists(n as int, Box::new(goal_view(*g1))),
    }
}

pub open spec fn clause_view(c: Clause) -> ClauseV
    decreases c,
{
    match c {
        Clause::True => ClauseV::True,
        Clause::False => ClauseV::False,
        Clause::Leaf(a) => ClauseV::Leaf(app_view(a)),
        Clause::And(c1, c2) => ClauseV::And(
            Box::new(clause_view(*c1)),
            Box::new(clause_view(*c2)),
        ),
        Clause::Not(c1) => ClauseV::Not(Box::new(clause_view(*c1))),
        Clause::Implication(g, a) => ClauseV::Implication(
            Box::new(goal_view(*g)),
            app_view(a),
        ),
        Clause::ForAll(n, c1) => ClauseV::ForAll(n as int, Box::new(clause_view(*c1))),
        Clause::Exists(n, c1) => ClauseV::Exists(n as int, Box::new(clause_view(*c1))),
    }
}

impl View for Goal {
    type V = GoalV;

    open spec fn view(&self) -> GoalV {
        goal_view(*self)
    }
}

impl View for Clause {
    type V = ClauseV;

    open spec fn view(&self) -> ClauseV {
        clause_view(*self)
    }
}

impl View for Application {
    type V = AppV;

    open spec fn view(&self) -> AppV {
        app_view(*self)
    }
}

/// How many variables the outermost binder node of `g` binds (0 when the
/// outermost node is no binder).
pub open spec fn goal_head_binders(g: GoalV) -> int {
    match g {
        GoalV::ForAll(n, _) => n,
        GoalV::Exists(n, _) => n,
        _ => 0,
    }
}

pub open spec fn clause_head_binders(c: ClauseV) -> int {
    match c {
        ClauseV::ForAll(n, _) => n,
        ClauseV::Exists(n, _) => n,
        _ => 0,
    }
}

/// The quantifier accumulator on views: wrap `g` in `n` existential
/// binders, merging with an existing outermost existential binder.
pub open spec fn in_exists_v(g: GoalV, n: int) -> GoalV {
    if n == 0 {
        g
    } else {
        match g {
            GoalV::Exists(m, g1) => GoalV::Exists(m + n, g1),
            _ => GoalV::Exists(n, Box::new(g)),
        }
    }
}

/// The quantifier accumulator on views: wrap `g` in `n` universal binders,
/// merging with an existing outermost universal binder.
pub open spec fn in_foralls_v(g: GoalV, n: int) -> GoalV {
    if n == 0 {
        g
    } else {
        match g {
            GoalV::ForAll(m, g1) => GoalV::ForAll(m + n, g1),
            _ => GoalV::ForAll(n, Box::new(g)),
        }
    }
}

pub open spec fn clause_in_foralls_v(c: ClauseV, n: int) -> ClauseV {
    if n == 0 {
        c
    } else {
        match c {
            ClauseV::ForAll(m, c1) => ClauseV::ForAll(m + n, c1),
            _ => ClauseV::ForAll(n, Box::new(c)),
        }
    }
}

pub open spec fn clause_in_exists_v(c: ClauseV, n: int) -> ClauseV {
    if n == 0 {
        c
    } else {
        match c {
            ClauseV::Exists(m, c1) => ClauseV::Exists(m + n, c1),
            _ => ClauseV::Exists(n, Box::new(c)),
        }
    }
}

impl Goal {
    /// Wrap this goal in `n` existential binders, merging with an
    /// already-present outermost existential binder.
    pub fn in_exists(self, n: usize) -> (r: Goal)
        requires
            goal_head_binders(self@) + n <= usize::MAX,
        ensures
            r@ == in_exists_v(self@, n as int),
            goal_head_binders(r@) <= goal_head_binders(self@) + n,
    {
        if n == 0 {
            self
        } else {
            match self {
                Goal::Exists(m, g1) => Goal::Exists(m + n, g1),
                g => Goal::Exists(n, Box::new(g)),
            }
        }
    }

    /// Wrap this goal in `n` universal binders, merging with an
    /// already-present outermost universal binder.
    pub fn in_foralls(self, n: usize) -> (r: Goal)
        requires
            goal_head_binders(self@) + n <= usize::MAX,
        ensures
            r@ == in_foralls_v(self@, n as int),
            goal_head_binders(r@) <= goal_head_binders(self@) + n,
    {
        if n == 0 {
            self
        } else {
            match self {
                Goal::ForAll(m, g1) => Goal::ForAll(m + n, g1),
                g => Goal::ForAll(n, Box::new(g)),
            }
        }
    }
}

impl Clause {
    /// Wrap this clause in `n` universal binders, merging with an
    /// already-present outermost universal binder.
    pub fn in_foralls(self, n: usize) -> (r: Clause)
        requires
            clause_head_binders(self@) + n <= usize::MAX,
        ensures
            r@ == clause_in_foralls_v(self@, n as int),
            clause_head_binders(r@) <= clause_head_binders(self@) + n,
    {
        if n == 0 {
            self
        } else {
            match self {
                Clause::ForAll(m, c1) => Clause::ForAll(m + n, c1),
                c => Clause::ForAll(n, Box::new(c)),
            }
        }
    }

    /// Wrap this clause in `n` existential binders, merging with an
    /// already-present outermost existential binder.
    pub fn in_exists(self, n: usize) -> (r: Clause)
        requires
            clause_head_binders(self@) + n <= usize::MAX,
        ensures
            r@ == clause_in_exists_v(self@, n as int),
            clause_head_binders(r@) <= clause_head_binders(self@) + n,
    {
        if n == 0 {
            self
        } else {
            match self {
                Clause::Exists(m, c1) => Clause::Exists(m + n, c1),
                c => Clause::Exists(n, Box::new(c)),
            }
        }
    }
}

/// Wrapping in zero binders is a no-op.
pub proof fn lemma_in_exists_zero(g: GoalV)
    ensures
        in_exists_v(g, 0) == g,
        in_foralls_v(g, 0) == g,
{
}

/// Wrapping twice accumulates: when `g`'s outermost node is not already an
/// existential binder, `g.in_exists(a).in_exists(b)` equals
/// `g.in_exists(a + b)`.
pub proof fn lemma_in_exists_merge(g: GoalV, a: int, b: int)
    requires
        a >= 0,
        b >= 0,
        !(g is Exists),
    ensures
        in_exists_v(in_exists_v(g, a), b) == in_exists_v(g, a + b),
{
}

/// The universal counterpart of `lemma_in_exists_merge`.
pub proof fn lemma_in_foralls_merge(g: GoalV, a: int, b: int)
    requires
        a >= 0,
        b >= 0,
        !(g is ForAll),
    ensures
        in_foralls_v(in_foralls_v(g, a), b) == in_foralls_v(g, a + b),
{
}

/// Every variable reference in `a` is bound: its depth is below the number
/// of binders enclosing it.
pub open spec fn app_well_scoped(a: AppV, depth: int) -> bool {
    forall|i: int| 0 <= i < a.args.len() ==> #[trigger] a.args[i] < depth
}

/// Well-scopedness of a goal under `depth` enclosing binders: every
/// variable reference's binding depth is strictly less than the number of
/// binders enclosing it at that point in the tree.
pub open spec fn goal_well_scoped(g: GoalV, depth: int) -> bool
    decreases g,
{
    match g {
        GoalV::True => true,
        GoalV::False => true,
        GoalV::Leaf(a) => app_well_scoped(a, depth),
        GoalV::And(g1, g2) => goal_well_scoped(*g1, depth) && goal_well_scoped(*g2, depth),
        GoalV::Or(g1, g2) => goal_well_scoped(*g1, depth) && goal_well_scoped(*g2, depth),
        GoalV::Not(g1) => goal_well_scoped(*g1, depth),
        GoalV::Implication(c, g2) => clause_well_scoped(*c, depth) && goal_well_scoped(
            *g2,
            depth,
        ),
        GoalV::IfThenElse(c, t, e) => goal_well_scoped(*c, depth) && goal_well_scoped(*t, depth)
            && goal_well_scoped(*e, depth),
        GoalV::ForAll(n, g1) => n >= 0 && goal_well_scoped(*g1, depth + n),
        GoalV::Exists(n, g1) => n >= 0 && goal_well_scoped(*g1, depth + n),
    }
}

pub open spec fn clause_well_scoped(c: ClauseV, depth: int) -> bool
    decreases c,
{
    match c {
        ClauseV::True => true,
        ClauseV::False => true,
        ClauseV::Leaf(a) => app_well_scoped(a, depth),
        ClauseV::And(c1, c2) => clause_well_scoped(*c1, depth) && clause_well_scoped(*c2, depth),
        ClauseV::Not(c1) => clause_well_scoped(*c1, depth),
        ClauseV::Implication(g, a) => goal_well_scoped(*g, depth) && app_well_scoped(a, depth),
        ClauseV::ForAll(n, c1) => n >= 0 && clause_well_scoped(*c1, depth + n),
        ClauseV::Exists(n, c1) => n >= 0 && clause_well_scoped(*c1, depth + n),
    }
}

/// Wrapping a goal that is well scoped under `depth + n` binders in `n`
/// accumulator binders yields a goal well scoped under `depth` binders.
pub proof fn lemma_in_exists_well_scoped(g: GoalV, n: int, depth: int)
    requires
        n >= 0,
        goal_well_scoped(g, depth + n),
    ensures
        goal_well_scoped(in_exists_v(g, n), depth),
{
}

pub proof fn lemma_in_foralls_well_scoped(g: GoalV, n: int, depth: int)
    requires
        n >= 0,
        goal_well_scoped(g, depth + n),
    ensures
        goal_well_scoped(in_foralls_v(g, n), depth),
{
}

pub proof fn lemma_clause_in_foralls_well_scoped(c: ClauseV, n: int, depth: int)
    requires
        n >= 0,
        clause_well_scoped(c, depth + n),
    ensures
        clause_well_scoped(clause_in_foralls_v(c, n), depth),
{
}

pub proof fn lemma_clause_in_exists_well_scoped(c: ClauseV, n: int, depth: int)
    requires
        n >= 0,
        clause_well_scoped(c, depth + n),
    ensures
        clause_well_scoped(clause_in_exists_v(c, n), depth),
{
}

} // verus!
