//! The per-program driver: discover the free named variables of each item
//! in first-appearance order, wrap the item in its outermost universal
//! quantifiers, and lower it to one program clause.
use vstd::prelude::*;
use crate::ast;
use crate::ast::{Fact, FactData, Item, Program, Term, fact_size, lemma_fact_size_pos};
use crate::environment::{BindV, LowerEnvironment, wilds};
use crate::error::{Error, LowerResult};
use crate::goal::{
    Clause, ClauseV, clause_in_foralls_v, clause_view, clause_well_scoped,
    lemma_clause_in_foralls_well_scoped,
};
use crate::lower_application::{
    count_wildcards_v, lemma_count_wildcards_bounds, lemma_lower_terms_props, lower_app_v,
    lower_application,
};
use crate::lower_clause::clause_res_view;
use crate::lower_goal::{lemma_lower_fact_well_scoped, lower_fact, lower_fact_v};

verus! {

/// Add the name of `t` to `acc` when it is a named variable that neither
/// `bound` nor `acc` already holds.
pub open spec fn free_in_term(t: Term, bound: Seq<Seq<char>>, acc: Seq<Seq<char>>) -> Seq<
    Seq<char>,
> {
    match t {
        Term::Var(_, nm) => if bound.contains(nm@) || acc.contains(nm@) {
            acc
        } else {
            acc.push(nm@)
        },
        Term::Wildcard => acc,
    }
}

pub open spec fn free_in_terms(terms: Seq<Term>, bound: Seq<Seq<char>>, acc: Seq<Seq<char>>) -> Seq<
    Seq<char>,
>
    decreases terms.len(),
{
    if terms.len() == 0 {
        acc
    } else {
        free_in_terms(terms.drop_first(), bound, free_in_term(terms[0], bound, acc))
    }
}

/// The free named variables of `f` appended to `acc` in first-appearance
/// order, `bound` holding the names the enclosing binders declare.
pub open spec fn free_in_fact(f: Fact, bound: Seq<Seq<char>>, acc: Seq<Seq<char>>) -> Seq<
    Seq<char>,
>
    decreases f,
{
    match f.data {
        FactData::True => acc,
        FactData::False => acc,
        FactData::And(f1, f2) => free_in_fact(*f2, bound, free_in_fact(*f1, bound, acc)),
        FactData::Or(f1, f2) => free_in_fact(*f2, bound, free_in_fact(*f1, bound, acc)),
        FactData::Not(f1) => free_in_fact(*f1, bound, acc),
        FactData::Implication(f1, f2) => free_in_fact(*f2, bound, free_in_fact(*f1, bound, acc)),
        FactData::ForAll(v, f1) => free_in_fact(*f1, bound.push(v@), acc),
        FactData::Exists(v, f1) => free_in_fact(*f1, bound.push(v@), acc),
        FactData::IfThenElse(c, t, e) => free_in_fact(
            *e,
            bound,
            free_in_fact(*t, bound, free_in_fact(*c, bound, acc)),
        ),
        FactData::Apply(a) => free_in_terms(a.terms@, bound, acc),
    }
}

/// The free named variables of one item, head first, in first-appearance
/// order.
pub open spec fn free_in_item(it: Item) -> Seq<Seq<char>> {
    let acc = free_in_terms(it.head.terms@, Seq::empty(), Seq::empty());
    match it.body {
        Some(b) => free_in_fact(b, Seq::empty(), acc),
        None => acc,
    }
}

pub open spec fn body_size(it: Item) -> int {
    match it.body {
        Some(b) => fact_size(b),
        None => 0,
    }
}

/// Structural size of an item, bounding the scope-stack growth and the
/// binder counts its lowering can accumulate.
pub open spec fn item_size(it: Item) -> int {
    2 * it.head.terms@.len() + 2 * body_size(it) + 2
}

/// The clause one item lowers to: its free names pushed bottom-up in
/// first-appearance order, the head's wildcards pushed above them and kept
/// in scope while the body is lowered, the rule assembled, and the whole
/// wrapped in one universal binder for the head wildcards and the free
/// names together.
pub open spec fn lower_item_v(it: Item) -> Result<ClauseV, Error> {
    let names = free_in_item(it);
    let env0 = names.map_values(|n: Seq<char>| BindV::Named(n));
    let k = count_wildcards_v(it.head.terms@);
    let env1 = env0 + wilds(k);
    match lower_app_v(it.head, env1) {
        Ok(happ) => match it.body {
            Some(b) => match lower_fact_v(b, env1) {
                Ok(g) => Ok(
                    clause_in_foralls_v(
                        clause_in_foralls_v(ClauseV::Implication(Box::new(g), happ), k),
                        names.len() as int,
                    ),
                ),
                Err(e) => Err(e),
            },
            None => Ok(
                clause_in_foralls_v(
                    clause_in_foralls_v(ClauseV::Leaf(happ), k),
                    names.len() as int,
                ),
            ),
        },
        Err(e) => Err(e),
    }
}

pub open spec fn lower_items_v(items: Seq<Item>) -> Result<Seq<ClauseV>, Error>
    decreases items.len(),
{
    if items.len() == 0 {
        Ok(Seq::empty())
    } else {
        match lower_item_v(items[0]) {
            Ok(c) => match lower_items_v(items.drop_first()) {
                Ok(rest) => Ok(seq![c] + rest),
                Err(e) => Err(e),
            },
            Err(e) => Err(e),
        }
    }
}

/// The clauses a whole program lowers to, or the first item's error.
pub open spec fn lower_program_v(p: Program) -> Result<Seq<ClauseV>, Error> {
    lower_items_v(p.items@)
}

/// Whether `v` holds a string whose characters equal `name`'s.
fn contains_name(v: &Vec<String>, name: &String) -> (r: bool)
    ensures
        r == v.deep_view().contains(name@),
{
    let n = v.len();
    let mut j: usize = 0;
    while j < n
        invariant
            j <= n,
            n == v@.len(),
            forall|i: int| 0 <= i < j ==> v.deep_view()[i] != name@,
        decreases n - j,
    {
        let entry = &v[j];
        proof {
            assert(v.deep_view()[j as int] == v@[j as int]@);
        }
        if *entry == *name {
            proof {
                assert(v.deep_view()[j as int] == name@);
            }
            return true;
        }
        j = j + 1;
    }
    proof {
        assert(!v.deep_view().contains(name@));
    }
    false
}

fn collect_terms(terms: &Vec<Term>, bound: &Vec<String>, acc: &mut Vec<String>)
    ensures
        final(acc).deep_view() == free_in_terms(terms@, bound.deep_view(), old(acc).deep_view()),
        final(acc)@.len() <= old(acc)@.len() + terms@.len(),
{
    let ghost all = terms@;
    let n = terms.len();
    let mut j: usize = 0;
    proof {
        assert(all.skip(0) =~= all);
    }
    while j < n
        invariant
            j <= n,
            n == all.len(),
            all == terms@,
            acc@.len() <= old(acc)@.len() + j,
            free_in_terms(all, bound.deep_view(), old(acc).deep_view()) == free_in_terms(
                all.skip(j as int),
                bound.deep_view(),
                acc.deep_view(),
            ),
        decreases n - j,
    {
        let ghost pre = all.skip(j as int);
        let ghost acc0 = acc.deep_view();
        proof {
            assert(pre[0] == all[j as int]);
            assert(pre.drop_first() =~= all.skip(j + 1 as int));
        }
        match &terms[j] {
            Term::Var(_, nm) => {
                if !contains_name(bound, nm) && !contains_name(acc, nm) {
                    acc.push(nm.clone());
                    proof {
                        assert(acc.deep_view() =~= acc0.push(nm@));
                    }
                }
            },
            Term::Wildcard => {},
        }
        j = j + 1;
    }
    proof {
        assert(all.skip(n as int) =~= Seq::<Term>::empty());
    }
}

fn collect_fact(f: &Fact, bound: &mut Vec<String>, acc: &mut Vec<String>)
    ensures
        final(bound).deep_view() == old(bound).deep_view(),
        final(acc).deep_view() == free_in_fact(
            *f,
            old(bound).deep_view(),
            old(acc).deep_view(),
        ),
        final(acc)@.len() <= old(acc)@.len() + fact_size(*f),
    decreases *f,
{
    proof {
        lemma_fact_size_pos(*f);
    }
    match &f.data {
        FactData::True => {},
        FactData::False => {},
        FactData::And(f1, f2) => {
            proof {
                lemma_fact_size_pos(**f1);
                lemma_fact_size_pos(**f2);
            }
            collect_fact(f1, bound, acc);
            collect_fact(f2, bound, acc);
        },
        FactData::Or(f1, f2) => {
            proof {
                lemma_fact_size_pos(**f1);
                lemma_fact_size_pos(**f2);
            }
            collect_fact(f1, bound, acc);
            collect_fact(f2, bound, acc);
        },
        FactData::Not(f1) => {
            collect_fact(f1, bound, acc);
        },
        FactData::Implication(f1, f2) => {
            proof {
                lemma_fact_size_pos(**f1);
                lemma_fact_size_pos(**f2);
            }
            collect_fact(f1, bound, acc);
            collect_fact(f2, bound, acc);
        },
        FactData::ForAll(v, f1) => {
            let ghost bound0 = bound.deep_view();
            bound.push(v.clone());
            proof {
                assert(bound.deep_view() =~= bound0.push(v@));
            }
            collect_fact(f1, bound, acc);
            let ghost bound1 = bound.deep_view();
            let _ = bound.pop();
            proof {
                assert(bound.deep_view() =~= bound1.drop_last());
                assert(bound.deep_view() =~= bound0);
            }
        },
        FactData::Exists(v, f1) => {
            let ghost bound0 = bound.deep_view();
            bound.push(v.clone());
            proof {
                assert(bound.deep_view() =~= bound0.push(v@));
            }
            collect_fact(f1, bound, acc);
            let ghost bound1 = bound.deep_view();
            let _ = bound.pop();
            proof {
                assert(bound.deep_view() =~= bound1.drop_last());
                assert(bound.deep_view() =~= bound0);
            }
        },
        FactData::IfThenElse(c, t, e) => {
            proof {
                lemma_fact_size_pos(**c);
                lemma_fact_size_pos(**t);
                lemma_fact_size_pos(**e);
            }
            collect_fact(c, bound, acc);
            collect_fact(t, bound, acc);
            collect_fact(e, bound, acc);
        },
        FactData::Apply(a) => {
            collect_terms(&a.terms, bound, acc);
        },
    }
}

/// The free named variables of one item, in first-appearance order, head
/// first.
pub fn collect_item_names(item: &Item) -> (names: Vec<String>)
    ensures
        names.deep_view() == free_in_item(*item),
        names@.len() <= item.head.terms@.len() + body_size(*item),
{
    let mut bound: Vec<String> = Vec::new();
    let mut acc: Vec<String> = Vec::new();
    proof {
        assert(bound.deep_view() =~= Seq::<Seq<char>>::empty());
        assert(acc.deep_view() =~= Seq::<Seq<char>>::empty());
    }
    collect_terms(&item.head.terms, &bound, &mut acc);
    match &item.body {
        Some(b) => {
            collect_fact(b, &mut bound, &mut acc);
        },
        None => {},
    }
    acc
}

/// Lower one program item to one clause: the item's free named variables
/// become its outermost universal binders.
pub fn lower_item(item: &Item) -> (r: LowerResult<Clause>)
    requires
        item_size(*item) <= usize::MAX,
    ensures
        clause_res_view(r) == lower_item_v(*item),
        r matches Ok(c) ==> clause_well_scoped(c@, 0),
{
    let names = collect_item_names(item);
    let n = names.len();
    let ghost names_v = names.deep_view();
    let ghost env0 = names_v.map_values(|nm: Seq<char>| BindV::Named(nm));
    let mut env = LowerEnvironment::new();
    let mut i: usize = 0;
    proof {
        assert(env@ =~= names_v.take(0).map_values(|nm: Seq<char>| BindV::Named(nm)));
    }
    while i < n
        invariant
            i <= n,
            n == names@.len(),
            names_v == names.deep_view(),
            env@ == names_v.take(i as int).map_values(|nm: Seq<char>| BindV::Named(nm)),
        decreases n - i,
    {
        let ghost pre = env@;
        env.push_bound_name(names[i].clone());
        proof {
            assert(names@[i as int]@ == names_v[i as int]);
            assert(env@ =~= names_v.take(i + 1 as int).map_values(
                |nm: Seq<char>| BindV::Named(nm),
            ));
        }
        i = i + 1;
    }
    proof {
        assert(names_v.take(n as int) =~= names_v);
        assert(env@ == env0);
        lemma_count_wildcards_bounds(item.head.terms@);
    }
    let k = item.head.count_wildcards();
    env.push_wildcards(k);
    let ghost env1 = env0 + wilds(k as int);
    let happ = match lower_application(&item.head, &env) {
        Ok(a) => a,
        Err(e) => {
            return Err(e);
        },
    };
    proof {
        lemma_lower_terms_props(item.head.terms@, env1, 0);
        assert forall|j: int| 0 <= j < happ@.args.len() implies happ@.args[j] < env1.len() by {
            assert(item.head.terms@[j] is Var || item.head.terms@[j] is Wildcard);
        }
        assert(crate::goal::app_well_scoped(happ@, env1.len() as int));
    }
    let clause = match &item.body {
        Some(b) => {
            proof {
                lemma_lower_fact_well_scoped(*b, env1);
            }
            match lower_fact(b, &mut env) {
                Ok(g) => Clause::Implication(Box::new(g), happ),
                Err(e) => {
                    return Err(e);
                },
            }
        },
        None => Clause::Leaf(happ),
    };
    proof {
        assert(clause_well_scoped(clause@, env1.len() as int));
        lemma_clause_in_foralls_well_scoped(clause@, k as int, n as int);
    }
    let clause = clause.in_foralls(k);
    proof {
        lemma_clause_in_foralls_well_scoped(clause@, n as int, 0);
    }
    let clause = clause.in_foralls(n);
    Ok(clause)
}

/// Lower a whole program, item by item; the first failing item's error
/// aborts the run, and every produced clause is well scoped and closed.
pub fn lower_program(program: &Program) -> (r: LowerResult<Vec<Clause>>)
    requires
        forall|i: int|
            0 <= i < program.items@.len() ==> item_size(#[trigger] program.items@[i])
                <= usize::MAX,
    ensures
        match r {
            Ok(cs) => {
                &&& lower_program_v(*program) == Ok::<Seq<ClauseV>, Error>(
                    cs@.map_values(|c: Clause| clause_view(c)),
                )
                &&& forall|i: int|
                    0 <= i < cs@.len() ==> clause_well_scoped(#[trigger] cs@[i]@, 0)
            },
            Err(e) => lower_program_v(*program) == Err::<Seq<ClauseV>, Error>(e),
        },
{
    let ghost items = program.items@;
    let n = program.items.len();
    let mut out: Vec<Clause> = Vec::new();
    let mut j: usize = 0;
    proof {
        assert(items.skip(0) =~= items);
        assert(out@.map_values(|c: Clause| clause_view(c)) =~= Seq::<ClauseV>::empty());
    }
    while j < n
        invariant
            j <= n,
            n == items.len(),
            items == program.items@,
            forall|i: int|
                0 <= i < items.len() ==> item_size(#[trigger] items[i]) <= usize::MAX,
            forall|i: int| 0 <= i < out@.len() ==> clause_well_scoped(#[trigger] out@[i]@, 0),
            lower_items_v(items) == match lower_items_v(items.skip(j as int)) {
                Ok(rest) => Ok(out@.map_values(|c: Clause| clause_view(c)) + rest),
                Err(e) => Err::<Seq<ClauseV>, Error>(e),
            },
        decreases n - j,
    {
        let ghost pre = items.skip(j as int);
        let ghost out0 = out@.map_values(|c: Clause| clause_view(c));
        proof {
            assert(pre[0] == items[j as int]);
            assert(pre.drop_first() =~= items.skip(j + 1 as int));
        }
        match lower_item(&program.items[j]) {
            Ok(c) => {
                out.push(c);
                proof {
                    assert(out@.map_values(|cl: Clause| clause_view(cl)) =~= out0.push(c@));
                    assert forall|rest: Seq<ClauseV>|
                        (out0 + (seq![c@] + rest)) =~= (out0.push(c@) + rest) by {}
                }
            },
            Err(e) => {
                return Err(e);
            },
        }
        j = j + 1;
    }
    proof {
        assert(items.skip(n as int) =~= Seq::<Item>::empty());
        assert(out@.map_values(|c: Clause| clause_view(c)) + Seq::<ClauseV>::empty()
            =~= out@.map_values(|c: Clause| clause_view(c)));
    }
    Ok(out)
}

} // verus!
