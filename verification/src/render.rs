//! Textual rendering of clauses and goals in de-Bruijn pretty notation:
//! fresh symbols `?A, ?B, ...` are assigned to binder variables in the order
//! the binders are met, a clause binder lists all its variables in one
//! `forall{...}` header, and a goal binder prints one variable per layer.
//! Rendering only observes a value; it carries no semantics of its own.
use vstd::prelude::*;
use crate::goal::{Application, Clause, Goal};
use vstd::string::StringExecFns;

verus! {

/// Append the decimal digits of `n`.
fn push_decimal(out: &mut String, n: usize) {
    let mut digits: Vec<usize> = Vec::new();
    let mut m = n;
    if m == 0 {
        out.append("0");
        return ;
    }
    while m > 0
        decreases m,
    {
        digits.push(m % 10);
        m = m / 10;
    }
    let mut i = digits.len();
    while i > 0
        invariant
            i <= digits@.len(),
        decreases i,
    {
        i = i - 1;
        let d = digits[i];
        let s = match d {
            0 => "0",
            1 => "1",
            2 => "2",
            3 => "3",
            4 => "4",
            5 => "5",
            6 => "6",
            7 => "7",
            8 => "8",
            _ => "9",
        };
        out.append(s);
    }
}

/// Append the fresh symbol with allocation index `idx`: a letter for the
/// first twenty-six, then the letter with a numeric suffix.
fn push_symbol(out: &mut String, idx: usize) {
    let letter = match idx % 26 {
        0 => "A",
        1 => "B",
        2 => "C",
        3 => "D",
        4 => "E",
        5 => "F",
        6 => "G",
        7 => "H",
        8 => "I",
        9 => "J",
        10 => "K",
        11 => "L",
        12 => "M",
        13 => "N",
        14 => "O",
        15 => "P",
        16 => "Q",
        17 => "R",
        18 => "S",
        19 => "T",
        20 => "U",
        21 => "V",
        22 => "W",
        23 => "X",
        24 => "Y",
        _ => "Z",
    };
    out.append(letter);
    if idx / 26 > 0 {
        push_decimal(out, idx / 26);
    }
}

/// Append `?X` for the variable at binding depth `d` under the symbol
/// stack `names`; an out-of-range depth prints as `?unbound`.
fn push_var(out: &mut String, names: &Vec<usize>, d: usize) {
    out.append("?");
    let n = names.len();
    if d < n {
        push_symbol(out, names[n - 1 - d]);
    } else {
        out.append("unbound");
    }
}

/// Allocate the next fresh symbol index, saturating instead of wrapping.
fn next_symbol(next: usize) -> (r: usize) {
    if next < usize::MAX {
        next + 1
    } else {
        next
    }
}

/// Append `"Name()/arity"(?X, ...)`.
fn push_app(out: &mut String, names: &Vec<usize>, a: &Application) {
    out.append("\"");
    out.append(a.name.as_str());
    out.append("()/");
    push_decimal(out, a.args.len());
    out.append("\"(");
    let n = a.args.len();
    let mut i: usize = 0;
    while i < n
        invariant
            n == a.args@.len(),
        decreases n - i,
    {
        if i > 0 {
            out.append(", ");
        }
        push_var(out, names, a.args[i]);
        i = i + 1;
    }
    out.append(")");
}

/// Append the rendering of `g`, allocating fresh symbols from `next` on;
/// returns the next unallocated symbol index. Goal binders print one
/// variable per layer: a count-`n` node prints as `n` nested binders.
fn push_goal(out: &mut String, names: &mut Vec<usize>, next: usize, g: &Goal) -> (r: usize)
    decreases *g,
{
    match g {
        Goal::True => {
            out.append("true");
            next
        },
        Goal::False => {
            out.append("false");
            next
        },
        Goal::Leaf(a) => {
            push_app(out, names, a);
            next
        },
        Goal::And(g1, g2) => {
            out.append("and(");
            let next = push_goal(out, names, next, g1);
            out.append(", ");
            let next = push_goal(out, names, next, g2);
            out.append(")");
            next
        },
        Goal::Or(g1, g2) => {
            out.append("or(");
            let next = push_goal(out, names, next, g1);
            out.append("; ");
            let next = push_goal(out, names, next, g2);
            out.append(")");
            next
        },
        Goal::Not(g1) => {
            out.append("not(");
            let next = push_goal(out, names, next, g1);
            out.append(")");
            next
        },
        Goal::Implication(c, g2) => {
            out.append("(");
            let next = push_clause(out, names, next, c);
            out.append(" => ");
            let next = push_goal(out, names, next, g2);
            out.append(")");
            next
        },
        Goal::IfThenElse(c, t, e) => {
            out.append("if(");
            let next = push_goal(out, names, next, c);
            out.append("; ");
            let next = push_goal(out, names, next, t);
            out.append("; ");
            let next = push_goal(out, names, next, e);
            out.append(")");
            next
        },
        Goal::ForAll(n, g1) => {
            let next = push_goal_binder(out, names, next, *n, "forall{?");
            let next = push_goal(out, names, next, g1);
            close_goal_binder(out, names, *n);
            next
        },
        Goal::Exists(n, g1) => {
            let next = push_goal_binder(out, names, next, *n, "exists{?");
            let next = push_goal(out, names, next, g1);
            close_goal_binder(out, names, *n);
            next
        },
    }
}

/// Open `n` nested single-variable goal binders of one kind.
fn push_goal_binder(
    out: &mut String,
    names: &mut Vec<usize>,
    next: usize,
    n: usize,
    opener: &str,
) -> (r: usize) {
    let mut next = next;
    let mut i: usize = 0;
    while i < n
        decreases n - i,
    {
        out.append(opener);
        push_symbol(out, next);
        out.append(" -> ");
        names.push(next);
        next = next_symbol(next);
        i = i + 1;
    }
    next
}

/// Close `n` nested goal binders and release their symbols.
fn close_goal_binder(out: &mut String, names: &mut Vec<usize>, n: usize) {
    let mut i: usize = 0;
    while i < n
        decreases n - i,
    {
        out.append("}");
        let _ = names.pop();
        i = i + 1;
    }
}

/// Append the rendering of `c`. A clause binder lists all its variables in
/// one header, `forall{?A, ?B, ... -> ...}`.
fn push_clause(out: &mut String, names: &mut Vec<usize>, next: usize, c: &Clause) -> (r: usize)
    decreases *c,
{
    match c {
        Clause::True => {
            out.append("true");
            next
        },
        Clause::False => {
            out.append("false");
            next
        },
        Clause::Leaf(a) => {
            push_app(out, names, a);
            next
        },
        Clause::And(c1, c2) => {
            let next = push_clause(out, names, next, c1);
            out.append(", ");
            push_clause(out, names, next, c2)
        },
        Clause::Not(c1) => {
            out.append("not(");
            let next = push_clause(out, names, next, c1);
            out.append(")");
            next
        },
        Clause::Implication(g, a) => {
            out.append("(");
            push_app(out, names, a);
            out.append(" :- ");
            let next = push_goal(out, names, next, g);
            out.append(")");
            next
        },
        Clause::ForAll(n, c1) => {
            let next = push_clause_binder(out, names, next, *n, "forall{");
            let next = push_clause(out, names, next, c1);
            close_clause_binder(out, names, *n);
            next
        },
        Clause::Exists(n, c1) => {
            let next = push_clause_binder(out, names, next, *n, "exists{");
            let next = push_clause(out, names, next, c1);
            close_clause_binder(out, names, *n);
            next
        },
    }
}

/// Open one clause binder header listing `n` fresh variables.
fn push_clause_binder(
    out: &mut String,
    names: &mut Vec<usize>,
    next: usize,
    n: usize,
    opener: &str,
) -> (r: usize) {
    out.append(opener);
    let mut next = next;
    let mut i: usize = 0;
    while i < n
        decreases n - i,
    {
        if i > 0 {
            out.append(", ");
        }
        out.append("?");
        push_symbol(out, next);
        names.push(next);
        next = next_symbol(next);
        i = i + 1;
    }
    out.append(" -> ");
    next
}

/// Close one clause binder and release its `n` symbols.
fn close_clause_binder(out: &mut String, names: &mut Vec<usize>, n: usize) {
    out.append("}");
    let mut i: usize = 0;
    while i < n
        decreases n - i,
    {
        let _ = names.pop();
        i = i + 1;
    }
}

/// Render one clause with a fresh symbol supply.
pub fn clause_text(c: &Clause) -> String {
    let mut out = String::new();
    let mut names: Vec<usize> = Vec::new();
    let _ = push_clause(&mut out, &mut names, 0, c);
    out
}

/// Render one goal with a fresh symbol supply.
pub fn goal_text(g: &Goal) -> String {
    let mut out = String::new();
    let mut names: Vec<usize> = Vec::new();
    let _ = push_goal(&mut out, &mut names, 0, g);
    out
}

} // verus!
