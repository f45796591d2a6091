use chalk_lower::ast::Span;
use chalk_lower::environment::LowerEnvironment;
use chalk_lower::error::ErrorKind;
use chalk_lower::goal::{Application, Clause, Goal};
use chalk_lower::lower_goal::LowerGoal;
use chalk_lower::lower_program::{lower_item, lower_program};
use chalk_lower::parser::parse_program;
use chalk_lower::render::clause_text;

fn leaf() -> Goal {
    Goal::Leaf(Application { name: "Foo".to_string(), args: vec![0] })
}

#[test]
fn in_exists_zero_is_noop() {
    assert_eq!(leaf().in_exists(0), leaf());
    assert_eq!(leaf().in_foralls(0), leaf());
}

#[test]
fn in_exists_merges_counts() {
    assert_eq!(leaf().in_exists(2).in_exists(3), leaf().in_exists(5));
    assert_eq!(leaf().in_foralls(2).in_foralls(3), leaf().in_foralls(5));
    assert_eq!(leaf().in_exists(1).in_exists(0), leaf().in_exists(1));
}

#[test]
fn in_exists_does_not_merge_across_kinds() {
    let g = leaf().in_exists(1).in_foralls(1);
    match g {
        Goal::ForAll(1, inner) => match *inner {
            Goal::Exists(1, _) => {},
            _ => panic!("expected an existential under the universal"),
        },
        _ => panic!("expected a universal binder outside"),
    }
}

#[test]
fn environment_balance_on_success_and_failure() {
    let program = parse_program("Foo(?X) :- Bar(?Y).").unwrap();
    let body = program.items[0].body.as_ref().unwrap();

    // Failure: ?Y is not in scope; the stack depth is unchanged.
    let mut env = LowerEnvironment::new();
    assert_eq!(env.len(), 0);
    let r = body.lower_goal(&mut env);
    assert!(r.is_err());
    assert_eq!(env.len(), 0);

    // Success: with ?Y in scope the same body lowers, and the entry
    // pushed beforehand is still there afterwards.
    env.push_bound_name("Y".to_string());
    assert_eq!(env.len(), 1);
    let r = body.lower_goal(&mut env);
    assert!(r.is_ok());
    assert_eq!(env.len(), 1);
}

#[test]
fn unknown_variable_error_span() {
    let program = parse_program("Foo(?X) :- Bar(?Y).").unwrap();
    let body = program.items[0].body.as_ref().unwrap();
    let mut env = LowerEnvironment::new();
    let err = body.lower_goal(&mut env).unwrap_err();
    assert_eq!(err.kind, ErrorKind::UnknownVariable);
    assert_eq!(err.span, Span { lo: 15, hi: 17 });
}

#[test]
fn wildcards_get_distinct_fresh_bindings() {
    // Two wildcards in one application: one two-variable wrapper, and the
    // occurrences bound to distinct depths inside it.
    let program = parse_program("Foo(?X) :- Bar(_, _).").unwrap();
    let clause = lower_item(&program.items[0]).unwrap();
    match clause {
        Clause::ForAll(1, inner) => match *inner {
            Clause::Implication(goal, _) => match *goal {
                Goal::Exists(2, leaf) => match *leaf {
                    Goal::Leaf(app) => {
                        assert_eq!(app.args, vec![0, 1]);
                    },
                    _ => panic!("expected a leaf under the wrapper"),
                },
                _ => panic!("expected a two-variable existential wrapper"),
            },
            _ => panic!("expected a rule"),
        },
        _ => panic!("expected one universal binder"),
    }
}

#[test]
fn sibling_applications_do_not_share_wildcards() {
    // A wildcard in each of two applications: each gets its own wrapper,
    // scoped to its own application.
    test_one("Foo(?X) :- Bar(_), Baz(_).",
        r#"forall{?A -> ("Foo()/1"(?A) :- and(exists{?B -> "Bar()/1"(?B)}, exists{?C -> "Baz()/1"(?C)}))}"#);
}

#[test]
fn surface_binders_merge_into_one_count() {
    let program = parse_program("Foo(?X) :- exists{?Y, ?Z -> Bar(?X, ?Y, ?Z)}.").unwrap();
    let clause = lower_item(&program.items[0]).unwrap();
    match &clause {
        Clause::ForAll(1, inner) => match &**inner {
            Clause::Implication(goal, _) => {
                assert!(matches!(&**goal, Goal::Exists(2, _)));
            },
            _ => panic!("expected a rule"),
        },
        _ => panic!("expected one universal binder"),
    }
    assert_eq!(
        clause_text(&clause),
        r#"forall{?A -> ("Foo()/1"(?A) :- exists{?B -> exists{?C -> "Bar()/3"(?A, ?B, ?C)}})}"#
    );
}

fn test_one(text: &str, expected: &str) {
    let program = parse_program(text).unwrap();
    let clauses = lower_program(&program).unwrap();
    assert_eq!(clauses.len(), 1);
    assert_eq!(clause_text(&clauses[0]), expected);
}

#[test]
fn disjunction_as_plain_goal_succeeds() {
    // The shape that lower_clause rejects as a condition is fine as a goal.
    test_one("Foo(?X) :- (Bar(?X); Baz(?X)).",
        r#"forall{?A -> ("Foo()/1"(?A) :- or("Bar()/1"(?A); "Baz()/1"(?A)))}"#);
}

#[test]
fn implication_condition_rejected_shapes() {
    // A nested implication and an if-then-else are rejected as conditions
    // too, with the condition's own span.
    let program = parse_program("Foo() :- ((Bar() => Baz()) => Bop()).").unwrap();
    let err = lower_program(&program).unwrap_err();
    assert_eq!(err.kind, ErrorKind::IllegalClause);
    let program = parse_program("Foo() :- (if (true) (true) (true) => Bop()).").unwrap();
    let err = lower_program(&program).unwrap_err();
    assert_eq!(err.kind, ErrorKind::IllegalClause);
}

#[test]
fn trivial_goals_negation_and_conditional() {
    test_one("Foo() :- !true.", r#"("Foo()/0"() :- not(true))"#);
    test_one("Foo() :- if (true) (false) (Bar()).",
        r#"("Foo()/0"() :- if(true; false; "Bar()/0"()))"#);
}

#[test]
fn fact_without_body() {
    test_one("Foo(?X, _).", r#"forall{?A, ?B -> "Foo()/2"(?A, ?B)}"#);
}

#[test]
fn empty_program() {
    let program = parse_program("").unwrap();
    let clauses = lower_program(&program).unwrap();
    assert_eq!(clauses.len(), 0);
}

#[test]
fn multiple_items_are_independent() {
    let program = parse_program("Foo(?X) :- Bar(?X). Baz(?Y).").unwrap();
    let clauses = lower_program(&program).unwrap();
    assert_eq!(clauses.len(), 2);
    assert_eq!(
        clause_text(&clauses[0]),
        r#"forall{?A -> ("Foo()/1"(?A) :- "Bar()/1"(?A))}"#
    );
    assert_eq!(clause_text(&clauses[1]), r#"forall{?A -> "Baz()/1"(?A)}"#);
}

#[test]
fn syntax_error_is_reported() {
    let err = parse_program("Foo(?X").unwrap_err();
    assert_eq!(err.kind, ErrorKind::Syntax);
    let err = parse_program("Foo(?X) :- .").unwrap_err();
    assert_eq!(err.kind, ErrorKind::Syntax);
}

#[test]
fn application_lowers_directly() {
    // The head-position entry point: a bare application is usable on its
    // own, with its wildcard wrapped.
    let program = parse_program("Bar(?X, _).").unwrap();
    let head = &program.items[0].head;
    let mut env = LowerEnvironment::new();
    env.push_bound_name("X".to_string());
    let goal = head.lower_goal(&mut env).unwrap();
    assert_eq!(env.len(), 1);
    match goal {
        Goal::Exists(1, leaf) => match *leaf {
            Goal::Leaf(app) => {
                // `?X` resolves past the fresh wildcard entry; `_` to it.
                assert_eq!(app.args, vec![1, 0]);
            },
            _ => panic!("expected a leaf under the wrapper"),
        },
        _ => panic!("expected a one-variable existential wrapper"),
    }
}

#[test]
fn deep_nesting_stays_well_scoped() {
    // Rendering resolves every reference; an out-of-range depth would
    // print as `?unbound`.
    let program = parse_program(
        "Foo(?X, _) :- forall{?Y -> exists{?Z -> Bar(?X, ?Y, ?Z, _), Baz(?Z); Bop(?Y)}}.",
    )
    .unwrap();
    let clauses = lower_program(&program).unwrap();
    let s = clause_text(&clauses[0]);
    assert!(!s.contains("unbound"), "ill-scoped reference in {}", s);
}
