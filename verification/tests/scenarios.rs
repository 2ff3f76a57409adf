use g1_common::lang::ParseError;
use g1_common::lowering::{LoweringError, QueryError};
use g1_common::naive_solve::{naive_solve, naive_solve_selfcontained};
use g1_common::nameless::{NamelessClause, NamelessPredicate, NamelessQuery, NamelessValue};
use g1_common::validate::ValidationError;

fn s(x: &str) -> String {
    x.to_string()
}

fn t3(a: &str, b: &str, c: &str) -> (String, String, String) {
    (s(a), s(b), s(c))
}

fn rows(mut got: Vec<Vec<String>>) -> Vec<Vec<String>> {
    got.sort();
    got
}

fn compile(src: &str) -> NamelessQuery {
    NamelessQuery::from_str(src).unwrap()
}

#[test]
fn reachability_from_text() {
    let q = compile(
        "path(X,Y) :- edge(X,Y,_). path(X,Z) :- edge(X,Y,_), path(Y,Z). ?- path(\"D\", X).",
    );
    let edges = vec![t3("A", "B", ""), t3("B", "C", ""), t3("C", "D", ""), t3("D", "B", "")];
    let got = naive_solve(&[], &[], &edges, &[], &[], None, &q);
    assert_eq!(rows(got), vec![vec![s("B")], vec![s("C")], vec![s("D")]]);
}

#[test]
fn reachability_is_the_same_twice() {
    let q = compile(
        "path(X,Y) :- edge(X,Y,_). path(X,Z) :- edge(X,Y,_), path(Y,Z). ?- path(X, Y).",
    );
    let edges = vec![t3("A", "B", ""), t3("B", "C", ""), t3("C", "A", "")];
    let first = rows(naive_solve(&[], &[], &edges, &[], &[], None, &q));
    let second = rows(naive_solve(&[], &[], &edges, &[], &[], None, &q));
    assert_eq!(first.len(), 9);
    assert_eq!(first, second);
}

#[test]
fn name_lookup() {
    let q = compile("?- name(A, \"other\", \"bar\").");
    let names = vec![t3("u1", "readme", "foo"), t3("u2", "readme", "bar"), t3("u2", "other", "bar")];
    let got = naive_solve(&[], &names, &[], &[], &[], None, &q);
    assert_eq!(got, vec![vec![s("u2")]]);
}

#[test]
fn stratified_negation_removes_the_only_candidate() {
    let q = compile("rel(X,Y) :- edge(X,Y,\"x\"), !edge(Y,X,\"ignore\"). ?- rel(X,Y).");
    let edges = vec![t3("A", "B", "x"), t3("B", "A", "ignore")];
    let got = naive_solve(&[], &[], &edges, &[], &[], None, &q);
    assert_eq!(got, Vec::<Vec<String>>::new());
}

#[test]
fn stratified_negation_keeps_what_is_not_negated() {
    let q = compile("rel(X,Y) :- edge(X,Y,\"x\"), !edge(Y,X,\"ignore\"). ?- rel(X,Y).");
    let edges = vec![t3("A", "B", "x"), t3("B", "A", "ignore"), t3("C", "D", "x")];
    let got = naive_solve(&[], &[], &edges, &[], &[], None, &q);
    assert_eq!(got, vec![vec![s("C"), s("D")]]);
}

#[test]
fn negation_only_variable_is_rejected() {
    let r = NamelessQuery::from_str("p(\"a\"). bad(X) :- !p(X). ?- bad(X).");
    assert_eq!(
        r,
        Err(QueryError::Validation(ValidationError::NeverUsedPositively { var: 0 }))
    );
}

#[test]
fn head_only_variable_is_rejected() {
    let r = NamelessQuery::from_str("p(X). ?- p(X).");
    assert_eq!(
        r,
        Err(QueryError::Validation(ValidationError::NeverUsedPositively { var: 0 }))
    );
}

#[test]
fn recursion_through_negation_is_rejected() {
    let r = NamelessQuery::from_str("p(X) :- !q(X). q(X) :- !p(X). ?- p(X).");
    assert_eq!(r, Err(QueryError::Lowering(LoweringError::IllegalRecursion)));
}

#[test]
fn mutual_positive_recursion_is_rejected() {
    let r = NamelessQuery::from_str("p(X) :- q(X). q(X) :- p(X). ?- p(X).");
    assert_eq!(r, Err(QueryError::Lowering(LoweringError::IllegalRecursion)));
}

#[test]
fn negated_call_of_the_clause_itself_is_bad_stratification() {
    let r = NamelessQuery::from_str("p(X) :- atom(X), !p(X). ?- p(X).");
    assert_eq!(
        r,
        Err(QueryError::Validation(ValidationError::BadStratification {
            group: 0,
            callee: 5,
            negated: true
        }))
    );
}

#[test]
fn limit_gives_that_many_distinct_answers() {
    let q = compile("?- atom(X).");
    let atoms = vec![s("a1"), s("a2"), s("a3"), s("a4"), s("a5"), s("a6")];
    let got = naive_solve(&atoms, &[], &[], &[], &[], Some(3), &q);
    assert_eq!(got.len(), 3);
    for row in &got {
        assert_eq!(row.len(), 1);
        assert!(atoms.contains(&row[0]));
    }
    assert_ne!(got[0], got[1]);
    assert_ne!(got[0], got[2]);
    assert_ne!(got[1], got[2]);
}

#[test]
fn limit_above_the_number_of_answers_gives_all() {
    let q = compile("?- atom(X).");
    let atoms = vec![s("a1"), s("a2"), s("a1")];
    let got = naive_solve(&atoms, &[], &[], &[], &[], Some(10), &q);
    assert_eq!(rows(got), vec![vec![s("a1")], vec![s("a2")]]);
}

#[test]
fn limit_zero_gives_nothing() {
    let q = compile("?- atom(X).");
    let atoms = vec![s("a1")];
    let got = naive_solve(&atoms, &[], &[], &[], &[], Some(0), &q);
    assert!(got.is_empty());
}

#[test]
fn more_facts_give_no_fewer_answers_without_negation() {
    let q = compile(
        "path(X,Y) :- edge(X,Y,_). path(X,Z) :- edge(X,Y,_), path(Y,Z). ?- path(\"A\", X).",
    );
    let few = vec![t3("A", "B", "")];
    let many = vec![t3("A", "B", ""), t3("B", "C", "")];
    let small = naive_solve(&[], &[], &few, &[], &[], None, &q);
    let large = naive_solve(&[], &[], &many, &[], &[], None, &q);
    assert_eq!(rows(small.clone()), vec![vec![s("B")]]);
    assert_eq!(rows(large.clone()), vec![vec![s("B")], vec![s("C")]]);
    for row in small {
        assert!(large.contains(&row));
    }
}

#[test]
fn order_of_clauses_and_literals_does_not_matter() {
    let a = compile(
        "path(X,Y) :- edge(X,Y,_). path(X,Z) :- edge(X,Y,_), path(Y,Z). ?- path(\"A\", X).",
    );
    let b = compile(
        "path(X,Z) :- path(Y,Z), edge(X,Y,_). path(X,Y) :- edge(X,Y,_). ?- path(\"A\", X).",
    );
    let edges = vec![t3("A", "B", ""), t3("B", "C", ""), t3("C", "D", "")];
    let left = rows(naive_solve(&[], &[], &edges, &[], &[], None, &a));
    let right = rows(naive_solve(&[], &[], &edges, &[], &[], None, &b));
    assert_eq!(left, vec![vec![s("B")], vec![s("C")], vec![s("D")]]);
    assert_eq!(left, right);
}

#[test]
fn equality_binds_from_a_string_and_tests_two_variables() {
    let q = compile("is(X) :- '='(X, \"a\"). same(X, Y) :- atom(X), atom(Y), '='(X, Y). ?- same(X, Y).");
    let atoms = vec![s("a"), s("b")];
    let got = naive_solve(&atoms, &[], &[], &[], &[], None, &q);
    assert_eq!(rows(got), vec![vec![s("a"), s("a")], vec![s("b"), s("b")]]);
    let q = compile("is(X) :- '='(\"a\", X). ?- is(X).");
    assert_eq!(naive_solve_selfcontained(&q), vec![vec![s("a")]]);
}

#[test]
fn inequality_filters() {
    let q = compile("other(X, Y) :- atom(X), atom(Y), !'='(X, Y). ?- other(\"a\", Y).");
    let atoms = vec![s("a"), s("b"), s("c")];
    let got = naive_solve(&atoms, &[], &[], &[], &[], None, &q);
    assert_eq!(rows(got), vec![vec![s("b")], vec![s("c")]]);
}

#[test]
fn equality_between_variables_binds_both() {
    let q = compile("q(X) :- atom(X). p(X, Y) :- q(X), '='(X, Y). ?- p(X, Y).");
    let atoms = vec![s("a"), s("b")];
    let got = naive_solve(&atoms, &[], &[], &[], &[], None, &q);
    assert_eq!(rows(got), vec![vec![s("a"), s("a")], vec![s("b"), s("b")]]);
    let q = compile("p(X, Y) :- '='(Y, X), atom(X). ?- p(\"b\", Y).");
    let got = naive_solve(&atoms, &[], &[], &[], &[], None, &q);
    assert_eq!(got, vec![vec![s("b")]]);
}

#[test]
fn equality_alone_ranges_over_the_strings_and_the_facts() {
    let q = compile("same(X, Y) :- '='(X, Y). ?- same(X, Y).");
    assert_eq!(q.clauses[0][0].body_pos[0].name, u32::MAX);
    let atoms = vec![s("a")];
    let edges = vec![t3("a", "b", "l")];
    let got = naive_solve(&atoms, &[], &edges, &[], &[], None, &q);
    assert_eq!(
        rows(got),
        vec![vec![s("a"), s("a")], vec![s("b"), s("b")], vec![s("l"), s("l")]]
    );
    assert_eq!(naive_solve_selfcontained(&q), Vec::<Vec<String>>::new());
    let q = compile("is(X) :- '='(X, \"k\"). ?- is(X).");
    assert_eq!(naive_solve_selfcontained(&q), vec![vec![s("k")]]);
    let q = compile("no() :- '='(\"j\", \"k\"). yes() :- '='(\"k\", \"k\"), !no(). ?- yes().");
    assert_eq!(naive_solve_selfcontained(&q), vec![Vec::<String>::new()]);
}

#[test]
fn predicates_are_numbered_from_five() {
    let q = compile("a(\"x\"). b(\"y\"). ?- b(X).");
    assert_eq!(q.clauses.len(), 2);
    assert_eq!(q.clauses[0][0].head, vec![NamelessValue::Str(0)]);
    assert_eq!(q.clauses[1][0].head, vec![NamelessValue::Str(1)]);
    assert_eq!(q.goal, NamelessPredicate { name: 6, args: vec![NamelessValue::Var(0)] });
    assert_eq!(q.goal_vars, 1);
    let q = compile("p(X) :- atom(X). p(X) :- edge(X, Y, _), p(Y). ?- p(X).");
    assert_eq!(q.clauses[0][1].body_pos[1].name, 5);
    assert_eq!(q.goal.name, 5);
}

#[test]
fn self_contained_facts_and_rules() {
    let q = compile(
        "edge(\"A\", \"B\"). edge(\"A\", \"C\"). edge(\"B\", \"C\"). \
         path(X, Y) :- edge(X, Y). path(X, Z) :- path(X, Y), edge(Y, Z). ?- path(\"A\", X).",
    );
    assert_eq!(
        rows(naive_solve_selfcontained(&q)),
        vec![vec![s("B")], vec![s("C")]]
    );
}

#[test]
fn blobs_and_tags_are_facts_too() {
    let q = compile("t(A, H) :- tag(A, \"k\", V), blob(A, V, _, H). ?- t(A, H).");
    let tags = vec![t3("x", "k", "kind1"), t3("y", "other", "kind1")];
    let blobs = vec![(s("x"), s("kind1"), s("text/plain"), s("00ff")), (s("y"), s("kind1"), s("m"), s("11"))];
    let got = naive_solve(&[], &[], &[], &tags, &blobs, None, &q);
    assert_eq!(got, vec![vec![s("x"), s("00ff")]]);
}

#[test]
fn goal_with_a_repeated_variable() {
    let q = compile("?- edge(X, X, _).");
    let edges = vec![t3("A", "B", "l"), t3("C", "C", "l")];
    let got = naive_solve(&[], &[], &edges, &[], &[], None, &q);
    assert_eq!(got, vec![vec![s("C"), s("l")]]);
}

#[test]
fn lowering_numbers_predicates_strings_and_variables() {
    let q = compile("b(X) :- a(X, \"k\"). a(X, Y) :- edge(X, Y, \"k\"). ?- b(Z).");
    assert_eq!(q.strings, vec![s("k")]);
    assert_eq!(q.clauses.len(), 2);
    assert_eq!(
        q.clauses[0],
        vec![NamelessClause {
            vars: 2,
            head: vec![NamelessValue::Var(0), NamelessValue::Var(1)],
            body_pos: vec![NamelessPredicate {
                name: 2,
                args: vec![NamelessValue::Var(0), NamelessValue::Var(1), NamelessValue::Str(0)]
            }],
            body_neg: vec![],
        }]
    );
    assert_eq!(
        q.clauses[1],
        vec![NamelessClause {
            vars: 1,
            head: vec![NamelessValue::Var(0)],
            body_pos: vec![NamelessPredicate {
                name: 5,
                args: vec![NamelessValue::Var(0), NamelessValue::Str(0)]
            }],
            body_neg: vec![],
        }]
    );
    assert_eq!(q.goal, NamelessPredicate { name: 6, args: vec![NamelessValue::Var(0)] });
    assert_eq!(q.goal_vars, 1);
}

#[test]
fn equal_strings_get_one_handle() {
    let q = compile("p(\"a\", \"b\", \"a\"). ?- p(\"b\", X, \"a\").");
    assert_eq!(q.strings, vec![s("a"), s("b")]);
    assert_eq!(
        q.clauses[0][0].head,
        vec![NamelessValue::Str(0), NamelessValue::Str(1), NamelessValue::Str(0)]
    );
    assert_eq!(
        q.goal.args,
        vec![NamelessValue::Str(1), NamelessValue::Var(0), NamelessValue::Str(0)]
    );
}

#[test]
fn independent_predicates_keep_the_order_in_which_they_appear() {
    let q = compile("z(\"1\"). y(\"2\"). x(X) :- z(X), y(X). ?- x(X).");
    assert_eq!(q.clauses[0][0].head, vec![NamelessValue::Str(0)]);
    assert_eq!(q.clauses[1][0].head, vec![NamelessValue::Str(1)]);
    assert_eq!(q.clauses[2][0].body_pos[0].name, 5);
    assert_eq!(q.clauses[2][0].body_pos[1].name, 6);
    assert_eq!(q.goal.name, 7);
}

#[test]
fn lowering_errors() {
    assert_eq!(
        NamelessQuery::from_str("atom(\"x\"). ?- atom(X)."),
        Err(QueryError::Lowering(LoweringError::RedefinedBuiltin { clause: 0 }))
    );
    assert_eq!(
        NamelessQuery::from_str("p(X) :- atom(X), q(X). ?- p(X)."),
        Err(QueryError::Lowering(LoweringError::NoSuchClause { clause: 0, literal: 1 }))
    );
    assert_eq!(
        NamelessQuery::from_str("p(X) :- atom(X). ?- nope(X)."),
        Err(QueryError::Lowering(LoweringError::NoSuchClause { clause: 1, literal: 0 }))
    );
    assert_eq!(
        NamelessQuery::from_str("?- edge(X, Y)."),
        Err(QueryError::Lowering(LoweringError::NoSuchClause { clause: 0, literal: 0 }))
    );
}

#[test]
fn parse_error_comes_first() {
    match NamelessQuery::from_str("p(X) :- ?- p(X).") {
        Err(QueryError::Parse(ParseError::UnrecognizedToken { .. })) => {}
        other => panic!("{:?}", other),
    }
}

#[test]
fn validation_errors_by_hand() {
    let pred = |name: u32, args: Vec<NamelessValue>| NamelessPredicate { name, args };
    let base = NamelessQuery {
        strings: vec![s("a")],
        clauses: vec![vec![NamelessClause {
            vars: 1,
            head: vec![NamelessValue::Var(0)],
            body_pos: vec![pred(0, vec![NamelessValue::Var(0)])],
            body_neg: vec![],
        }]],
        goal_vars: 1,
        goal: pred(5, vec![NamelessValue::Var(0)]),
    };
    assert_eq!(base.validate(), Ok(()));

    let mut q = base.clone();
    q.strings.push(s("a"));
    assert_eq!(q.validate(), Err(ValidationError::BadString { handle: 1 }));

    let mut q = base.clone();
    q.clauses[0][0].head[0] = NamelessValue::Str(7);
    assert_eq!(q.validate(), Err(ValidationError::BadString { handle: 7 }));

    let mut q = base.clone();
    q.clauses[0][0].body_pos[0].args[0] = NamelessValue::Var(3);
    assert_eq!(q.validate(), Err(ValidationError::BadVariableIndex { max_vars: 1, var: 3 }));

    let mut q = base.clone();
    q.goal.name = 9;
    assert_eq!(q.validate(), Err(ValidationError::NoSuchClause { argn: 1, name: 9 }));

    let mut q = base.clone();
    q.clauses[0][0].body_pos[0].args.push(NamelessValue::Var(0));
    assert_eq!(q.validate(), Err(ValidationError::BadArgn { expected: 1, found: 2 }));

    let mut q = base.clone();
    q.clauses[0].push(NamelessClause {
        vars: 0,
        head: vec![NamelessValue::Str(0), NamelessValue::Str(0)],
        body_pos: vec![],
        body_neg: vec![],
    });
    assert_eq!(q.validate(), Err(ValidationError::BadArgn { expected: 1, found: 2 }));

    let mut q = base.clone();
    q.clauses.push(vec![NamelessClause {
        vars: 0,
        head: vec![NamelessValue::Str(0)],
        body_pos: vec![],
        body_neg: vec![],
    }]);
    q.clauses[0][0].body_pos.push(pred(6, vec![NamelessValue::Var(0)]));
    assert_eq!(
        q.validate(),
        Err(ValidationError::BadStratification { group: 0, callee: 6, negated: false })
    );

    let mut q = base.clone();
    q.clauses[0][0].body_pos.push(pred(5, vec![NamelessValue::Var(0)]));
    assert_eq!(q.validate(), Ok(()));

    let mut q = base.clone();
    q.clauses[0][0].vars = 2;
    q.clauses[0][0].body_pos.push(pred(u32::MAX, vec![NamelessValue::Var(0), NamelessValue::Var(1)]));
    assert_eq!(q.validate(), Ok(()));

    let mut q = base.clone();
    q.clauses[0][0].vars = 2;
    q.clauses[0][0].body_neg.push(pred(u32::MAX, vec![NamelessValue::Var(0), NamelessValue::Var(1)]));
    assert_eq!(q.validate(), Err(ValidationError::NeverUsedPositively { var: 1 }));

    let mut q = base.clone();
    q.clauses[0][0].body_pos.push(pred(u32::MAX, vec![NamelessValue::Var(0)]));
    assert_eq!(q.validate(), Err(ValidationError::BadArgn { expected: 2, found: 1 }));

    let mut q = base.clone();
    q.goal_vars = 2;
    assert_eq!(q.validate(), Err(ValidationError::NeverUsedPositively { var: 1 }));

    let mut q = base.clone();
    q.clauses[0][0].body_neg.push(pred(0, vec![NamelessValue::Var(0)]));
    assert_eq!(q.validate(), Ok(()));
}

#[test]
fn negation_over_a_recursive_predicate_below() {
    let q = compile(
        "reach(X,Y) :- edge(X,Y,_). \
         reach(X,Z) :- reach(X,Y), edge(Y,Z,_). \
         node(X) :- edge(X,_,_). \
         node(X) :- edge(_,X,_). \
         unreach(X,Y) :- node(X), node(Y), !reach(X,Y). \
         ?- unreach(\"A\", Y).",
    );
    let edges = vec![t3("A", "B", ""), t3("B", "C", ""), t3("D", "A", "")];
    let got = naive_solve(&[], &[], &edges, &[], &[], None, &q);
    assert_eq!(rows(got), vec![vec![s("A")], vec![s("D")]]);
}

#[test]
fn negation_of_a_negation_in_three_strata() {
    let q = compile(
        "a(X) :- atom(X), !tag(X, \"skip\", \"yes\"). \
         b(X) :- atom(X), !a(X). \
         c(X) :- atom(X), !b(X). \
         ?- c(X).",
    );
    let atoms = vec![s("1"), s("2"), s("3")];
    let tags = vec![t3("2", "skip", "yes")];
    let got = naive_solve(&atoms, &[], &[], &tags, &[], None, &q);
    assert_eq!(rows(got), vec![vec![s("1")], vec![s("3")]]);
    let q = compile(
        "a(X) :- atom(X), !tag(X, \"skip\", \"yes\"). b(X) :- atom(X), !a(X). ?- b(X).",
    );
    let got = naive_solve(&atoms, &[], &[], &tags, &[], None, &q);
    assert_eq!(got, vec![vec![s("2")]]);
}

#[test]
fn facts_given_twice_count_once() {
    let q = compile("two(X, Y) :- atom(X), atom(Y). ?- two(X, Y).");
    let atoms = vec![s("a"), s("a"), s("b"), s("a")];
    let got = naive_solve(&atoms, &[], &[], &[], &[], None, &q);
    assert_eq!(got.len(), 4);
    let got = naive_solve(&atoms, &[], &[], &[], &[], Some(usize::MAX), &q);
    assert_eq!(
        rows(got),
        vec![
            vec![s("a"), s("a")],
            vec![s("a"), s("b")],
            vec![s("b"), s("a")],
            vec![s("b"), s("b")]
        ]
    );
}

#[test]
fn constants_in_heads_and_goals() {
    let q = compile(
        "kind(\"edge\", X) :- edge(X, _, _). kind(\"atom\", X) :- atom(X). ?- kind(K, \"a\").",
    );
    let atoms = vec![s("a")];
    let edges = vec![t3("a", "b", "l"), t3("b", "a", "l")];
    let got = naive_solve(&atoms, &[], &edges, &[], &[], None, &q);
    assert_eq!(rows(got), vec![vec![s("atom")], vec![s("edge")]]);
    let q = compile("yes() :- atom(\"a\"). ?- yes().");
    assert_eq!(naive_solve(&atoms, &[], &[], &[], &[], None, &q), vec![Vec::<String>::new()]);
    let q = compile("yes() :- atom(\"z\"). ?- yes().");
    assert_eq!(naive_solve(&atoms, &[], &[], &[], &[], None, &q), Vec::<Vec<String>>::new());
}
