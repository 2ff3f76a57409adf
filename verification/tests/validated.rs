use g1_common::lang::{Point, Query, Span};
use g1_common::pool::Pool;
use g1_common::stratify::strata_of;
use g1_common::validated::{
    Span as SpanLike, ValidatedClause, ValidatedPredicate, ValidatedQuery, ValidatedValue,
    ValidatedValueInner, ValidationError,
};
use g1_common::visitors::{QueryVisitor, ValueVisitor};

fn s(x: &str) -> String {
    x.to_string()
}

fn v(n: u32) -> ValidatedValue<()> {
    ValidatedValue { inner: ValidatedValueInner::Var(n), span: () }
}

fn t(x: &str) -> ValidatedValue<()> {
    ValidatedValue { inner: ValidatedValueInner::Str(s(x)), span: () }
}

fn call(name: i32, args: Vec<ValidatedValue<()>>) -> ValidatedPredicate<()> {
    ValidatedPredicate { name, args, span: () }
}

fn rule(
    head: ValidatedPredicate<()>,
    body: Vec<(bool, ValidatedPredicate<()>)>,
    vars: u32,
) -> ValidatedClause<()> {
    ValidatedClause { head, body, vars, span: () }
}

fn build(src: &str) -> Result<ValidatedQuery<Span>, ValidationError<Span>> {
    Query::from_str(src).unwrap().to_validated()
}

fn strip_value(v: &ValidatedValue<Span>) -> ValidatedValue<()> {
    ValidatedValue { inner: v.inner.clone(), span: () }
}

fn strip_call(p: &ValidatedPredicate<Span>) -> ValidatedPredicate<()> {
    ValidatedPredicate { name: p.name, args: p.args.iter().map(strip_value).collect(), span: () }
}

fn strip_rule(c: &ValidatedClause<Span>) -> ValidatedClause<()> {
    ValidatedClause {
        head: strip_call(&c.head),
        body: c.body.iter().map(|(n, p)| (*n, strip_call(p))).collect(),
        vars: c.vars,
        span: (),
    }
}

#[test]
fn the_embedded_example_builds_to_the_same_clauses() {
    let q = build(
        "thingy(X) :- atom(X).\n\
         thingy(\"dunno\").\n\
         related(X, X) :- thingy(X).\n\
         related(X, Y) :- edge(X, Y, \"related\"), !edge(Y, X, \"actually ignore that\").\n\
         ?- related(\"dunno\", X).",
    )
    .unwrap();
    let got: Vec<ValidatedClause<()>> = q.clauses.iter().map(strip_rule).collect();
    assert_eq!(
        got,
        vec![
            rule(call(0, vec![v(0)]), vec![(false, call(-2, vec![v(0)]))], 1),
            rule(call(0, vec![t("dunno")]), vec![], 0),
            rule(call(1, vec![v(0), v(0)]), vec![(false, call(0, vec![v(0)]))], 1),
            rule(
                call(1, vec![v(0), v(1)]),
                vec![
                    (false, call(-4, vec![v(0), v(1), t("related")])),
                    (true, call(-4, vec![v(1), v(0), t("actually ignore that")])),
                ],
                2
            ),
        ]
    );
    assert_eq!(strip_call(&q.goal), call(1, vec![t("dunno"), v(0)]));
    assert_eq!(q.goal_vars, 1);
    assert_eq!(q.span, Span(Point(1, 0), Point(5, 24)));
    assert!(q.validate().is_ok());
}

#[test]
fn predicates_are_named_in_the_order_of_the_strata() {
    let q = build("top(X) :- mid(X). mid(X) :- low(X). low(\"a\"). ?- top(X).").unwrap();
    let names: Vec<i32> = q.clauses.iter().map(|c| c.head.name).collect();
    assert_eq!(names, vec![0, 1, 2]);
    assert_eq!(strip_call(&q.clauses[0].head), call(0, vec![t("a")]));
    assert_eq!(strip_call(&q.clauses[1].body[0].1), call(0, vec![v(0)]));
    assert_eq!(strip_call(&q.clauses[2].body[0].1), call(1, vec![v(0)]));
    assert_eq!(q.goal.name, 2);
}

#[test]
fn holes_and_metavariables() {
    let q = build("p(X) :- edge(X, _, _), name(X, $ns, \"t\"). ?- p(_).").unwrap();
    assert_eq!(
        strip_rule(&q.clauses[0]),
        rule(
            call(0, vec![v(0)]),
            vec![
                (false, call(-4, vec![v(0), v(1), v(2)])),
                (false, call(-3, vec![v(0), t("ns"), t("t")])),
            ],
            3
        )
    );
    assert_eq!(strip_call(&q.goal), call(0, vec![v(0)]));
    assert_eq!(q.goal_vars, 1);
}

#[test]
fn building_fails_on_cycles_and_unknown_goals() {
    assert!(matches!(
        build("p(X) :- !q(X). q(X) :- !p(X). ?- p(X)."),
        Err(ValidationError::IllegalRecursion)
    ));
    assert!(matches!(
        build("p(X) :- q(X). q(X) :- p(X). ?- p(X)."),
        Err(ValidationError::IllegalRecursion)
    ));
    match build("p(\"a\"). ?- q(X, Y).") {
        Err(ValidationError::NoSuchClauseBuilding { argn, name, span }) => {
            assert_eq!(argn, 2);
            assert_eq!(name, "q");
            assert_eq!(span, Span(Point(1, 11), Point(1, 18)));
        }
        other => panic!("{:?}", other),
    }
}

#[test]
fn validation_finds_each_kind_of_error() {
    let good = ValidatedQuery {
        clauses: vec![rule(call(0, vec![v(0)]), vec![(false, call(-2, vec![v(0)]))], 1)],
        goal: call(0, vec![v(0)]),
        goal_vars: 1,
        span: (),
    };
    assert!(good.validate().is_ok());

    let mut q = good.clone();
    q.clauses[0].head.args[0] = v(4);
    assert!(matches!(
        q.validate(),
        Err(ValidationError::BadVariable { max_vars: 1, var: 4, .. })
    ));

    let mut q = good.clone();
    q.goal.args[0] = v(1);
    assert!(matches!(
        q.validate(),
        Err(ValidationError::BadVariable { max_vars: 1, var: 1, .. })
    ));

    let mut q = good.clone();
    q.clauses.push(rule(call(-2, vec![t("x")]), vec![], 0));
    assert!(matches!(q.validate(), Err(ValidationError::RedefinedBuiltin { name: -2, .. })));

    let mut q = good.clone();
    q.clauses[0].body.push((false, call(5, vec![v(0)])));
    assert!(matches!(q.validate(), Err(ValidationError::BadRecursion { negated: false, .. })));

    let mut q = good.clone();
    q.clauses[0].head.name = 7;
    q.goal.name = 7;
    q.clauses[0].body.push((false, call(5, vec![v(0)])));
    assert!(matches!(q.validate(), Err(ValidationError::NoSuchClause { name: 5, argn: 1, .. })));

    let mut q = good.clone();
    q.clauses[0].body.push((false, call(-7, vec![v(0)])));
    assert!(matches!(q.validate(), Err(ValidationError::NoSuchClause { name: -7, .. })));

    let mut q = good.clone();
    q.clauses[0].body[0].1.args.push(v(0));
    assert!(matches!(
        q.validate(),
        Err(ValidationError::BadArgn { expected: 1, found: 2, .. })
    ));

    let mut q = good.clone();
    q.clauses.push(rule(call(0, vec![t("a"), t("b")]), vec![], 0));
    assert!(matches!(
        q.validate(),
        Err(ValidationError::BadArgn { expected: 1, found: 2, .. })
    ));

    let mut q = good.clone();
    q.clauses.push(rule(call(1, vec![t("a")]), vec![], 0));
    q.clauses[0].body.push((false, call(1, vec![v(0)])));
    assert!(matches!(
        q.validate(),
        Err(ValidationError::BadRecursion { negated: false, .. })
    ));

    let mut q = good.clone();
    q.clauses[0].body.push((true, call(0, vec![v(0)])));
    assert!(matches!(
        q.validate(),
        Err(ValidationError::BadRecursion { negated: true, .. })
    ));

    let mut q = good.clone();
    q.clauses[0].body[0].0 = true;
    assert!(matches!(
        q.validate(),
        Err(ValidationError::NeverUsedPositively { var: 0, .. })
    ));

    let mut q = good.clone();
    q.goal_vars = 2;
    assert!(matches!(
        q.validate(),
        Err(ValidationError::NeverUsedPositively { var: 1, .. })
    ));
}

#[test]
fn clause_validation_by_itself() {
    let ok = rule(call(0, vec![v(0)]), vec![(false, call(-2, vec![v(0)]))], 1);
    assert!(ok.validate().is_ok());
    let eq_binds = rule(call(0, vec![v(0)]), vec![(false, call(-1, vec![t("a"), v(0)]))], 1);
    assert!(eq_binds.validate().is_ok());
    let eq_vars = rule(call(0, vec![v(0), v(1)]), vec![(false, call(-1, vec![v(0), v(1)]))], 2);
    assert!(eq_vars.validate().is_ok());
    let bound_from_one_side = rule(
        call(1, vec![v(0), v(1)]),
        vec![(false, call(0, vec![v(0)])), (false, call(-1, vec![v(0), v(1)]))],
        2,
    );
    assert!(bound_from_one_side.validate().is_ok());
    let unequal = rule(call(0, vec![v(0), v(1)]), vec![(true, call(-1, vec![v(0), v(1)]))], 2);
    assert!(matches!(
        unequal.validate(),
        Err(ValidationError::NeverUsedPositively { var: 0, .. })
    ));
    let only_negated = rule(call(1, vec![v(0)]), vec![(true, call(0, vec![v(0)]))], 1);
    match only_negated.validate() {
        Err(ValidationError::NeverUsedPositively { clause, var }) => {
            assert_eq!(var, 0);
            assert_eq!(clause, only_negated);
        }
        other => panic!("{:?}", other),
    }
    let second_unbound = rule(
        call(1, vec![v(0), v(1), v(2)]),
        vec![(false, call(0, vec![v(0)])), (true, call(0, vec![v(2)]))],
        3,
    );
    assert!(matches!(
        second_unbound.validate(),
        Err(ValidationError::NeverUsedPositively { var: 1, .. })
    ));
    let out_of_bounds = rule(
        call(1, vec![v(0), v(5)]),
        vec![(false, call(0, vec![v(9), v(0)])), (true, call(0, vec![v(3)]))],
        2,
    );
    assert!(matches!(
        out_of_bounds.validate(),
        Err(ValidationError::BadVariable { max_vars: 2, var: 5, .. })
    ));
    let out_of_bounds_in_body = rule(
        call(1, vec![v(0)]),
        vec![(true, call(0, vec![v(0), v(3)])), (false, call(0, vec![v(9)]))],
        2,
    );
    assert!(matches!(
        out_of_bounds_in_body.validate(),
        Err(ValidationError::BadVariable { max_vars: 2, var: 3, .. })
    ));
    let eq_argn = rule(call(0, vec![]), vec![(false, call(-1, vec![t("a")]))], 0);
    assert!(matches!(
        eq_argn.validate(),
        Err(ValidationError::BadArgn { expected: 2, found: 1, .. })
    ));
    let head_only = rule(call(0, vec![v(0)]), vec![], 1);
    assert!(matches!(
        head_only.validate(),
        Err(ValidationError::NeverUsedPositively { var: 0, .. })
    ));
    let out_of_bounds = rule(call(0, vec![v(2)]), vec![], 1);
    assert!(matches!(
        out_of_bounds.validate(),
        Err(ValidationError::BadVariable { max_vars: 1, var: 2, .. })
    ));
}

#[test]
fn error_messages() {
    let e: ValidationError<()> = ValidationError::BadArgn { expected: 3, found: 12, span: () };
    assert_eq!(e.to_string(), "cannot call a clause that expects 3 args with 12");
    let e: ValidationError<()> = ValidationError::BadRecursion {
        caller: call(2, vec![v(0)]),
        callee: call(-4, vec![v(0), t("a \"b\"\n"), v(10)]),
        negated: true,
    };
    assert_eq!(e.to_string(), "2(#0) cannot call !-4(#0, \"a \\\"b\\\"\\n\", #10)");
    let e: ValidationError<()> = ValidationError::BadRecursion {
        caller: call(0, vec![]),
        callee: call(1, vec![]),
        negated: false,
    };
    assert_eq!(e.to_string(), "0() cannot call 1()");
    let e: ValidationError<Span> =
        ValidationError::BadVariable { max_vars: 2, span: Span(Point(3, 14), Point(3, 15)), var: 7 };
    assert_eq!(e.to_string(), "3:14: cannot use variable #7 in a clause with 2 vars");
    let e: ValidationError<()> = ValidationError::IllegalRecursion;
    assert_eq!(e.to_string(), "invalid recursion detected");
    let e: ValidationError<()> = ValidationError::NeverUsedPositively {
        clause: rule(call(0, vec![v(0)]), vec![], 1),
        var: 0,
    };
    assert_eq!(e.to_string(), "variable #0 was never used positively");
    let e: ValidationError<()> = ValidationError::NoSuchClause { argn: 2, name: -9, span: () };
    assert_eq!(e.to_string(), "no such clause -9/2");
    let e: ValidationError<()> =
        ValidationError::NoSuchClauseBuilding { argn: 1, name: s("foo"), span: () };
    assert_eq!(e.to_string(), "no such clause foo/1");
    let e: ValidationError<()> = ValidationError::RedefinedBuiltin { name: -2147483648, span: () };
    assert_eq!(e.to_string(), "cannot give a clause to the built-in predicate -2147483648");
    let e: ValidationError<()> = ValidationError::TooMany;
    assert_eq!(e.to_string(), "too many variables or predicates");
    assert_eq!(().fmt_span(), "");
    assert_eq!(Span(Point(10, 0), Point(10, 5)).fmt_span(), "10:0: ");
    assert_eq!(call(-1, vec![t("a"), v(3)]).to_string(), "-1(\"a\", #3)");
}

#[test]
fn validated_queries_are_shown() {
    let q = ValidatedQuery {
        clauses: vec![
            rule(call(0, vec![t("a")]), vec![], 0),
            rule(
                call(1, vec![v(0), v(1)]),
                vec![
                    (false, call(-4, vec![v(0), v(1), t("l")])),
                    (true, call(0, vec![v(1)])),
                    (false, call(-1, vec![v(0), t("x")])),
                ],
                2,
            ),
        ],
        goal: call(1, vec![v(0), t("b")]),
        goal_vars: 1,
        span: (),
    };
    assert_eq!(q.clauses[0].to_string(), "0(\"a\").\n");
    assert_eq!(
        q.clauses[1].to_string(),
        "1(#0, #1) :-\n\t-4(#0, #1, \"l\"),\n\t! 0(#1),\n\t-1(#0, \"x\").\n"
    );
    assert_eq!(
        q.to_string(),
        "0(\"a\").\n1(#0, #1) :-\n\t-4(#0, #1, \"l\"),\n\t! 0(#1),\n\t-1(#0, \"x\").\n?- 1(#0, \"b\").\n"
    );
}

#[test]
fn visitors_by_hand() {
    let visitor: QueryVisitor<()> = QueryVisitor::new();
    let mut head = visitor.visit_clause("p", (), ());
    head.visit_arg_var("X", ());
    head.visit_arg_string("k", ());
    head.visit_arg_hole(());
    assert!(head.has_room());
    let mut body = head.visit_body(true, "q", ());
    body.visit_arg_var("Y", ());
    body.visit_arg_var("X", ());
    let head = body.finish();
    let mut body = head.visit_body(false, "p", ());
    body.visit_arg_var("X", ());
    body.visit_arg_var("Y", ());
    body.visit_arg_hole(());
    let visitor = body.finish().finish();
    let mut goal = visitor.visit_goal("p", ());
    goal.visit_arg_hole(());
    goal.visit_arg_var("A", ());
    goal.visit_arg_var("A", ());
    let q = goal.finish(()).unwrap();
    assert_eq!(
        q.clauses,
        vec![rule(
            call(1, vec![v(0), t("k"), v(1)]),
            vec![
                (true, call(0, vec![v(2), v(0)])),
                (false, call(1, vec![v(0), v(2), v(3)])),
            ],
            4
        )]
    );
    assert_eq!(q.goal, call(1, vec![v(0), v(1), v(1)]));
    assert_eq!(q.goal_vars, 2);
    assert!(matches!(q.validate(), Err(ValidationError::NeverUsedPositively { var: 1, .. })));
}

#[test]
fn pool_gives_equal_names_equal_indices() {
    let mut pool = Pool::new();
    assert_eq!(pool.intern(s("x")), 0);
    assert_eq!(pool.intern(s("y")), 1);
    assert_eq!(pool.intern_dummy(), 2);
    assert_eq!(pool.intern(s("x")), 0);
    assert_eq!(pool.intern(s("z")), 3);
    assert_eq!(pool.intern_dummy(), 4);
    assert_eq!(pool.intern(s("y")), 1);
    assert_eq!(pool.next_index, 5);
}

#[test]
fn strata_come_in_layers() {
    assert_eq!(strata_of(0, &vec![]), Vec::<usize>::new());
    assert_eq!(strata_of(3, &vec![]), vec![0, 1, 2]);
    assert_eq!(strata_of(4, &vec![(3, 0), (2, 3), (1, 0)]), vec![1, 2, 3, 0]);
    assert_eq!(strata_of(4, &vec![(0, 1), (0, 2), (1, 3), (2, 3), (0, 1)]), vec![0, 1, 2, 3]);
    assert_eq!(strata_of(3, &vec![(0, 1), (1, 2), (2, 1)]), vec![0]);
    assert_eq!(strata_of(2, &vec![(0, 0)]), vec![1]);
}

#[test]
fn the_checks_of_a_query_come_in_their_order() {
    let good = ValidatedQuery {
        clauses: vec![rule(call(0, vec![v(0)]), vec![(false, call(-2, vec![v(0)]))], 1)],
        goal: call(0, vec![v(0)]),
        goal_vars: 1,
        span: (),
    };
    assert!(good.validate().is_ok());

    // A negated call of the clause itself comes before a call of wrong arity.
    let mut q = good.clone();
    q.clauses[0].body.push((false, call(-2, vec![v(0), v(0)])));
    q.clauses[0].body.push((true, call(0, vec![v(0)])));
    assert!(matches!(q.validate(), Err(ValidationError::BadRecursion { negated: true, .. })));

    // A call of wrong arity comes before a variable of the goal out of bounds.
    let mut q = good.clone();
    q.clauses[0].body.push((false, call(-2, vec![v(0), v(0)])));
    q.goal.args[0] = v(3);
    assert!(matches!(
        q.validate(),
        Err(ValidationError::BadArgn { expected: 1, found: 2, .. })
    ));

    // A call of an undefined predicate comes before it too.
    let mut q = good.clone();
    q.clauses[0].body.push((false, call(-9, vec![v(0)])));
    q.goal.args[0] = v(3);
    assert!(matches!(q.validate(), Err(ValidationError::NoSuchClause { name: -9, argn: 1, .. })));

    // What is wrong with a clause by itself comes first of all.
    let mut q = good.clone();
    q.clauses[0].body.push((true, call(0, vec![v(0)])));
    q.clauses.push(rule(call(1, vec![v(0)]), vec![], 1));
    assert!(matches!(q.validate(), Err(ValidationError::NeverUsedPositively { var: 0, .. })));

    // A head for a built-in: its length first, then that it is a built-in.
    let mut q = good.clone();
    q.clauses.push(rule(call(-2, vec![t("x"), t("y")]), vec![], 0));
    assert!(matches!(
        q.validate(),
        Err(ValidationError::BadArgn { expected: 1, found: 2, .. })
    ));
    let mut q = good.clone();
    q.clauses.push(rule(call(-2, vec![t("x")]), vec![], 0));
    assert!(matches!(q.validate(), Err(ValidationError::RedefinedBuiltin { name: -2, .. })));

    // The second head of a predicate is held to the length of the first.
    let mut q = good.clone();
    q.clauses.push(rule(call(0, vec![t("x"), t("y")]), vec![], 0));
    assert!(matches!(
        q.validate(),
        Err(ValidationError::BadArgn { expected: 1, found: 2, .. })
    ));

    // The goal as a call comes last.
    let mut q = good.clone();
    q.goal = call(4, vec![v(0)]);
    assert!(matches!(q.validate(), Err(ValidationError::NoSuchClause { name: 4, argn: 1, .. })));
    let mut q = good.clone();
    q.goal = call(0, vec![v(0), v(0)]);
    assert!(matches!(
        q.validate(),
        Err(ValidationError::BadArgn { expected: 1, found: 2, .. })
    ));
}
