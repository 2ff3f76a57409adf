use g1_common::query::{Clause, Predicate, Query, Value};

#[test]
fn idempotent_parse_tostring_query_example() {
    let q = Query {
        clauses: vec![
            Clause {
                head: Predicate {
                    name: "edge".to_string(),
                    args: vec![Value::Str("A".to_string()), Value::Str("B".to_string())],
                },
                body: Vec::new(),
            },
            Clause {
                head: Predicate {
                    name: "edge".to_string(),
                    args: vec![Value::Str("A".to_string()), Value::Str("C".to_string())],
                },
                body: Vec::new(),
            },
            Clause {
                head: Predicate {
                    name: "edge".to_string(),
                    args: vec![Value::Str("B".to_string()), Value::Str("C".to_string())],
                },
                body: Vec::new(),
            },
            Clause {
                head: Predicate {
                    name: "path".to_string(),
                    args: vec![Value::Var("X".to_string()), Value::Var("X".to_string())],
                },
                body: Vec::new(),
            },
            Clause {
                head: Predicate {
                    name: "path".to_string(),
                    args: vec![Value::Var("X".to_string()), Value::Var("Z".to_string())],
                },
                body: vec![
                    (
                        false,
                        Predicate {
                            name: "path".to_string(),
                            args: vec![Value::Var("X".to_string()), Value::Var("Y".to_string())],
                        },
                    ),
                    (
                        false,
                        Predicate {
                            name: "edge".to_string(),
                            args: vec![Value::Var("Y".to_string()), Value::Var("Z".to_string())],
                        },
                    ),
                ],
            },
        ],
        goal: Predicate {
            name: "path".to_string(),
            args: vec![Value::Str("A".to_string()), Value::Var("X".to_string())],
        },
    };

    let s = q.to_string();
    let q2 = Query::from_str(&s).unwrap();
    assert_eq!(q, q2);

    let s2 = r#"edge("A", "B").
edge("A", "C").
edge("B", "C").
path(X, X).
path(X, Z) :-
    path(X, Y),
    edge(Y, Z).
?- path("A", X)."#;
    assert_eq!(s, s2);
}
