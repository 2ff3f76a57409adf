use g1_common::naive_solve::naive_solve;
use g1_common::nameless::NamelessQuery;
use g1_common::query::{Clause, Predicate, Query, Value};

fn s(x: &str) -> String {
    x.to_string()
}

fn var(x: &str) -> Value {
    Value::Var(s(x))
}

fn lit(x: &str) -> Value {
    Value::Str(s(x))
}

fn call(name: &str, args: Vec<Value>) -> Predicate {
    Predicate { name: s(name), args }
}

fn edge(a: &str, b: &str, c: &str) -> (String, String, String) {
    (s(a), s(b), s(c))
}

fn sorted(mut rows: Vec<Vec<String>>) -> Vec<Vec<String>> {
    rows.sort();
    rows
}

#[test]
fn graph_reachability() {
    let q = Query {
        clauses: vec![
            Clause {
                head: call("path", vec![var("X"), var("Y")]),
                body: vec![(false, call("edge", vec![var("X"), var("Y"), Value::Hole]))],
            },
            Clause {
                head: call("path", vec![var("X"), var("Z")]),
                body: vec![
                    (false, call("edge", vec![var("X"), var("Y"), Value::Hole])),
                    (false, call("path", vec![var("Y"), var("Z")])),
                ],
            },
        ],
        goal: call("path", vec![lit("D"), var("X")]),
    };
    let n = NamelessQuery::from_query(q).unwrap();
    assert_eq!(n.validate(), Ok(()));
    let edges = vec![
        edge("A", "B", ""),
        edge("B", "C", ""),
        edge("C", "D", ""),
        edge("D", "B", ""),
    ];
    let got = naive_solve(&[], &[], &edges, &[], &[], None, &n);
    assert_eq!(
        sorted(got),
        vec![vec![s("B")], vec![s("C")], vec![s("D")]]
    );
}
