use g1_common::lang;
use g1_common::query::{Clause, Predicate, Query, Value};
use g1_common::text::{
    char_width, chars_of, count_bytes, fits, push_chars, push_decimal, push_str, string_of,
};

fn s(x: &str) -> String {
    x.to_string()
}

fn call(name: &str, args: Vec<Value>) -> Predicate {
    Predicate { name: s(name), args }
}

#[test]
fn values_are_written_with_quotes_where_needed() {
    assert_eq!(Value::Hole.to_string(), "_");
    assert_eq!(Value::MetaVar(s("who")).to_string(), "$who");
    assert_eq!(Value::Str(s("hello")).to_string(), "\"hello\"");
    assert_eq!(Value::Str(s("")).to_string(), "\"\"");
    assert_eq!(Value::Str(s("a\tb\r\nc\\d\"e'f")).to_string(), "\"a\\tb\\r\\nc\\\\d\\\"e\\'f\"");
    assert_eq!(Value::Var(s("X")).to_string(), "X");
    assert_eq!(Value::Var(s("a-b_9")).to_string(), "a-b_9");
    assert_eq!(Value::Var(s("osu!")).to_string(), "'osu!'");
    assert_eq!(Value::Var(s("")).to_string(), "''");
    assert_eq!(Value::Var(s("9a")).to_string(), "'9a'");
    assert_eq!(Value::Var(s("_")).to_string(), "'_'");
    assert_eq!(Value::Var(s("it's")).to_string(), "'it\\'s'");
    assert_eq!(Value::Var(s("\u{e9}t\u{e9}")).to_string(), "'\u{e9}t\u{e9}'");
}

#[test]
fn predicates_and_clauses_are_written() {
    assert_eq!(call("", vec![]).to_string(), "''()");
    assert_eq!(
        call("not equal", vec![Value::Str(s("one")), Value::Str(s("two"))]).to_string(),
        "'not equal'(\"one\", \"two\")"
    );
    let fact = Clause { head: call("foo", vec![]), body: vec![] };
    assert_eq!(fact.to_string(), "foo().");
    let rule = Clause {
        head: call("bar", vec![Value::Var(s("x"))]),
        body: vec![
            (true, call("baz", vec![Value::Var(s("x"))])),
            (false, call("quux", vec![Value::Var(s("x")), Value::Hole])),
        ],
    };
    assert_eq!(rule.to_string(), "bar(x) :-\n    !baz(x),\n    quux(x, _).");
    let one = Clause { head: call("a", vec![]), body: vec![(false, call("b", vec![]))] };
    assert_eq!(one.to_string(), "a() :-\n    b().");
}

#[test]
fn what_is_written_is_read_back() {
    let q = Query {
        clauses: vec![
            Clause {
                head: call("a b", vec![Value::Str(s("x\ny")), Value::Var(s("V w")), Value::Hole]),
                body: vec![
                    (true, call("=", vec![Value::Var(s("")), Value::MetaVar(s("_m1"))])),
                    (false, call("q", vec![])),
                ],
            },
            Clause { head: call("q", vec![]), body: vec![] },
        ],
        goal: call("a b", vec![Value::Str(s("'")), Value::Var(s("\"")), Value::Var(s("z-1"))]),
    };
    let text = q.to_string();
    assert_eq!(
        text,
        "'a b'(\"x\\ny\", 'V w', _) :-\n    !'='('', $_m1),\n    q().\nq().\n?- 'a b'(\"\\'\", '\\\"', z-1)."
    );
    assert_eq!(Query::from_str(&text), Ok(q.clone()));
    assert_eq!(Query::from_str(&text).unwrap().to_string(), text);
}

#[test]
fn reading_drops_the_places_and_nothing_else() {
    let src = "p(X, \"s\") :- !q(_, $m).\n// goal\n?- p('a b', Y).";
    let with = lang::Query::from_str(src).unwrap();
    let without = Query::from_str(src).unwrap();
    assert_eq!(with.strip(), without);
    assert_eq!(
        without,
        Query {
            clauses: vec![Clause {
                head: call("p", vec![Value::Var(s("X")), Value::Str(s("s"))]),
                body: vec![(true, call("q", vec![Value::Hole, Value::MetaVar(s("m"))]))],
            }],
            goal: call("p", vec![Value::Var(s("a b")), Value::Var(s("Y"))]),
        }
    );
    assert_eq!(with.to_string(), without.to_string());
    assert_eq!(with.clauses[0].to_string(), "p(X, \"s\") :-\n    !q(_, $m).");
    assert_eq!(with.goal.to_string(), "p('a b', Y)");
    assert_eq!(with.goal.args[0].to_string(), "'a b'");
    assert_eq!(with.goal.args[0].strip(), Value::Var(s("a b")));
}

#[test]
fn text_helpers() {
    assert_eq!(char_width('a'), 1);
    assert_eq!(char_width('\u{7f}'), 1);
    assert_eq!(char_width('\u{80}'), 2);
    assert_eq!(char_width('\u{7ff}'), 2);
    assert_eq!(char_width('\u{800}'), 3);
    assert_eq!(char_width('\u{ffff}'), 3);
    assert_eq!(char_width('\u{10000}'), 4);
    let mut out: Vec<char> = vec!['x'];
    push_decimal(&mut out, 0);
    push_str(&mut out, "-\u{e9}-");
    push_decimal(&mut out, 1234567890);
    push_chars(&mut out, &vec!['!', '?']);
    push_decimal(&mut out, 7);
    assert_eq!(string_of(&out), "x0-\u{e9}-1234567890!?7");
    assert_eq!(chars_of("a\u{e9}\u{20ac}\u{1f600}"), vec!['a', '\u{e9}', '\u{20ac}', '\u{1f600}']);
    assert_eq!(chars_of(""), Vec::<char>::new());
    assert_eq!(count_bytes(&chars_of("a\u{e9}\u{20ac}\u{1f600}")), 10);
    assert_eq!(count_bytes(&vec![]), 0);
    assert!(fits("any text that is there at all"));
}
