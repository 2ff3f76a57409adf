use g1_common::hash::HashParseError;
use g1_common::lang::{Expected, ParseError, Point, Span};
use g1_common::lowering::{LoweringError, QueryError};
use g1_common::naive_solve::naive_solve;
use g1_common::nameless::NamelessQuery;
use g1_common::query::{Predicate, Query, Value};
use g1_common::validate::ValidationError;
use g1_common::validated::{
    ValidatedClause, ValidatedPredicate, ValidatedQuery, ValidatedValue, ValidatedValueInner,
};

fn s(x: &str) -> String {
    x.to_string()
}

#[test]
fn hashes_are_written_in_lower_case_and_read_in_either() {
    let mut bytes = [0u8; 32];
    for (i, b) in bytes.iter_mut().enumerate() {
        *b = (i * 8 + 3) as u8;
    }
    let hash = g1_common::hash::Hash::from_bytes(&bytes);
    let text = hash.to_string();
    assert_eq!(
        text,
        "030b131b232b333b434b535b636b737b838b939ba3abb3bbc3cbd3dbe3ebf3fb"
    );
    assert_eq!(g1_common::hash::Hash::from_str(&text), Ok(hash));
    assert_eq!(g1_common::hash::Hash::from_str(&text.to_uppercase()), Ok(hash));
    assert_eq!(hash.to_bytes(), bytes.to_vec());
    let zero = g1_common::hash::Hash::from_bytes(&[0u8; 32]);
    assert_eq!(zero.to_string(), "0".repeat(64));
    let full = g1_common::hash::Hash::from_bytes(&[255u8; 32]);
    assert_eq!(full.to_string(), "f".repeat(64));
    assert_eq!(g1_common::hash::Hash::from_str(&"F".repeat(64)), Ok(full));
}

#[test]
fn hashes_of_the_wrong_shape_are_refused() {
    assert_eq!(g1_common::hash::Hash::from_str(""), Err(HashParseError::BadLength(0)));
    assert_eq!(g1_common::hash::Hash::from_str(&"0".repeat(63)), Err(HashParseError::BadLength(63)));
    assert_eq!(g1_common::hash::Hash::from_str(&"0".repeat(65)), Err(HashParseError::BadLength(65)));
    let mut text = "0".repeat(64);
    text.replace_range(10..11, "g");
    assert_eq!(g1_common::hash::Hash::from_str(&text), Err(HashParseError::BadChar(10, 'g')));
    let mut text = "a".repeat(62);
    text.insert(5, '\u{e9}');
    assert_eq!(text.len(), 64);
    assert_eq!(g1_common::hash::Hash::from_str(&text), Err(HashParseError::BadChar(5, '\u{e9}')));
    let mut text = "0".repeat(64);
    text.replace_range(0..1, " ");
    assert_eq!(g1_common::hash::Hash::from_str(&text), Err(HashParseError::BadChar(0, ' ')));
}

#[test]
fn metavariables_are_filled_in_before_solving() {
    let q = Query::from_str("p(X) :- name(X, $ns, $title). ?- p(X).").unwrap();
    let lowered = NamelessQuery::from_query(q.clone()).unwrap();
    assert_eq!(lowered.validate(), Ok(()));
    assert!(!lowered.is_ground());
    let half = q.bind("ns", "readme");
    assert!(!NamelessQuery::from_query(half.clone()).unwrap().is_ground());
    assert_eq!(
        half.clauses[0].body[0].1,
        Predicate {
            name: s("name"),
            args: vec![Value::Var(s("X")), Value::Str(s("readme")), Value::MetaVar(s("title"))],
        }
    );
    let full = half.bind("title", "bar");
    let lowered = NamelessQuery::from_query(full).unwrap();
    assert!(lowered.is_ground());
    let names = vec![(s("u1"), s("readme"), s("foo")), (s("u2"), s("readme"), s("bar"))];
    assert_eq!(
        naive_solve(&[], &names, &[], &[], &[], None, &lowered),
        vec![vec![s("u2")]]
    );
    let goal = Query::from_str("?- atom($x).").unwrap();
    assert!(!NamelessQuery::from_query(goal.clone()).unwrap().is_ground());
    assert!(NamelessQuery::from_query(goal.bind("x", "a")).unwrap().is_ground());
}

#[test]
fn spans_are_mapped_and_nothing_else() {
    let q = ValidatedQuery {
        clauses: vec![ValidatedClause {
            head: ValidatedPredicate {
                name: 0,
                args: vec![ValidatedValue { inner: ValidatedValueInner::Var(0), span: Span(Point(1, 2), Point(1, 3)) }],
                span: Span(Point(1, 0), Point(1, 4)),
            },
            body: vec![(
                true,
                ValidatedPredicate {
                    name: -2,
                    args: vec![ValidatedValue {
                        inner: ValidatedValueInner::Str(s("a")),
                        span: Span(Point(1, 14), Point(1, 17)),
                    }],
                    span: Span(Point(1, 9), Point(1, 18)),
                },
            )],
            vars: 1,
            span: Span(Point(1, 0), Point(1, 19)),
        }],
        goal: ValidatedPredicate { name: 0, args: vec![], span: Span(Point(2, 4), Point(2, 7)) },
        goal_vars: 0,
        span: Span(Point(1, 0), Point(2, 8)),
    };
    let dropped = q.map_span(&|_: Span| ());
    assert_eq!(
        dropped,
        ValidatedQuery {
            clauses: vec![ValidatedClause {
                head: ValidatedPredicate {
                    name: 0,
                    args: vec![ValidatedValue { inner: ValidatedValueInner::Var(0), span: () }],
                    span: (),
                },
                body: vec![(
                    true,
                    ValidatedPredicate {
                        name: -2,
                        args: vec![ValidatedValue { inner: ValidatedValueInner::Str(s("a")), span: () }],
                        span: (),
                    },
                )],
                vars: 1,
                span: (),
            }],
            goal: ValidatedPredicate { name: 0, args: vec![], span: () },
            goal_vars: 0,
            span: (),
        }
    );
    let ends = q.clauses[0].map_span(&|at: Span| Span(at.1, at.1));
    assert_eq!(ends.span, Span(Point(1, 19), Point(1, 19)));
    assert_eq!(ends.head.args[0].span, Span(Point(1, 3), Point(1, 3)));
    assert_eq!(ends.body[0].1.span, Span(Point(1, 18), Point(1, 18)));
    assert_eq!(ends.body[0].1.args[0].inner, ValidatedValueInner::Str(s("a")));
}

#[test]
fn messages_of_errors() {
    assert_eq!(Point(12, 0).to_string(), "12:0");
    assert_eq!(
        ParseError::InvalidToken { location: Point(1, 5) }.to_string(),
        "1:5: no token starts here"
    );
    assert_eq!(ParseError::TooLong.to_string(), "the text is too long");
    assert_eq!(
        ParseError::UnrecognizedEof { location: Point(2, 3), expected: Expected::Period }.to_string(),
        "2:3: the text ends where `.` had to follow"
    );
    assert_eq!(
        ParseError::UnrecognizedToken {
            start: Point(1, 0),
            end: Point(1, 2),
            expected: Expected::ClauseOrGoal
        }
        .to_string(),
        "1:0-1:2: expected the name of a predicate or `?-`"
    );
    let all = [
        (Expected::Command, "the name of a command"),
        (Expected::Number, "a number"),
        (Expected::Text, "a string or a name"),
        (Expected::CommaOrParenClose, "`,` or `)`"),
        (Expected::CommaOrPeriod, "`,` or `.`"),
        (Expected::End, "the end of the text"),
        (Expected::Literal, "the name of a predicate or `!`"),
        (Expected::Name, "the name of a predicate"),
        (Expected::ParenOpen, "`(`"),
        (Expected::PeriodOrTurnstile, "`.` or `:-`"),
        (Expected::Value, "a value"),
        (Expected::ValueOrParenClose, "a value or `)`"),
    ];
    for (expected, words) in all {
        assert_eq!(
            ParseError::UnrecognizedToken { start: Point(1, 0), end: Point(1, 1), expected }.to_string(),
            format!("1:0-1:1: expected {}", words)
        );
    }
    assert_eq!(LoweringError::IllegalRecursion.to_string(), "invalid recursion detected");
    assert_eq!(
        LoweringError::NoSuchClause { clause: 3, literal: 1 }.to_string(),
        "undeclared predicate: literal 1 of clause 3"
    );
    assert_eq!(
        LoweringError::RedefinedBuiltin { clause: 0 }.to_string(),
        "redefining existing predicate: clause 0"
    );
    assert_eq!(LoweringError::TooManyPredicates.to_string(), "too many predicates");
    assert_eq!(LoweringError::TooManyStrings.to_string(), "too many strings");
    assert_eq!(LoweringError::TooManyVariables.to_string(), "too many variables used");
    assert_eq!(
        ValidationError::BadArgn { expected: 3, found: 2 }.to_string(),
        "cannot call a clause that expects 3 args with 2"
    );
    assert_eq!(
        ValidationError::BadStratification { group: 1, callee: 9, negated: true }.to_string(),
        "a clause of group 1 cannot call !9"
    );
    assert_eq!(
        ValidationError::BadStratification { group: 0, callee: 7, negated: false }.to_string(),
        "a clause of group 0 cannot call 7"
    );
    assert_eq!(
        ValidationError::BadString { handle: 4 }.to_string(),
        "no string, or not the first of its kind, under the handle 4"
    );
    assert_eq!(
        ValidationError::BadVariableIndex { max_vars: 2, var: 5 }.to_string(),
        "cannot use variable #5 in a clause with 2 vars"
    );
    assert_eq!(
        ValidationError::NeverUsedPositively { var: 1 }.to_string(),
        "variable #1 was never used positively"
    );
    assert_eq!(
        ValidationError::NoSuchClause { argn: 2, name: 11 }.to_string(),
        "no such clause 11/2"
    );
    assert_eq!(
        QueryError::Parse(ParseError::InvalidToken { location: Point(1, 0) }).to_string(),
        "1:0: no token starts here"
    );
    assert_eq!(
        QueryError::Lowering(LoweringError::TooManyStrings).to_string(),
        "too many strings"
    );
    assert_eq!(
        QueryError::Validation(ValidationError::NeverUsedPositively { var: 0 }).to_string(),
        "variable #0 was never used positively"
    );
}
