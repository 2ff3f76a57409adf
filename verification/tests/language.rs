use g1_common::lang::{
    Clause, Expected, ParseError, Point, Predicate, Query, Span, Value, ValueInner,
};
use g1_common::lexer::{
    is_stringish, parse_stringish, string_token, tokenize, LexError, Lexer, StringToken, Token,
};

fn s(x: &str) -> String {
    x.to_string()
}

fn var(x: &str, a: (usize, usize), b: (usize, usize)) -> Value {
    Value { inner: ValueInner::Var(s(x)), span: Span(Point(a.0, a.1), Point(b.0, b.1)) }
}

fn text(x: &str, a: (usize, usize), b: (usize, usize)) -> Value {
    Value { inner: ValueInner::Str(s(x)), span: Span(Point(a.0, a.1), Point(b.0, b.1)) }
}

fn span(a: (usize, usize), b: (usize, usize)) -> Span {
    Span(Point(a.0, a.1), Point(b.0, b.1))
}

#[test]
fn point_default_is_the_start() {
    assert_eq!(Point::default(), Point(1, 0));
}

#[test]
fn values_parse_with_spans() {
    assert_eq!(
        Value::from_str(r#""hello,\nworld!""#),
        Ok(text("hello,\nworld!", (1, 0), (1, 16)))
    );
    assert_eq!(Value::from_str("game"), Ok(var("game", (1, 0), (1, 4))));
    assert_eq!(Value::from_str("'osu!'"), Ok(var("osu!", (1, 0), (1, 6))));
    assert_eq!(
        Value::from_str("_"),
        Ok(Value { inner: ValueInner::Hole, span: span((1, 0), (1, 1)) })
    );
    assert_eq!(
        Value::from_str("$who"),
        Ok(Value { inner: ValueInner::MetaVar(s("who")), span: span((1, 0), (1, 4)) })
    );
}

#[test]
fn predicates_parse_with_spans() {
    assert_eq!(
        Predicate::from_str("''()"),
        Ok(Predicate { name: s(""), args: Vec::new(), span: span((1, 0), (1, 4)) })
    );
    assert_eq!(
        Predicate::from_str(r#"'not equal'("one", "two")"#),
        Ok(Predicate {
            name: s("not equal"),
            args: vec![text("one", (1, 12), (1, 17)), text("two", (1, 19), (1, 24))],
            span: span((1, 0), (1, 25)),
        })
    );
}

#[test]
fn clauses_parse_with_spans() {
    assert_eq!(
        Clause::from_str("foo()."),
        Ok(Clause {
            head: Predicate { name: s("foo"), args: Vec::new(), span: span((1, 0), (1, 5)) },
            body: Vec::new(),
            span: span((1, 0), (1, 6)),
        })
    );
    assert_eq!(
        Clause::from_str("bar(x) :- !baz(x), quux(x)."),
        Ok(Clause {
            head: Predicate {
                name: s("bar"),
                args: vec![var("x", (1, 4), (1, 5))],
                span: span((1, 0), (1, 6)),
            },
            body: vec![
                (
                    true,
                    Predicate {
                        name: s("baz"),
                        args: vec![var("x", (1, 15), (1, 16))],
                        span: span((1, 11), (1, 17)),
                    }
                ),
                (
                    false,
                    Predicate {
                        name: s("quux"),
                        args: vec![var("x", (1, 24), (1, 25))],
                        span: span((1, 19), (1, 26)),
                    }
                ),
            ],
            span: span((1, 0), (1, 27)),
        })
    );
}

#[test]
fn clause_over_several_lines_with_a_comment() {
    let src = "\n        // Start searching from the end.\n        path(x, y) :-\n            path(x, z),\n            edge(z, y).\n    ";
    assert_eq!(
        Clause::from_str(src),
        Ok(Clause {
            head: Predicate {
                name: s("path"),
                args: vec![var("x", (3, 14), (3, 15)), var("y", (3, 17), (3, 18))],
                span: span((3, 9), (3, 19)),
            },
            body: vec![
                (
                    false,
                    Predicate {
                        name: s("path"),
                        args: vec![var("x", (4, 18), (4, 19)), var("z", (4, 21), (4, 22))],
                        span: span((4, 13), (4, 23)),
                    }
                ),
                (
                    false,
                    Predicate {
                        name: s("edge"),
                        args: vec![var("z", (5, 18), (5, 19)), var("y", (5, 21), (5, 22))],
                        span: span((5, 13), (5, 23)),
                    }
                ),
            ],
            span: span((3, 9), (5, 24)),
        })
    );
}

#[test]
fn query_span_starts_where_the_text_starts() {
    let src = "\n  edge(\"A\", \"B\").\n\n  ?- edge(\"A\", X).\n";
    let q = Query::from_str(src).unwrap();
    assert_eq!(q.span, span((1, 0), (4, 19)));
    assert_eq!(q.clauses.len(), 1);
    assert_eq!(q.clauses[0].span, span((2, 3), (2, 18)));
    assert_eq!(q.goal.span, span((4, 6), (4, 18)));
    assert_eq!(q.goal.args[1], var("X", (4, 16), (4, 17)));
}

#[test]
fn columns_count_bytes() {
    let v = Predicate::from_str("p(\"\u{e9}\", x)").unwrap();
    assert_eq!(v.args[0], text("\u{e9}", (1, 2), (1, 6)));
    assert_eq!(v.args[1], var("x", (1, 8), (1, 9)));
}

#[test]
fn tokens_of_every_kind() {
    let got = tokenize("( ) , . _ ! ?- :- \"s\" v 'q v' $m a-b_1").unwrap();
    let kinds: Vec<Token> = got.into_iter().map(|t| t.1).collect();
    assert_eq!(
        kinds,
        vec![
            Token::ParenOpen,
            Token::ParenClose,
            Token::Comma,
            Token::Period,
            Token::Underscore,
            Token::Not,
            Token::Query,
            Token::Turnstile,
            Token::String(s("s")),
            Token::Var(s("v")),
            Token::Var(s("q v")),
            Token::MetaVar(s("m")),
            Token::Var(s("a-b_1")),
        ]
    );
}

#[test]
fn lexer_gives_tokens_one_by_one() {
    let mut lexer = Lexer::new("a(\n_)");
    assert_eq!(lexer.next(), Some(Ok((Point(1, 0), Token::Var(s("a")), Point(1, 1)))));
    assert_eq!(lexer.next(), Some(Ok((Point(1, 1), Token::ParenOpen, Point(1, 2)))));
    assert_eq!(lexer.next(), Some(Ok((Point(2, 1), Token::Underscore, Point(2, 2)))));
    assert_eq!(lexer.next(), Some(Ok((Point(2, 2), Token::ParenClose, Point(2, 3)))));
    assert_eq!(lexer.next(), None);
    assert_eq!(lexer.next(), None);
}

#[test]
fn lex_errors_give_the_place() {
    assert_eq!(tokenize("a(#)"), Err(LexError::NoToken { at: Point(1, 2) }));
    assert_eq!(tokenize("a\n  \"open"), Err(LexError::NoToken { at: Point(2, 3) }));
    assert_eq!(tokenize("\"bad \\q escape\""), Err(LexError::NoToken { at: Point(1, 0) }));
    assert_eq!(tokenize("\"it's\""), Err(LexError::NoToken { at: Point(1, 0) }));
    assert_eq!(tokenize("? x"), Err(LexError::NoToken { at: Point(1, 0) }));
    assert_eq!(tokenize("$ x"), Err(LexError::NoToken { at: Point(1, 0) }));
    assert_eq!(tokenize("/ x"), Err(LexError::NoToken { at: Point(1, 0) }));
    let mut lexer = Lexer::new("x %");
    assert_eq!(lexer.next(), Some(Ok((Point(1, 0), Token::Var(s("x")), Point(1, 1)))));
    assert_eq!(lexer.next(), Some(Err(LexError::NoToken { at: Point(1, 2) })));
}

#[test]
fn comments_run_to_the_end_of_the_line() {
    let got = tokenize("a // b c\r\n// all of it\nd//").unwrap();
    assert_eq!(
        got,
        vec![
            (Point(1, 0), Token::Var(s("a")), Point(1, 1)),
            (Point(3, 1), Token::Var(s("d")), Point(3, 2)),
        ]
    );
}

#[test]
fn quoted_texts_are_unescaped() {
    assert_eq!(parse_stringish("\"\""), s(""));
    assert_eq!(parse_stringish("'a b'"), s("a b"));
    assert_eq!(parse_stringish(r#""\t\r\n\\\"\'""#), s("\t\r\n\\\"'"));
    assert_eq!(parse_stringish(r#""x\ty""#), s("x\ty"));
}

#[test]
fn quoted_texts_are_told_from_others() {
    assert!(is_stringish("\"\""));
    assert!(is_stringish("'a b'"));
    assert!(is_stringish(r#""\t\r\n\\\"\'""#));
    assert!(is_stringish("xay"));
    assert!(!is_stringish(""));
    assert!(!is_stringish("\""));
    assert!(!is_stringish("\"a\"b\""));
    assert!(!is_stringish("\"a'b\""));
    assert!(!is_stringish("\"a\\qb\""));
    assert!(!is_stringish("\"a\\\""));
    assert_eq!(tokenize(&"x ".repeat(3)).unwrap().len(), 3);
}

#[test]
fn pieces_between_quotes() {
    let body: Vec<char> = "a\\n\\q'\\".chars().collect();
    assert_eq!(string_token(&body, 0), StringToken::Char);
    assert_eq!(string_token(&body, 1), StringToken::EscNL);
    assert_eq!(string_token(&body, 3), StringToken::Error);
    assert_eq!(string_token(&body, 5), StringToken::Error);
    assert_eq!(string_token(&body, 6), StringToken::Error);
    assert_eq!(string_token(&body, 7), StringToken::End);
    let body: Vec<char> = "\\t\\r\\'\\\"\\\\".chars().collect();
    assert_eq!(string_token(&body, 0), StringToken::EscTab);
    assert_eq!(string_token(&body, 2), StringToken::EscCR);
    assert_eq!(string_token(&body, 4), StringToken::EscSQuote);
    assert_eq!(string_token(&body, 6), StringToken::EscDQuote);
    assert_eq!(string_token(&body, 8), StringToken::EscBackslash);
}

#[test]
fn parse_errors_say_what_was_expected() {
    assert_eq!(
        Query::from_str(""),
        Err(ParseError::UnrecognizedEof { location: Point(1, 0), expected: Expected::ClauseOrGoal })
    );
    assert_eq!(
        Query::from_str("p(x)"),
        Err(ParseError::UnrecognizedEof {
            location: Point(1, 4),
            expected: Expected::PeriodOrTurnstile
        })
    );
    assert_eq!(
        Query::from_str("p x"),
        Err(ParseError::UnrecognizedToken {
            start: Point(1, 2),
            end: Point(1, 3),
            expected: Expected::ParenOpen
        })
    );
    assert_eq!(
        Query::from_str("p(,"),
        Err(ParseError::UnrecognizedToken {
            start: Point(1, 2),
            end: Point(1, 3),
            expected: Expected::ValueOrParenClose
        })
    );
    assert_eq!(
        Query::from_str("p(x,)"),
        Err(ParseError::UnrecognizedToken {
            start: Point(1, 4),
            end: Point(1, 5),
            expected: Expected::Value
        })
    );
    assert_eq!(
        Query::from_str("p(x y)"),
        Err(ParseError::UnrecognizedToken {
            start: Point(1, 4),
            end: Point(1, 5),
            expected: Expected::CommaOrParenClose
        })
    );
    assert_eq!(
        Query::from_str("p(x) :- ."),
        Err(ParseError::UnrecognizedToken {
            start: Point(1, 8),
            end: Point(1, 9),
            expected: Expected::Literal
        })
    );
    assert_eq!(
        Query::from_str("p(x) :- !."),
        Err(ParseError::UnrecognizedToken {
            start: Point(1, 9),
            end: Point(1, 10),
            expected: Expected::Name
        })
    );
    assert_eq!(
        Query::from_str("p(x) :- q(x) r(x)."),
        Err(ParseError::UnrecognizedToken {
            start: Point(1, 13),
            end: Point(1, 14),
            expected: Expected::CommaOrPeriod
        })
    );
    assert_eq!(
        Query::from_str("?- p(x) ,"),
        Err(ParseError::UnrecognizedToken {
            start: Point(1, 8),
            end: Point(1, 9),
            expected: Expected::Period
        })
    );
    assert_eq!(
        Query::from_str("?- p(x). q(x)."),
        Err(ParseError::UnrecognizedToken {
            start: Point(1, 9),
            end: Point(1, 10),
            expected: Expected::End
        })
    );
    assert_eq!(
        Query::from_str("?- p(#)."),
        Err(ParseError::InvalidToken { location: Point(1, 5) })
    );
    assert_eq!(
        Value::from_str("a b"),
        Err(ParseError::UnrecognizedToken {
            start: Point(1, 2),
            end: Point(1, 3),
            expected: Expected::End
        })
    );
}
