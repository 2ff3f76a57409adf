use g1_common::lang::{Expected, ParseError, Point, ValueInner};
use g1_common::lexer::Token as Surface;
use g1_common::proc_macro::{parse, query_proc_macro, to_surface, Span, Token};

fn s(x: &str) -> String {
    x.to_string()
}

fn at(n: usize) -> Span {
    Span { is_ident: false, start: Point(1, n), end: Point(1, n + 1) }
}

fn host(words: &[&str]) -> Vec<Token> {
    words
        .iter()
        .enumerate()
        .map(|(i, w)| match *w {
            "(" => Token::ParenOpen(at(i)),
            ")" => Token::ParenClose(at(i)),
            "{" => Token::BraceOpen(at(i)),
            "_" => Token::Hole(at(i)),
            w if w.starts_with('"') => Token::LiteralString(s(&w[1..w.len() - 1]), at(i)),
            w if w.starts_with('#') => Token::Literal(s(&w[1..]), at(i)),
            w if w.len() == 1 && !w.chars().all(char::is_alphanumeric) => {
                Token::Punct(w.chars().next().unwrap(), at(i))
            }
            w => Token::Ident(s(w), at(i)),
        })
        .collect()
}

#[test]
fn host_tokens_become_tokens_of_the_language() {
    let tokens = host(&[
        "path", "(", "X", ",", "_y", ",", "low", ",", "\"s\"", ",", "$", "v", ",", "_", ")", ":",
        "-", "!", "e", "(", ")", ".", "?", "-",
    ]);
    let got: Vec<Surface> = to_surface(&tokens).unwrap().into_iter().map(|t| t.1).collect();
    assert_eq!(
        got,
        vec![
            Surface::Var(s("path")),
            Surface::ParenOpen,
            Surface::Var(s("X")),
            Surface::Comma,
            Surface::Var(s("_y")),
            Surface::Comma,
            Surface::String(s("low")),
            Surface::Comma,
            Surface::String(s("s")),
            Surface::Comma,
            Surface::MetaVar(s("v")),
            Surface::Comma,
            Surface::Underscore,
            Surface::ParenClose,
            Surface::Turnstile,
            Surface::Not,
            Surface::Var(s("e")),
            Surface::ParenOpen,
            Surface::ParenClose,
            Surface::Period,
            Surface::Query,
        ]
    );
    let spans = to_surface(&tokens).unwrap();
    assert_eq!((spans[10].0, spans[10].2), (Point(1, 10), Point(1, 12)));
    assert_eq!((spans[14].0, spans[14].2), (Point(1, 15), Point(1, 17)));
}

#[test]
fn host_tokens_without_a_place_in_the_language() {
    assert_eq!(
        to_surface(&host(&["p", "{"])),
        Err(ParseError::InvalidToken { location: Point(1, 1) })
    );
    assert_eq!(
        to_surface(&host(&["p", "(", "#1", ")"])),
        Err(ParseError::InvalidToken { location: Point(1, 2) })
    );
    assert_eq!(
        to_surface(&host(&[":", "p"])),
        Err(ParseError::InvalidToken { location: Point(1, 0) })
    );
    assert_eq!(
        to_surface(&host(&["$", "(", ")"])),
        Err(ParseError::InvalidToken { location: Point(1, 0) })
    );
    assert_eq!(
        to_surface(&host(&["p", "+"])),
        Err(ParseError::InvalidToken { location: Point(1, 1) })
    );
}

#[test]
fn embedded_query_is_read_and_built() {
    let tokens = host(&[
        "path", "(", "X", ",", "Y", ")", ":", "-", "edge", "(", "X", ",", "Y", ",", "_", ")", ".",
        "?", "-", "path", "(", "$", "a", ",", "X", ")", ".",
    ]);
    let q = parse(&tokens).unwrap();
    assert_eq!(q.clauses.len(), 1);
    assert_eq!(q.clauses[0].head.name, "path");
    assert_eq!(q.goal.args[0].inner, ValueInner::MetaVar(s("a")));
    let built = query_proc_macro(&tokens).unwrap();
    assert_eq!(built.clauses[0].head.name, 0);
    assert_eq!(built.clauses[0].body[0].1.name, -4);
    assert_eq!(built.clauses[0].vars, 3);
    assert_eq!(built.goal.name, 0);
    assert_eq!(built.goal_vars, 1);
}

#[test]
fn holes_may_not_stand_in_a_head() {
    let tokens =
        host(&["p", "(", "_", ")", ":", "-", "atom", "(", "_", ")", ".", "?", "-", "p", "(", "_", ")", "."]);
    assert_eq!(
        parse(&tokens),
        Err(ParseError::UnrecognizedToken {
            start: Point(1, 2),
            end: Point(1, 3),
            expected: Expected::Value
        })
    );
    let tokens = host(&["?", "-", "atom", "(", "_", ")", "."]);
    assert!(parse(&tokens).is_ok());
}

#[test]
fn embedded_errors_come_as_messages() {
    assert_eq!(
        query_proc_macro(&host(&["?", "-", "p", "(", "X"])),
        Err(s("1:5: the text ends where `,` or `)` had to follow"))
    );
    assert_eq!(
        query_proc_macro(&host(&["?", "-", "p", "(", "X", ")", "."])),
        Err(s("1:2: no such clause p/1"))
    );
    assert_eq!(
        query_proc_macro(&host(&[
            "p", "(", "X", ")", ".", "?", "-", "p", "(", "X", ")", "."
        ])),
        Err(s("1:0: variable #0 was never used positively"))
    );
    assert_eq!(query_proc_macro(&host(&["p", "{"])), Err(s("1:1: no token starts here")));
    assert_eq!(
        query_proc_macro(&host(&["p", "(", ")", "?"])),
        Err(s("1:3: no token starts here"))
    );
}

#[test]
fn spans_join() {
    let a = Span { is_ident: true, start: Point(1, 2), end: Point(1, 5) };
    let b = Span { is_ident: false, start: Point(2, 0), end: Point(2, 9) };
    assert_eq!(a.join(b), Span { is_ident: false, start: Point(1, 2), end: Point(2, 9) });
    assert_eq!(Token::Ident(s("x"), a).span(), a);
    assert_eq!(Token::Punct('.', b).span(), b);
}
