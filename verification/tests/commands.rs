use g1_common::command::Command;
use g1_common::lang::{Expected, ParseError, Point};
use g1_common::query::{Clause, Predicate, Value};

fn s(x: &str) -> String {
    x.to_string()
}

#[test]
fn commands_without_arguments() {
    assert_eq!(Command::from_str(".help"), Ok(Command::Help));
    assert_eq!(Command::from_str(" .quit "), Ok(Command::Quit));
    assert_eq!(Command::from_str(".list // all of them"), Ok(Command::List));
    assert_eq!(Command::from_str(".create_atom"), Ok(Command::CreateAtom));
}

#[test]
fn commands_with_arguments() {
    assert_eq!(Command::from_str(".delete_atom \"a-1\""), Ok(Command::DeleteAtom(s("a-1"))));
    assert_eq!(
        Command::from_str(".create_name \"a\" ns 'a title'"),
        Ok(Command::CreateName(s("a"), s("ns"), s("a title"), false))
    );
    assert_eq!(
        Command::from_str(".upsert_name \"a\" \"ns\" \"t\""),
        Ok(Command::CreateName(s("a"), s("ns"), s("t"), true))
    );
    assert_eq!(
        Command::from_str(".delete_name \"ns\" \"t\""),
        Ok(Command::DeleteName(s("ns"), s("t")))
    );
    assert_eq!(
        Command::from_str(".create_edge \"a\" \"b\" \"l\""),
        Ok(Command::CreateEdge(s("a"), s("b"), s("l")))
    );
    assert_eq!(
        Command::from_str(".delete_edge \"a\" \"b\" \"l\""),
        Ok(Command::DeleteEdge(s("a"), s("b"), s("l")))
    );
    assert_eq!(
        Command::from_str(".create_tag \"a\" \"k\" \"v\""),
        Ok(Command::CreateTag(s("a"), s("k"), s("v"), false))
    );
    assert_eq!(
        Command::from_str(".upsert_tag \"a\" \"k\" \"v\""),
        Ok(Command::CreateTag(s("a"), s("k"), s("v"), true))
    );
    assert_eq!(Command::from_str(".delete_tag \"a\" \"k\""), Ok(Command::DeleteTag(s("a"), s("k"))));
    assert_eq!(
        Command::from_str(".create_blob \"a\" \"k\" \"text/plain\" \"00ff\""),
        Ok(Command::CreateBlob(s("a"), s("k"), s("text/plain"), s("00ff"), false))
    );
    assert_eq!(
        Command::from_str(".upsert_blob \"a\" \"k\" \"text/plain\" \"00ff\""),
        Ok(Command::CreateBlob(s("a"), s("k"), s("text/plain"), s("00ff"), true))
    );
    assert_eq!(
        Command::from_str(".delete_blob \"a\" \"k\" \"text/plain\""),
        Ok(Command::DeleteBlob(s("a"), s("k"), s("text/plain")))
    );
    assert_eq!(Command::from_str(".undefine path \"2\""), Ok(Command::Undefine(s("path"), 2)));
    assert_eq!(
        Command::from_str(".undefine 'a b' \"4294967295\""),
        Ok(Command::Undefine(s("a b"), 4294967295))
    );
    assert_eq!(Command::from_str(".undefine p \"007\""), Ok(Command::Undefine(s("p"), 7)));
}

#[test]
fn clauses_and_goals_are_commands() {
    assert_eq!(
        Command::from_str("p(X) :- !q(X, \"a\")."),
        Ok(Command::Clause(Clause {
            head: Predicate { name: s("p"), args: vec![Value::Var(s("X"))] },
            body: vec![(
                true,
                Predicate { name: s("q"), args: vec![Value::Var(s("X")), Value::Str(s("a"))] }
            )],
        }))
    );
    assert_eq!(
        Command::from_str("?- p(_)."),
        Ok(Command::Query(Predicate { name: s("p"), args: vec![Value::Hole] }))
    );
}

#[test]
fn lines_that_are_no_commands() {
    let unexpected = |a: usize, b: usize, expected: Expected| {
        Err(ParseError::UnrecognizedToken { start: Point(1, a), end: Point(1, b), expected })
    };
    assert_eq!(Command::from_str(".nothing"), unexpected(1, 8, Expected::Command));
    assert_eq!(Command::from_str(". \"help\""), unexpected(2, 8, Expected::Command));
    assert_eq!(
        Command::from_str("."),
        Err(ParseError::UnrecognizedEof { location: Point(1, 1), expected: Expected::Command })
    );
    assert_eq!(Command::from_str(".help me"), unexpected(6, 8, Expected::End));
    assert_eq!(Command::from_str(".delete_atom \"a\" \"b\""), unexpected(17, 20, Expected::End));
    assert_eq!(
        Command::from_str(".delete_name \"a\""),
        Err(ParseError::UnrecognizedEof { location: Point(1, 16), expected: Expected::Text })
    );
    assert_eq!(Command::from_str(".delete_atom _"), unexpected(13, 14, Expected::Text));
    assert_eq!(Command::from_str(".undefine p two"), unexpected(12, 15, Expected::Number));
    assert_eq!(Command::from_str(".undefine p \"4294967296\""), unexpected(12, 24, Expected::Number));
    assert_eq!(Command::from_str(".undefine p \"\""), unexpected(12, 14, Expected::Number));
    assert_eq!(Command::from_str(".undefine p \"1 \""), unexpected(12, 16, Expected::Number));
    assert_eq!(
        Command::from_str(".undefine p 2"),
        Err(ParseError::InvalidToken { location: Point(1, 12) })
    );
    assert_eq!(Command::from_str("?- p(X)"), Err(ParseError::UnrecognizedEof {
        location: Point(1, 7),
        expected: Expected::Period
    }));
    assert_eq!(Command::from_str("?- p(X). q"), unexpected(9, 10, Expected::End));
    assert_eq!(Command::from_str("p(X). q(X)."), unexpected(6, 7, Expected::End));
    assert_eq!(
        Command::from_str(""),
        Err(ParseError::UnrecognizedEof { location: Point(1, 0), expected: Expected::Name })
    );
}
