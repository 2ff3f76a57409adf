use g1_common::facts::{
    query, query_all, query_first, query_first_read, query_has_results, query_has_results_read,
    query_read, snapshot, surface, FactSource, MemoryFacts, SolverError, SourceError,
};
use std::cell::Cell;
use g1_common::nameless::NamelessQuery;

fn s(x: &str) -> String {
    x.to_string()
}

fn memory() -> MemoryFacts {
    MemoryFacts {
        atoms: vec![s("a"), s("b"), s("c")],
        names: vec![(s("a"), s("ns"), s("t"))],
        edges: vec![(s("a"), s("b"), s("l")), (s("b"), s("c"), s("l"))],
        tags: vec![],
        blobs: vec![(s("a"), s("k"), s("m"), s("h"))],
    }
}

/// A source that fails at one of its relations.
struct Broken {
    fails_at: usize,
    cancelled: bool,
}

impl Broken {
    fn give<T>(&self, at: usize) -> Result<Vec<T>, SourceError<String>> {
        if at < self.fails_at {
            Ok(Vec::new())
        } else if self.cancelled {
            Err(SourceError::Cancelled)
        } else {
            Err(SourceError::Transport(format!("relation {} is gone", at)))
        }
    }
}

impl FactSource for Broken {
    type Error = String;

    fn atoms(&self) -> Result<Vec<String>, SourceError<String>> {
        self.give(0)
    }

    fn names(&self) -> Result<Vec<(String, String, String)>, SourceError<String>> {
        self.give(1)
    }

    fn edges(&self) -> Result<Vec<(String, String, String)>, SourceError<String>> {
        self.give(2)
    }

    fn tags(&self) -> Result<Vec<(String, String, String)>, SourceError<String>> {
        self.give(3)
    }

    fn blobs(&self) -> Result<Vec<(String, String, String, String)>, SourceError<String>> {
        self.give(4)
    }
}

#[test]
fn queries_over_facts_in_memory() {
    let q = NamelessQuery::from_str("far(X, Z) :- edge(X, Y, _), edge(Y, Z, _). ?- far(X, Z).").unwrap();
    assert_eq!(query_all(&memory(), &q), Ok(vec![vec![s("a"), s("c")]]));
    assert_eq!(query_first(&memory(), &q), Ok(Some(vec![s("a"), s("c")])));
    assert_eq!(query_has_results(&memory(), &q), Ok(true));
    let q = NamelessQuery::from_str("?- atom(X).").unwrap();
    assert_eq!(query(&memory(), Some(2), &q).unwrap().len(), 2);
    assert_eq!(query(&memory(), None, &q).unwrap().len(), 3);
    assert!(query_first(&memory(), &q).unwrap().is_some());
    let q = NamelessQuery::from_str("?- tag(X, Y, Z).").unwrap();
    assert_eq!(query_all(&memory(), &q), Ok(vec![]));
    assert_eq!(query_first(&memory(), &q), Ok(None));
    assert_eq!(query_has_results(&memory(), &q), Ok(false));
    let q = NamelessQuery::from_str("?- blob(A, \"k\", M, H).").unwrap();
    assert_eq!(query_all(&memory(), &q), Ok(vec![vec![s("a"), s("m"), s("h")]]));
}

#[test]
fn the_error_of_the_source_comes_unchanged() {
    let q = NamelessQuery::from_str("?- atom(X).").unwrap();
    for at in 0..5 {
        let broken = Broken { fails_at: at, cancelled: false };
        assert_eq!(
            query_all(&broken, &q),
            Err(SolverError::Source(format!("relation {} is gone", at)))
        );
        assert_eq!(
            query_first(&broken, &q),
            Err(SolverError::Source(format!("relation {} is gone", at)))
        );
        assert_eq!(
            query_has_results(&broken, &q),
            Err(SolverError::Source(format!("relation {} is gone", at)))
        );
    }
    let cancelled = Broken { fails_at: 2, cancelled: true };
    assert_eq!(query(&cancelled, Some(1), &q), Err(SolverError::Cancelled));
    let whole = Broken { fails_at: 5, cancelled: false };
    assert_eq!(query_all(&whole, &q), Ok(vec![]));
    assert_eq!(surface(SourceError::Transport(7)), SolverError::Source(7));
    assert_eq!(surface::<u8>(SourceError::Cancelled), SolverError::Cancelled);
}

/// A source that counts how often it is asked, and fails at one of its relations.
struct Counting {
    asked: Cell<usize>,
    fails_at: usize,
}

impl Counting {
    fn give<T>(&self, at: usize) -> Result<Vec<T>, SourceError<usize>> {
        self.asked.set(self.asked.get() + 1);
        if at < self.fails_at {
            Ok(Vec::new())
        } else {
            Err(SourceError::Transport(at))
        }
    }
}

impl FactSource for Counting {
    type Error = usize;

    fn atoms(&self) -> Result<Vec<String>, SourceError<usize>> {
        self.give(0)
    }

    fn names(&self) -> Result<Vec<(String, String, String)>, SourceError<usize>> {
        self.give(1)
    }

    fn edges(&self) -> Result<Vec<(String, String, String)>, SourceError<usize>> {
        self.give(2)
    }

    fn tags(&self) -> Result<Vec<(String, String, String)>, SourceError<usize>> {
        self.give(3)
    }

    fn blobs(&self) -> Result<Vec<(String, String, String, String)>, SourceError<usize>> {
        self.give(4)
    }
}

#[test]
fn a_snapshot_holds_what_the_source_holds() {
    assert_eq!(snapshot(&memory()), Ok(memory()));
    let empty = MemoryFacts { atoms: vec![], names: vec![], edges: vec![], tags: vec![], blobs: vec![] };
    assert_eq!(snapshot(&Broken { fails_at: 5, cancelled: false }), Ok(empty));
}

#[test]
fn reading_stops_at_the_first_relation_that_fails() {
    for at in 0..5 {
        let source = Counting { asked: Cell::new(0), fails_at: at };
        assert_eq!(snapshot(&source), Err(SourceError::Transport(at)));
        assert_eq!(source.asked.get(), at + 1);
    }
    let source = Counting { asked: Cell::new(0), fails_at: 5 };
    assert!(snapshot(&source).is_ok());
    assert_eq!(source.asked.get(), 5);
    let q = NamelessQuery::from_str("?- atom(X).").unwrap();
    let source = Counting { asked: Cell::new(0), fails_at: 1 };
    assert_eq!(query_has_results(&source, &q), Err(SolverError::Source(1)));
    assert_eq!(source.asked.get(), 2);
}

#[test]
fn a_query_is_answered_from_what_was_read() {
    let q = NamelessQuery::from_str("far(X, Z) :- edge(X, Y, _), edge(Y, Z, _). ?- far(X, Z).").unwrap();
    let read = || Ok::<MemoryFacts, SourceError<String>>(memory());
    assert_eq!(query_read(read(), None, &q), Ok(vec![vec![s("a"), s("c")]]));
    assert_eq!(query_read(read(), Some(0), &q), Ok(vec![]));
    assert_eq!(query_first_read(read(), &q), Ok(Some(vec![s("a"), s("c")])));
    assert_eq!(query_has_results_read(read(), &q), Ok(true));
    let q = NamelessQuery::from_str("?- atom(X).").unwrap();
    assert_eq!(query_read(read(), Some(2), &q).unwrap().len(), 2);
    assert_eq!(query_read(read(), Some(7), &q).unwrap().len(), 3);
    let q = NamelessQuery::from_str("?- tag(X, \"k\", V).").unwrap();
    assert_eq!(query_read(read(), None, &q), Ok(vec![]));
    assert_eq!(query_first_read(read(), &q), Ok(None));
    assert_eq!(query_has_results_read(read(), &q), Ok(false));
}

#[test]
fn a_failed_reading_gives_the_error_of_the_source() {
    let q = NamelessQuery::from_str("?- atom(X).").unwrap();
    let gone = || Err::<MemoryFacts, SourceError<String>>(SourceError::Transport(s("gone")));
    assert_eq!(query_read(gone(), None, &q), Err(SolverError::Source(s("gone"))));
    assert_eq!(query_first_read(gone(), &q), Err(SolverError::Source(s("gone"))));
    assert_eq!(query_has_results_read(gone(), &q), Err(SolverError::Source(s("gone"))));
    let cancelled = || Err::<MemoryFacts, SourceError<String>>(SourceError::Cancelled);
    assert_eq!(query_read(cancelled(), Some(3), &q), Err(SolverError::Cancelled));
    assert_eq!(query_first_read(cancelled(), &q), Err(SolverError::Cancelled));
    assert_eq!(query_has_results_read(cancelled(), &q), Err(SolverError::Cancelled));
}
