//! Where the facts of the built-in predicates come from, and solving a query over
//! what a source holds.
//!
//! A query over a source has two parts. First the source is read: it is asked
//! once for each of its five relations, in the order `atom`, `name`, `edge`,
//! `tag`, `blob`, and the first relation that it cannot give ends the reading
//! ([`snapshot`]). Then the query is answered from what was read: over the facts
//! where there are any, and else with the error of the source as it came
//! ([`query_read`], [`query_first_read`], [`query_has_results_read`]). Whether a
//! source gives a relation is its own matter; a source that is
//! [`reliable`](FactSource::reliable) always does, and a query over it has its
//! answers.

use crate::naive_solve::{is_solution, list_view, naive_solve};
use crate::nameless::NamelessQuery;
use crate::semantics::{answers, base_relations};
use vstd::prelude::*;

verus! {

/// Why a source could not give a relation.
#[derive(Clone, Copy, Debug, PartialEq, Eq)]
pub enum SourceError<E> {
    /// The query was cancelled while the source was read.
    Cancelled,
    /// The source failed in a way of its own.
    Transport(E),
}

/// Why a query had no answer.
#[derive(Clone, Copy, Debug, PartialEq, Eq)]
pub enum SolverError<E> {
    /// The query was cancelled.
    Cancelled,
    /// The source of the facts failed; its error is handed on as it came.
    Source(E),
}

/// The error of a query whose source failed with `e`.
pub open spec fn surfaced<E>(e: SourceError<E>) -> SolverError<E> {
    match e {
        SourceError::Cancelled => SolverError::Cancelled,
        SourceError::Transport(inner) => SolverError::Source(inner),
    }
}

/// The error of a query whose source failed with `e`: a cancellation stays one,
/// any other error is handed on unchanged.
pub fn surface<E>(e: SourceError<E>) -> (r: SolverError<E>)
    ensures
        r == surfaced(e),
{
    match e {
        SourceError::Cancelled => SolverError::Cancelled,
        SourceError::Transport(inner) => SolverError::Source(inner),
    }
}

/// A provider of the facts of the five built-in predicates that are stored.
pub trait FactSource {
    /// The error of the source.
    type Error;

    /// Whether the source gives each of its relations whenever it is asked.
    /// (Where a source does not say so, it may fail.)
    open spec fn reliable(&self) -> bool {
        false
    }

    /// The atoms that the source holds. (Where a source does not say what it
    /// holds, nothing is known of it.)
    open spec fn held_atoms(&self) -> Seq<String> {
        arbitrary()
    }

    /// The names that the source holds, each as atom, namespace and title.
    open spec fn held_names(&self) -> Seq<(String, String, String)> {
        arbitrary()
    }

    /// The edges that the source holds, each as its two ends and its label.
    open spec fn held_edges(&self) -> Seq<(String, String, String)> {
        arbitrary()
    }

    /// The tags that the source holds, each as atom, key and value.
    open spec fn held_tags(&self) -> Seq<(String, String, String)> {
        arbitrary()
    }

    /// The blobs that the source holds, each as atom, kind, MIME type and hash.
    open spec fn held_blobs(&self) -> Seq<(String, String, String, String)> {
        arbitrary()
    }

    /// Gives the atoms.
    fn atoms(&self) -> (r: Result<Vec<String>, SourceError<Self::Error>>)
        ensures
            self.reliable() ==> r is Ok,
            r is Ok ==> r->Ok_0@ == self.held_atoms(),
    ;

    /// Gives the names.
    fn names(&self) -> (r: Result<Vec<(String, String, String)>, SourceError<Self::Error>>)
        ensures
            self.reliable() ==> r is Ok,
            r is Ok ==> r->Ok_0@ == self.held_names(),
    ;

    /// Gives the edges.
    fn edges(&self) -> (r: Result<Vec<(String, String, String)>, SourceError<Self::Error>>)
        ensures
            self.reliable() ==> r is Ok,
            r is Ok ==> r->Ok_0@ == self.held_edges(),
    ;

    /// Gives the tags.
    fn tags(&self) -> (r: Result<Vec<(String, String, String)>, SourceError<Self::Error>>)
        ensures
            self.reliable() ==> r is Ok,
            r is Ok ==> r->Ok_0@ == self.held_tags(),
    ;

    /// Gives the blobs.
    fn blobs(&self) -> (r: Result<Vec<(String, String, String, String)>, SourceError<Self::Error>>)
        ensures
            self.reliable() ==> r is Ok,
            r is Ok ==> r->Ok_0@ == self.held_blobs(),
    ;
}

/// Facts held in memory.
#[derive(Clone, Debug, PartialEq, Eq)]
pub struct MemoryFacts {
    /// `atom`
    pub atoms: Vec<String>,
    /// `atom, namespace, title`
    pub names: Vec<(String, String, String)>,
    /// `from, to, label`
    pub edges: Vec<(String, String, String)>,
    /// `atom, key, value`
    pub tags: Vec<(String, String, String)>,
    /// `atom, kind, mime, hash`
    pub blobs: Vec<(String, String, String, String)>,
}

/// The error of a source that does not fail: no function of this library gives one.
#[derive(Clone, Copy, Debug, PartialEq, Eq, Structural)]
pub struct Never;

/// A copy of a list of strings.
fn copy_strings(items: &Vec<String>) -> (r: Vec<String>)
    ensures
        r@ == items@,
{
    let mut out: Vec<String> = Vec::new();
    let mut i: usize = 0;
    while i < items.len()
        invariant
            i <= items.len(),
            out@ == items@.subrange(0, i as int),
        decreases items.len() - i,
    {
        out.push(items[i].clone());
        assert(out@ =~= items@.subrange(0, i + 1));
        i += 1;
    }
    assert(items@.subrange(0, items.len() as int) =~= items@);
    out
}

/// A copy of a list of triples.
fn copy_triples(items: &Vec<(String, String, String)>) -> (r: Vec<(String, String, String)>)
    ensures
        r@ == items@,
{
    let mut out: Vec<(String, String, String)> = Vec::new();
    let mut i: usize = 0;
    while i < items.len()
        invariant
            i <= items.len(),
            out@ == items@.subrange(0, i as int),
        decreases items.len() - i,
    {
        out.push((items[i].0.clone(), items[i].1.clone(), items[i].2.clone()));
        assert(out@ =~= items@.subrange(0, i + 1));
        i += 1;
    }
    assert(items@.subrange(0, items.len() as int) =~= items@);
    out
}

/// A copy of a list of quadruples.
fn copy_quadruples(items: &Vec<(String, String, String, String)>) -> (r: Vec<
    (String, String, String, String),
>)
    ensures
        r@ == items@,
{
    let mut out: Vec<(String, String, String, String)> = Vec::new();
    let mut i: usize = 0;
    while i < items.len()
        invariant
            i <= items.len(),
            out@ == items@.subrange(0, i as int),
        decreases items.len() - i,
    {
        out.push(
            (items[i].0.clone(), items[i].1.clone(), items[i].2.clone(), items[i].3.clone()),
        );
        assert(out@ =~= items@.subrange(0, i + 1));
        i += 1;
    }
    assert(items@.subrange(0, items.len() as int) =~= items@);
    out
}

impl FactSource for MemoryFacts {
    type Error = Never;

    open spec fn reliable(&self) -> bool {
        true
    }

    open spec fn held_atoms(&self) -> Seq<String> {
        self.atoms@
    }

    open spec fn held_names(&self) -> Seq<(String, String, String)> {
        self.names@
    }

    open spec fn held_edges(&self) -> Seq<(String, String, String)> {
        self.edges@
    }

    open spec fn held_tags(&self) -> Seq<(String, String, String)> {
        self.tags@
    }

    open spec fn held_blobs(&self) -> Seq<(String, String, String, String)> {
        self.blobs@
    }

    fn atoms(&self) -> (r: Result<Vec<String>, SourceError<Never>>)
        ensures
            r is Ok,
    {
        Ok(copy_strings(&self.atoms))
    }

    fn names(&self) -> (r: Result<Vec<(String, String, String)>, SourceError<Never>>)
        ensures
            r is Ok,
    {
        Ok(copy_triples(&self.names))
    }

    fn edges(&self) -> (r: Result<Vec<(String, String, String)>, SourceError<Never>>)
        ensures
            r is Ok,
    {
        Ok(copy_triples(&self.edges))
    }

    fn tags(&self) -> (r: Result<Vec<(String, String, String)>, SourceError<Never>>)
        ensures
            r is Ok,
    {
        Ok(copy_triples(&self.tags))
    }

    fn blobs(&self) -> (r: Result<Vec<(String, String, String, String)>, SourceError<Never>>)
        ensures
            r is Ok,
    {
        Ok(copy_quadruples(&self.blobs))
    }
}

/// The answers to a query over what a source holds.
pub open spec fn answers_over<F: FactSource>(source: &F, query: &NamelessQuery) -> Set<
    Seq<Seq<char>>,
> {
    answers(
        query@,
        base_relations(
            query@.strings,
            source.held_atoms(),
            source.held_names(),
            source.held_edges(),
            source.held_tags(),
            source.held_blobs(),
        ),
    )
}

/// The answers to a query over given facts.
pub open spec fn answers_from(facts: MemoryFacts, query: &NamelessQuery) -> Set<Seq<Seq<char>>> {
    answers(
        query@,
        base_relations(
            query@.strings,
            facts.atoms@,
            facts.names@,
            facts.edges@,
            facts.tags@,
            facts.blobs@,
        ),
    )
}

/// The answers to a query over what was read of a source: none where nothing
/// was read.
pub open spec fn answers_read<E>(read: Result<MemoryFacts, SourceError<E>>, query: &NamelessQuery) -> Set<
    Seq<Seq<char>>,
> {
    match read {
        Ok(facts) => answers_from(facts, query),
        Err(_) => Set::empty(),
    }
}

/// Whether the facts are those that the source holds, relation by relation and
/// in the order of the source.
pub open spec fn read_from<F: FactSource>(facts: MemoryFacts, source: &F) -> bool {
    &&& facts.atoms@ == source.held_atoms()
    &&& facts.names@ == source.held_names()
    &&& facts.edges@ == source.held_edges()
    &&& facts.tags@ == source.held_tags()
    &&& facts.blobs@ == source.held_blobs()
}

/// Reads the five relations of a source, in the order `atom`, `name`, `edge`,
/// `tag`, `blob`, and stops at the first that the source cannot give, with the
/// error of the source.
///
/// What is read is what the source holds. A reliable source is read whole.
pub fn snapshot<F: FactSource>(source: &F) -> (r: Result<MemoryFacts, SourceError<F::Error>>)
    ensures
        source.reliable() ==> r is Ok,
        r is Ok ==> read_from(r->Ok_0, source),
{
    let atoms = match source.atoms() {
        Ok(atoms) => atoms,
        Err(e) => {
            return Err(e);
        },
    };
    let names = match source.names() {
        Ok(names) => names,
        Err(e) => {
            return Err(e);
        },
    };
    let edges = match source.edges() {
        Ok(edges) => edges,
        Err(e) => {
            return Err(e);
        },
    };
    let tags = match source.tags() {
        Ok(tags) => tags,
        Err(e) => {
            return Err(e);
        },
    };
    let blobs = match source.blobs() {
        Ok(blobs) => blobs,
        Err(e) => {
            return Err(e);
        },
    };
    Ok(MemoryFacts { atoms, names, edges, tags, blobs })
}

/// Answers a query from what was read of a source, returning multiple results
/// (at most `limit`).
///
/// Over facts, the results are answers over them: no tuple twice, all the answers
/// where there is no limit or the limit is not reached, and else as many as the
/// limit says. Where the source failed, its error is handed on: a cancellation as
/// one, any other error unchanged.
pub fn query_read<E>(
    read: Result<MemoryFacts, SourceError<E>>,
    limit: Option<usize>,
    q: &NamelessQuery,
) -> (r: Result<Vec<Vec<String>>, SolverError<E>>)
    requires
        q@.valid(),
        q@.ground(),
    ensures
        match read {
            Ok(facts) => r is Ok && is_solution(
                list_view(r->Ok_0@),
                answers_from(facts, q),
                limit,
            ),
            Err(e) => r == Err::<Vec<Vec<String>>, SolverError<E>>(surfaced(e)),
        },
{
    match read {
        Ok(facts) => Ok(
            naive_solve(
                facts.atoms.as_slice(),
                facts.names.as_slice(),
                facts.edges.as_slice(),
                facts.tags.as_slice(),
                facts.blobs.as_slice(),
                limit,
                q,
            ),
        ),
        Err(e) => Err(surface(e)),
    }
}

/// Answers a query from what was read of a source, returning at most one result:
/// an answer where the query has one, and `None` where it has none. Where the
/// source failed, its error is handed on.
pub fn query_first_read<E>(read: Result<MemoryFacts, SourceError<E>>, q: &NamelessQuery) -> (r:
    Result<Option<Vec<String>>, SolverError<E>>)
    requires
        q@.valid(),
        q@.ground(),
    ensures
        match read {
            Ok(facts) => match r {
                Ok(Some(row)) => answers_from(facts, q).contains(
                    crate::nameless::strings_view(row@),
                ),
                Ok(None) => answers_from(facts, q) == Set::<Seq<Seq<char>>>::empty(),
                Err(_) => false,
            },
            Err(e) => r == Err::<Option<Vec<String>>, SolverError<E>>(surfaced(e)),
        },
{
    let ghost all = answers_read(read, q);
    let mut found = match query_read(read, Some(1), q) {
        Ok(found) => found,
        Err(e) => {
            return Err(e);
        },
    };
    let ghost rows = list_view(found@);
    if found.len() == 0 {
        assert(all =~= Set::empty()) by {
            assert forall|t: Seq<Seq<char>>| !all.contains(t) by {
                if all.contains(t) {
                    assert(rows.contains(t));
                }
            }
        }
        return Ok(None);
    }
    assert(rows[0] == crate::nameless::strings_view(found@[0]@));
    let row = found.pop().unwrap();
    Ok(Some(row))
}

/// Answers a query from what was read of a source, returning whether it has
/// results. Where the source failed, its error is handed on.
pub fn query_has_results_read<E>(read: Result<MemoryFacts, SourceError<E>>, q: &NamelessQuery) -> (r:
    Result<bool, SolverError<E>>)
    requires
        q@.valid(),
        q@.ground(),
    ensures
        match read {
            Ok(facts) => r == Ok::<bool, SolverError<E>>(
                answers_from(facts, q) != Set::<Seq<Seq<char>>>::empty(),
            ),
            Err(e) => r == Err::<bool, SolverError<E>>(surfaced(e)),
        },
{
    let ghost all = answers_read(read, q);
    match query_first_read(read, q) {
        Ok(Some(row)) => {
            assert(all.contains(crate::nameless::strings_view(row@)));
            Ok(true)
        },
        Ok(None) => Ok(false),
        Err(e) => Err(e),
    }
}

/// Performs a query, returning multiple results (at most `limit`).
///
/// The source is read, and the query answered from what was read. Over a
/// reliable source the query succeeds. Whenever it succeeds, the results are
/// answers over what the source holds: no tuple twice, all the answers where
/// there is no limit or the limit is not reached, and else as many as the limit
/// says.
pub fn query<F: FactSource>(source: &F, limit: Option<usize>, q: &NamelessQuery) -> (r: Result<
    Vec<Vec<String>>,
    SolverError<F::Error>,
>)
    requires
        q@.valid(),
        q@.ground(),
    ensures
        source.reliable() ==> r is Ok,
        r is Ok ==> is_solution(list_view(r->Ok_0@), answers_over(source, q), limit),
{
    query_read(snapshot(source), limit, q)
}

/// Performs a query, returning all results.
///
/// Over a reliable source the query succeeds. Whenever it succeeds, the results
/// are the answers over what the source holds, each once.
pub fn query_all<F: FactSource>(source: &F, q: &NamelessQuery) -> (r: Result<
    Vec<Vec<String>>,
    SolverError<F::Error>,
>)
    requires
        q@.valid(),
        q@.ground(),
    ensures
        source.reliable() ==> r is Ok,
        r is Ok ==> list_view(r->Ok_0@).no_duplicates() && list_view(r->Ok_0@).to_set()
            == answers_over(source, q),
{
    let r = query(source, None, q);
    proof {
        if r is Ok {
            let rows = list_view(r->Ok_0@);
            assert(rows.to_set() =~= answers_over(source, q)) by {
                assert forall|t: Seq<Seq<char>>| rows.to_set().contains(t) implies answers_over(
                    source,
                    q,
                ).contains(t) by {
                    let k = choose|k: int| 0 <= k < rows.len() && rows[k] == t;
                    assert(answers_over(source, q).contains(rows[k]));
                }
            }
        }
    }
    r
}

/// Performs a query, returning at most one result.
///
/// Over a reliable source the query succeeds. Whenever it succeeds, the result
/// is an answer over what the source holds, or `None` where there is no answer.
pub fn query_first<F: FactSource>(source: &F, q: &NamelessQuery) -> (r: Result<
    Option<Vec<String>>,
    SolverError<F::Error>,
>)
    requires
        q@.valid(),
        q@.ground(),
    ensures
        source.reliable() ==> r is Ok,
        match r {
            Ok(Some(row)) => answers_over(source, q).contains(crate::nameless::strings_view(row@)),
            Ok(None) => answers_over(source, q) == Set::<Seq<Seq<char>>>::empty(),
            Err(_) => true,
        },
{
    query_first_read(snapshot(source), q)
}

/// Performs a query, returning whether it had results.
///
/// Over a reliable source the query succeeds. Whenever it succeeds, the result
/// says whether there is an answer over what the source holds.
pub fn query_has_results<F: FactSource>(source: &F, q: &NamelessQuery) -> (r: Result<
    bool,
    SolverError<F::Error>,
>)
    requires
        q@.valid(),
        q@.ground(),
    ensures
        source.reliable() ==> r is Ok,
        r is Ok ==> r->Ok_0 == (answers_over(source, q) != Set::<Seq<Seq<char>>>::empty()),
{
    query_has_results_read(snapshot(source), q)
}

} // verus!
