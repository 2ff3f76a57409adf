//! Lowering of a query as written to its nameless form: predicates get their
//! indices in the order of the strata, strings their handles in the pool, and the
//! variables of each clause their numbers.

use crate::nameless::{
    strings_view, ClauseModel, NamelessClause, NamelessPredicate, NamelessQuery, NamelessValue,
    PredicateModel, QueryModel, ATOM, BLOB, BUILTINS, EDGE, EQUALS, NAME, TAG,
};
use crate::query::{
    body_view, values_view, Clause, ClauseSpec, Predicate, PredicateSpec, Query, QuerySpec, Value,
    ValueSpec,
};
use crate::stratify::{lemma_strata_in_order, strata, strata_of};
use crate::validate::{
    args_meet, clause_handles_below, lemma_strings_met, literals_handles_below, pool_distinct,
    value_meets, Rule,
};
use crate::nameless::predicate_name;
use vstd::prelude::*;

verus! {

/// Why a query could not be lowered.
#[derive(Clone, Copy, Debug, PartialEq, Eq, Structural)]
pub enum LoweringError {
    /// The calls between the predicates form a cycle through more than one
    /// predicate, so no order of strata exists.
    IllegalRecursion,
    /// The literal `literal` of the clause `clause` calls a predicate that is
    /// neither built in nor defined. For the goal, `clause` is the number of
    /// clauses and `literal` is 0.
    NoSuchClause { clause: usize, literal: usize },
    /// The head of the clause `clause` names a built-in predicate.
    RedefinedBuiltin { clause: usize },
    /// There are more predicates than indices.
    TooManyPredicates,
    /// There are more strings than handles.
    TooManyStrings,
    /// A clause or the goal has more variables than indices.
    TooManyVariables,
}

/// The name and the number of arguments of a call.
pub open spec fn functor(p: PredicateSpec) -> (Seq<char>, nat) {
    (p.name, p.args.len())
}

/// The index of a built-in predicate, by its name and number of arguments.
pub open spec fn builtin(f: (Seq<char>, nat)) -> Option<u32> {
    if f.0 == "atom"@ && f.1 == 1 {
        Some(ATOM)
    } else if f.0 == "name"@ && f.1 == 3 {
        Some(NAME)
    } else if f.0 == "edge"@ && f.1 == 3 {
        Some(EDGE)
    } else if f.0 == "tag"@ && f.1 == 3 {
        Some(TAG)
    } else if f.0 == "blob"@ && f.1 == 4 {
        Some(BLOB)
    } else if f.0 == "="@ && f.1 == 2 {
        Some(EQUALS)
    } else {
        None
    }
}

/// The index at which `x` first stands in `s`, or the length of `s` if it does not.
pub open spec fn position<A>(s: Seq<A>, x: A) -> nat
    decreases s.len(),
{
    if s.len() == 0 {
        0
    } else if s.first() == x {
        0
    } else {
        1 + position(s.drop_first(), x)
    }
}

/// The functors that the clauses define, each once, in the order in which they first appear.
pub open spec fn heads(clauses: Seq<ClauseSpec>) -> Seq<(Seq<char>, nat)>
    decreases clauses.len(),
{
    if clauses.len() == 0 {
        Seq::empty()
    } else {
        let rest = heads(clauses.drop_last());
        let f = functor(clauses.last().head);
        if rest.contains(f) {
            rest
        } else {
            rest.push(f)
        }
    }
}

/// The first clause whose head names a built-in predicate.
pub open spec fn first_redefined(clauses: Seq<ClauseSpec>) -> Option<nat>
    decreases clauses.len(),
{
    if clauses.len() == 0 {
        None
    } else {
        match first_redefined(clauses.drop_last()) {
            Some(i) => Some(i),
            None => if builtin(functor(clauses.last().head)) is Some {
                Some((clauses.len() - 1) as nat)
            } else {
                None
            },
        }
    }
}

/// The call that the literal `l` of the clause `c` adds to the order of the
/// strata: from the predicate it calls to the predicate of the clause, unless it
/// calls that predicate itself or one that no clause defines.
pub open spec fn call_edge(q: QuerySpec, c: int, l: int) -> Option<(usize, usize)> {
    let table = heads(q.clauses);
    let caller = position(table, functor(q.clauses[c].head));
    let callee = position(table, functor(q.clauses[c].body[l].1));
    if callee < table.len() && callee != caller {
        Some((callee as usize, caller as usize))
    } else {
        None
    }
}

/// The calls that the literals before the literal `l` of the clause `c` add.
pub open spec fn calls_upto(q: QuerySpec, c: int, l: int) -> Set<(usize, usize)> {
    Set::new(
        |e: (usize, usize)|
            exists|ci: int, li: int|
                0 <= ci < q.clauses.len() && 0 <= li < q.clauses[ci].body.len() && (ci < c || (ci
                    == c && li < l)) && #[trigger] call_edge(q, ci, li) == Some(e),
    )
}

/// The calls between the predicates that the query defines.
pub open spec fn calls(q: QuerySpec) -> Set<(usize, usize)> {
    calls_upto(q, q.clauses.len() as int, 0)
}

/// The order of the strata of a query: the indices of its functors in `heads`,
/// each after those that it calls.
pub open spec fn order_of(q: QuerySpec) -> Seq<usize> {
    strata(heads(q.clauses).len(), calls(q))
}

/// The index of the predicate with the functor `f`: fixed for a built-in, else
/// by the place of the functor in the order of the strata.
pub open spec fn resolve(f: (Seq<char>, nat), table: Seq<(Seq<char>, nat)>, order: Seq<usize>) -> Option<
    nat,
> {
    match builtin(f) {
        Some(b) => Some(b as nat),
        None => if table.contains(f) {
            Some(BUILTINS as nat + position(order, position(table, f) as usize))
        } else {
            None
        },
    }
}

/// The handle of a string in a pool, and the pool with the string in it.
pub open spec fn intern(pool: Seq<Seq<char>>, s: Seq<char>) -> (nat, Seq<Seq<char>>) {
    if pool.contains(s) {
        (position(pool, s), pool)
    } else {
        (pool.len(), pool.push(s))
    }
}

/// What lowering carries from one value to the next: the string pool of the
/// query, and the variables of the clause met so far, a hole as `None`.
pub struct Pools {
    pub strings: Seq<Seq<char>>,
    pub vars: Seq<Option<Seq<char>>>,
}

/// Lowers one value.
pub open spec fn lower_value(v: ValueSpec, at: Pools) -> Result<(NamelessValue, Pools), LoweringError> {
    match v {
        ValueSpec::Hole => if at.vars.len() > u32::MAX {
            Err(LoweringError::TooManyVariables)
        } else {
            Ok(
                (
                    NamelessValue::Var(at.vars.len() as u32),
                    Pools { strings: at.strings, vars: at.vars.push(None) },
                ),
            )
        },
        ValueSpec::Var(x) => {
            let n = position(at.vars, Some(x));
            if n > u32::MAX {
                Err(LoweringError::TooManyVariables)
            } else {
                Ok(
                    (
                        NamelessValue::Var(n as u32),
                        Pools {
                            strings: at.strings,
                            vars: if n < at.vars.len() {
                                at.vars
                            } else {
                                at.vars.push(Some(x))
                            },
                        },
                    ),
                )
            }
        },
        ValueSpec::MetaVar(s) => {
            let (h, strings) = intern(at.strings, s);
            if h > u32::MAX {
                Err(LoweringError::TooManyStrings)
            } else {
                Ok((NamelessValue::MetaVar(h as u32), Pools { strings, vars: at.vars }))
            }
        },
        ValueSpec::Str(s) => {
            let (h, strings) = intern(at.strings, s);
            if h > u32::MAX {
                Err(LoweringError::TooManyStrings)
            } else {
                Ok((NamelessValue::Str(h as u32), Pools { strings, vars: at.vars }))
            }
        },
    }
}

/// Lowers the values of a list from left to right.
pub open spec fn lower_args(args: Seq<ValueSpec>, at: Pools) -> Result<
    (Seq<NamelessValue>, Pools),
    LoweringError,
>
    decreases args.len(),
{
    if args.len() == 0 {
        Ok((Seq::empty(), at))
    } else {
        match lower_args(args.drop_last(), at) {
            Err(e) => Err(e),
            Ok((done, mid)) => match lower_value(args.last(), mid) {
                Err(e) => Err(e),
                Ok((v, after)) => Ok((done.push(v), after)),
            },
        }
    }
}

/// What does not change while a query is lowered: its functors and the order of the strata.
pub struct Names {
    pub table: Seq<(Seq<char>, nat)>,
    pub order: Seq<usize>,
}

/// Lowers a call; `clause` and `literal` say where it stands.
pub open spec fn lower_call(
    p: PredicateSpec,
    names: Names,
    at: Pools,
    clause: nat,
    literal: nat,
) -> Result<(PredicateModel, Pools), LoweringError> {
    match resolve(functor(p), names.table, names.order) {
        None => Err(LoweringError::NoSuchClause { clause: clause as usize, literal: literal as usize }),
        Some(name) => match lower_args(p.args, at) {
            Err(e) => Err(e),
            Ok((args, after)) => Ok((PredicateModel { name, args }, after)),
        },
    }
}

/// A body in lowering: its positive literals, its negated ones, and the pools after them.
pub struct Body {
    pub pos: Seq<PredicateModel>,
    pub neg: Seq<PredicateModel>,
    pub at: Pools,
}

/// Lowers the literals of a body from left to right, the positive ones apart
/// from the negated ones, each kind in the order written.
pub open spec fn lower_body(
    body: Seq<(bool, PredicateSpec)>,
    names: Names,
    at: Pools,
    clause: nat,
) -> Result<Body, LoweringError>
    decreases body.len(),
{
    if body.len() == 0 {
        Ok(Body { pos: Seq::empty(), neg: Seq::empty(), at })
    } else {
        match lower_body(body.drop_last(), names, at, clause) {
            Err(e) => Err(e),
            Ok(done) => match lower_call(
                body.last().1,
                names,
                done.at,
                clause,
                (body.len() - 1) as nat,
            ) {
                Err(e) => Err(e),
                Ok((p, after)) => if body.last().0 {
                    Ok(Body { pos: done.pos, neg: done.neg.push(p), at: after })
                } else {
                    Ok(Body { pos: done.pos.push(p), neg: done.neg, at: after })
                },
            },
        }
    }
}

/// Lowers a clause: its head first, then its body, with variables of its own.
/// `clause` is the place of the clause in the query.
pub open spec fn lower_clause(
    c: ClauseSpec,
    names: Names,
    strings: Seq<Seq<char>>,
    clause: nat,
) -> Result<(ClauseModel, Seq<Seq<char>>), LoweringError> {
    match lower_args(c.head.args, Pools { strings, vars: Seq::empty() }) {
        Err(e) => Err(e),
        Ok((head, mid)) => match lower_body(c.body, names, mid, clause) {
            Err(e) => Err(e),
            Ok(body) => if body.at.vars.len() > u32::MAX {
                Err(LoweringError::TooManyVariables)
            } else {
                Ok(
                    (
                        ClauseModel {
                            vars: body.at.vars.len(),
                            head,
                            body_pos: body.pos,
                            body_neg: body.neg,
                        },
                        body.at.strings,
                    ),
                )
            },
        },
    }
}

/// Lowers, among the first `upto` clauses of the query, those of the functor at `f` in
/// the table, in the order written.
pub open spec fn lower_group(
    q: QuerySpec,
    names: Names,
    f: nat,
    strings: Seq<Seq<char>>,
    upto: nat,
) -> Result<(Seq<ClauseModel>, Seq<Seq<char>>), LoweringError>
    decreases upto,
{
    if upto == 0 {
        Ok((Seq::empty(), strings))
    } else {
        match lower_group(q, names, f, strings, (upto - 1) as nat) {
            Err(e) => Err(e),
            Ok((done, mid)) => if position(names.table, functor(q.clauses[upto - 1].head)) == f {
                match lower_clause(q.clauses[upto - 1], names, mid, (upto - 1) as nat) {
                    Err(e) => Err(e),
                    Ok((c, after)) => Ok((done.push(c), after)),
                }
            } else {
                Ok((done, mid))
            },
        }
    }
}

/// Lowers the groups of the first `upto` strata, in their order.
pub open spec fn lower_groups(q: QuerySpec, names: Names, upto: nat) -> Result<
    (Seq<Seq<ClauseModel>>, Seq<Seq<char>>),
    LoweringError,
>
    decreases upto,
{
    if upto == 0 {
        Ok((Seq::empty(), Seq::empty()))
    } else {
        match lower_groups(q, names, (upto - 1) as nat) {
            Err(e) => Err(e),
            Ok((done, mid)) => match lower_group(
                q,
                names,
                names.order[upto - 1] as nat,
                mid,
                q.clauses.len(),
            ) {
                Err(e) => Err(e),
                Ok((group, after)) => Ok((done.push(group), after)),
            },
        }
    }
}

/// Whether the order of the strata holds every functor of the table, and as many
/// items as the table has functors: it does unless some predicates call each
/// other in a cycle.
pub open spec fn complete(order: Seq<usize>, n: nat) -> bool {
    &&& order.len() == n
    &&& forall|i: usize| i < n ==> order.contains(i)
}

/// The nameless form of a query, or the reason why it has none.
///
/// In this order: no head may name a built-in; the predicates must not outnumber
/// the indices; the order of the strata must hold every predicate; then the
/// groups are lowered in that order and the goal after them, and the first call
/// of an unknown predicate, or the first string or variable beyond the handles
/// and indices, is the error.
pub open spec fn lower(q: QuerySpec) -> Result<QueryModel, LoweringError> {
    let table = heads(q.clauses);
    let order = order_of(q);
    let names = Names { table, order };
    if first_redefined(q.clauses) is Some {
        Err(LoweringError::RedefinedBuiltin { clause: first_redefined(q.clauses)->0 as usize })
    } else if table.len() + BUILTINS > u32::MAX {
        Err(LoweringError::TooManyPredicates)
    } else if !complete(order, table.len()) {
        Err(LoweringError::IllegalRecursion)
    } else {
        match lower_groups(q, names, order.len()) {
            Err(e) => Err(e),
            Ok((clauses, strings)) => match lower_call(
                q.goal,
                names,
                Pools { strings, vars: Seq::empty() },
                q.clauses.len(),
                0,
            ) {
                Err(e) => Err(e),
                Ok((goal, after)) => if after.vars.len() > u32::MAX {
                    Err(LoweringError::TooManyVariables)
                } else {
                    Ok(
                        QueryModel {
                            strings: after.strings,
                            clauses,
                            goal_vars: after.vars.len(),
                            goal,
                        },
                    )
                },
            },
        }
    }
}

/// The functors of a table, each as its name and number of arguments.
pub open spec fn table_view(table: Seq<(String, usize)>) -> Seq<(Seq<char>, nat)> {
    table.map_values(|f: (String, usize)| (f.0@, f.1 as nat))
}

/// The variables of a clause met so far, each as its name, a hole as `None`.
pub open spec fn vars_view(vars: Seq<Option<String>>) -> Seq<Option<Seq<char>>> {
    vars.map_values(
        |o: Option<String>|
            match o {
                Some(s) => Some(s@),
                None => None,
            },
    )
}

/// `position` is within the length, reaches it only where `x` is missing, and points at `x`.
pub proof fn lemma_position<A>(s: Seq<A>, x: A)
    ensures
        position(s, x) <= s.len(),
        position(s, x) < s.len() <==> s.contains(x),
        position(s, x) < s.len() ==> s[position(s, x) as int] == x,
    decreases s.len(),
{
    if s.len() == 0 {
    } else if s.first() == x {
        assert(s[0] == x);
    } else {
        lemma_position(s.drop_first(), x);
        let rest = s.drop_first();
        if rest.contains(x) {
            let k = choose|k: int| 0 <= k < rest.len() && rest[k] == x;
            assert(s[k + 1] == x);
        }
        if s.contains(x) {
            let k = choose|k: int| 0 <= k < s.len() && s[k] == x;
            assert(rest[k - 1] == x);
        }
        if position(s, x) < s.len() {
            assert(rest[position(rest, x) as int] == x);
        }
    }
}

/// Scanning for `x` from the index `i`: a miss at `i` moves the search on by one.
pub proof fn lemma_position_miss<A>(s: Seq<A>, x: A, i: int)
    requires
        0 <= i < s.len(),
        s[i] != x,
    ensures
        position(s.subrange(i, s.len() as int), x) == 1 + position(
            s.subrange(i + 1, s.len() as int),
            x,
        ),
{
    assert(s.subrange(i, s.len() as int).drop_first() =~= s.subrange(i + 1, s.len() as int));
}

/// Scanning for `x` from the index `i`: a hit at `i` ends the search.
pub proof fn lemma_position_hit<A>(s: Seq<A>, x: A, i: int)
    requires
        0 <= i < s.len(),
        s[i] == x,
    ensures
        position(s.subrange(i, s.len() as int), x) == 0,
{
}

/// The index of a built-in predicate, by its name and number of arguments.
fn builtin_of(name: &String, argn: usize) -> (r: Option<u32>)
    ensures
        r == builtin((name@, argn as nat)),
{
    if argn == 1 && *name == "atom".to_owned() {
        Some(ATOM)
    } else if argn == 3 && *name == "name".to_owned() {
        Some(NAME)
    } else if argn == 3 && *name == "edge".to_owned() {
        Some(EDGE)
    } else if argn == 3 && *name == "tag".to_owned() {
        Some(TAG)
    } else if argn == 4 && *name == "blob".to_owned() {
        Some(BLOB)
    } else if argn == 2 && *name == "=".to_owned() {
        Some(EQUALS)
    } else {
        None
    }
}

/// The place of a functor in a table, or the length of the table if it is not there.
pub(crate) fn find_functor(table: &Vec<(String, usize)>, name: &String, argn: usize) -> (r: usize)
    ensures
        r == position(table_view(table@), (name@, argn as nat)),
        r <= table.len(),
{
    let ghost tv = table_view(table@);
    let ghost f = (name@, argn as nat);
    let mut i: usize = 0;
    assert(tv.subrange(0, tv.len() as int) =~= tv);
    while i < table.len()
        invariant
            i <= table.len(),
            tv == table_view(table@),
            f == (name@, argn as nat),
            position(tv, f) == i + position(tv.subrange(i as int, tv.len() as int), f),
        decreases table.len() - i,
    {
        if table[i].1 == argn && table[i].0 == *name {
            proof {
                lemma_position_hit(tv, f, i as int);
            }
            return i;
        }
        proof {
            assert(tv[i as int] != f);
            lemma_position_miss(tv, f, i as int);
        }
        i += 1;
    }
    i
}

/// The place of a number in a list, or the length of the list if it is not there.
pub(crate) fn find_number(list: &Vec<usize>, x: usize) -> (r: usize)
    ensures
        r == position(list@, x),
        r <= list.len(),
{
    let mut i: usize = 0;
    assert(list@.subrange(0, list.len() as int) =~= list@);
    while i < list.len()
        invariant
            i <= list.len(),
            position(list@, x) == i + position(list@.subrange(i as int, list.len() as int), x),
        decreases list.len() - i,
    {
        if list[i] == x {
            proof {
                lemma_position_hit(list@, x, i as int);
            }
            return i;
        }
        proof {
            lemma_position_miss(list@, x, i as int);
        }
        i += 1;
    }
    i
}

/// The place of a string in a pool, or the length of the pool if it is not there.
fn find_string(pool: &Vec<String>, s: &String) -> (r: usize)
    ensures
        r == position(strings_view(pool@), s@),
        r <= pool.len(),
{
    let ghost pv = strings_view(pool@);
    let mut i: usize = 0;
    assert(pv.subrange(0, pv.len() as int) =~= pv);
    while i < pool.len()
        invariant
            i <= pool.len(),
            pv == strings_view(pool@),
            position(pv, s@) == i + position(pv.subrange(i as int, pv.len() as int), s@),
        decreases pool.len() - i,
    {
        if pool[i] == *s {
            proof {
                lemma_position_hit(pv, s@, i as int);
            }
            return i;
        }
        proof {
            assert(pv[i as int] != s@);
            lemma_position_miss(pv, s@, i as int);
        }
        i += 1;
    }
    i
}

/// The place of a named variable among the variables met, or their number if it is not there.
fn find_var(vars: &Vec<Option<String>>, x: &String) -> (r: usize)
    ensures
        r == position(vars_view(vars@), Some(x@)),
        r <= vars.len(),
{
    let ghost vv = vars_view(vars@);
    let mut i: usize = 0;
    assert(vv.subrange(0, vv.len() as int) =~= vv);
    while i < vars.len()
        invariant
            i <= vars.len(),
            vv == vars_view(vars@),
            position(vv, Some(x@)) == i + position(vv.subrange(i as int, vv.len() as int), Some(x@)),
        decreases vars.len() - i,
    {
        let same: bool = match &vars[i] {
            Some(name) => *name == *x,
            None => false,
        };
        if same {
            proof {
                assert(vv[i as int] == Some(x@));
                lemma_position_hit(vv, Some(x@), i as int);
            }
            return i;
        }
        proof {
            assert(vv[i as int] != Some(x@));
            lemma_position_miss(vv, Some(x@), i as int);
        }
        i += 1;
    }
    i
}

/// The pools that lowering carries, as the lists that hold them stand for.
pub open spec fn pools(strings: Vec<String>, vars: Vec<Option<String>>) -> Pools {
    Pools { strings: strings_view(strings@), vars: vars_view(vars@) }
}

/// Puts a string into the pool unless it is there, and gives its handle: the
/// handle that the string has in the pool, or that of the next place, where it
/// is then put. A string that is stored twice gets the same handle, and the pool
/// holds it once.
pub fn intern_string(pool: &mut Vec<String>, s: &String) -> (r: Result<u32, LoweringError>)
    ensures
        match r {
            Ok(h) => h == intern(strings_view(old(pool)@), s@).0 && strings_view(final(pool)@)
                == intern(strings_view(old(pool)@), s@).1,
            Err(e) => e == LoweringError::TooManyStrings && intern(strings_view(old(pool)@), s@).0
                > u32::MAX,
        },
        pool_distinct(strings_view(old(pool)@)) ==> pool_distinct(strings_view(final(pool)@)),
        final(pool).len() >= old(pool).len(),
        r is Ok ==> r->Ok_0 < final(pool).len(),
{
    let ghost before = strings_view(pool@);
    proof {
        lemma_position(before, s@);
    }
    let at = find_string(pool, s);
    if at > u32::MAX as usize {
        return Err(LoweringError::TooManyStrings);
    }
    if at == pool.len() {
        pool.push(s.clone());
        assert(strings_view(pool@) =~= before.push(s@));
    }
    Ok(at as u32)
}

/// Lowers one value.
fn lower_one(v: &Value, pool: &mut Vec<String>, vars: &mut Vec<Option<String>>) -> (r: Result<
    NamelessValue,
    LoweringError,
>)
    ensures
        match lower_value(v@, pools(*old(pool), *old(vars))) {
            Ok((x, after)) => r == Ok::<NamelessValue, LoweringError>(x) && pools(
                *final(pool),
                *final(vars),
            ) == after,
            Err(e) => r == Err::<NamelessValue, LoweringError>(e),
        },
        pool_distinct(strings_view(old(pool)@)) ==> pool_distinct(strings_view(final(pool)@)),
        final(pool).len() >= old(pool).len(),
        r is Ok ==> value_meets(Rule::Strings, r->Ok_0, 0, final(pool).len() as nat),
{
    match v {
        Value::Hole => {
            let n = vars.len();
            if n > u32::MAX as usize {
                return Err(LoweringError::TooManyVariables);
            }
            let ghost before = vars_view(vars@);
            vars.push(None);
            assert(vars_view(vars@) =~= before.push(None));
            Ok(NamelessValue::Var(n as u32))
        },
        Value::Var(x) => {
            let n = find_var(vars, x);
            if n > u32::MAX as usize {
                return Err(LoweringError::TooManyVariables);
            }
            if n == vars.len() {
                let ghost before = vars_view(vars@);
                vars.push(Some(x.clone()));
                assert(vars_view(vars@) =~= before.push(Some(x@)));
            }
            Ok(NamelessValue::Var(n as u32))
        },
        Value::MetaVar(s) => {
            match intern_string(pool, s) {
                Ok(h) => Ok(NamelessValue::MetaVar(h)),
                Err(e) => Err(e),
            }
        },
        Value::Str(s) => {
            match intern_string(pool, s) {
                Ok(h) => Ok(NamelessValue::Str(h)),
                Err(e) => Err(e),
            }
        },
    }
}

/// Lowers the values of a list from left to right.
fn lower_list(args: &Vec<Value>, pool: &mut Vec<String>, vars: &mut Vec<Option<String>>) -> (r:
    Result<Vec<NamelessValue>, LoweringError>)
    ensures
        match lower_args(values_view(args@), pools(*old(pool), *old(vars))) {
            Ok((xs, after)) => r is Ok && r->Ok_0@ == xs && pools(*final(pool), *final(vars))
                == after,
            Err(e) => r == Err::<Vec<NamelessValue>, LoweringError>(e),
        },
        pool_distinct(strings_view(old(pool)@)) ==> pool_distinct(strings_view(final(pool)@)),
        final(pool).len() >= old(pool).len(),
        r is Ok ==> args_meet(Rule::Strings, r->Ok_0@, 0, final(pool).len() as nat),
{
    let ghost all = values_view(args@);
    let ghost start = pools(*pool, *vars);
    let mut out: Vec<NamelessValue> = Vec::new();
    let mut j: usize = 0;
    assert(all.subrange(0, 0) =~= Seq::empty());
    while j < args.len()
        invariant
            j <= args.len(),
            all == values_view(args@),
            start == pools(*old(pool), *old(vars)),
            lower_args(all.subrange(0, j as int), start) == Ok::<
                (Seq<NamelessValue>, Pools),
                LoweringError,
            >((out@, pools(*pool, *vars))),
            pool_distinct(start.strings) ==> pool_distinct(strings_view(pool@)),
            pool.len() >= old(pool).len(),
            args_meet(Rule::Strings, out@, 0, pool.len() as nat),
        decreases args.len() - j,
    {
        proof {
            assert(all.subrange(0, j + 1).drop_last() =~= all.subrange(0, j as int));
            assert(all.subrange(0, j + 1).last() == args@[j as int]@);
        }
        let ghost mid = pools(*pool, *vars);
        match lower_one(&args[j], pool, vars) {
            Ok(x) => {
                out.push(x);
            },
            Err(e) => {
                proof {
                    assert(lower_value(all.subrange(0, j + 1).last(), mid) is Err);
                    assert(lower_args(all.subrange(0, j + 1), start) == Err::<
                        (Seq<NamelessValue>, Pools),
                        LoweringError,
                    >(e));
                    lemma_args_error(all, start, j + 1);
                }
                return Err(e);
            },
        }
        j += 1;
    }
    assert(all.subrange(0, args.len() as int) =~= all);
    Ok(out)
}

/// Once lowering the first `j` values fails, lowering the whole list fails in the same way.
proof fn lemma_args_error(args: Seq<ValueSpec>, at: Pools, j: int)
    requires
        0 <= j <= args.len(),
        lower_args(args.subrange(0, j), at) is Err,
    ensures
        lower_args(args, at) == lower_args(args.subrange(0, j), at),
    decreases args.len() - j,
{
    if j < args.len() {
        assert(args.subrange(0, j + 1).drop_last() =~= args.subrange(0, j));
        lemma_args_error(args, at, j + 1);
    } else {
        assert(args.subrange(0, j) =~= args);
    }
}

/// The literals of a list, each as what it stands for.
pub open spec fn preds_view(preds: Seq<NamelessPredicate>) -> Seq<PredicateModel> {
    preds.map_values(|p: NamelessPredicate| p@)
}

/// The functors and the order of the strata, as the lists that hold them stand for.
pub open spec fn names_view(table: Vec<(String, usize)>, order: Vec<usize>) -> Names {
    Names { table: table_view(table@), order: order@ }
}

/// Lowers a call; `clause` and `literal` say where it stands.
fn lower_pred(
    p: &Predicate,
    table: &Vec<(String, usize)>,
    order: &Vec<usize>,
    pool: &mut Vec<String>,
    vars: &mut Vec<Option<String>>,
    clause: usize,
    literal: usize,
) -> (r: Result<NamelessPredicate, LoweringError>)
    requires
        order.len() + BUILTINS <= u32::MAX,
    ensures
        match lower_call(
            p@,
            names_view(*table, *order),
            pools(*old(pool), *old(vars)),
            clause as nat,
            literal as nat,
        ) {
            Ok((m, after)) => r is Ok && r->Ok_0@ == m && pools(*final(pool), *final(vars))
                == after,
            Err(e) => r == Err::<NamelessPredicate, LoweringError>(e),
        },
        pool_distinct(strings_view(old(pool)@)) ==> pool_distinct(strings_view(final(pool)@)),
        final(pool).len() >= old(pool).len(),
        r is Ok ==> args_meet(Rule::Strings, r->Ok_0@.args, 0, final(pool).len() as nat),
{
    let ghost f = functor(p@);
    proof {
        lemma_position(table_view(table@), f);
    }
    let index: u32 = match builtin_of(&p.name, p.args.len()) {
        Some(b) => b,
        None => {
            let at = find_functor(table, &p.name, p.args.len());
            if at == table.len() {
                return Err(LoweringError::NoSuchClause { clause, literal });
            }
            let level = find_number(order, at);
            (BUILTINS as usize + level) as u32
        },
    };
    match lower_list(&p.args, pool, vars) {
        Ok(args) => Ok(NamelessPredicate { name: predicate_name(index), args }),
        Err(e) => Err(e),
    }
}

/// Once lowering the first `j` literals fails, lowering the whole body fails in the same way.
proof fn lemma_body_error(
    body: Seq<(bool, PredicateSpec)>,
    names: Names,
    at: Pools,
    clause: nat,
    j: int,
)
    requires
        0 <= j <= body.len(),
        lower_body(body.subrange(0, j), names, at, clause) is Err,
    ensures
        lower_body(body, names, at, clause) == lower_body(body.subrange(0, j), names, at, clause),
    decreases body.len() - j,
{
    if j < body.len() {
        assert(body.subrange(0, j + 1).drop_last() =~= body.subrange(0, j));
        lemma_body_error(body, names, at, clause, j + 1);
    } else {
        assert(body.subrange(0, j) =~= body);
    }
}

/// Lowers the literals of a body from left to right, the positive ones apart from
/// the negated ones.
fn lower_literals(
    body: &Vec<(bool, Predicate)>,
    table: &Vec<(String, usize)>,
    order: &Vec<usize>,
    pool: &mut Vec<String>,
    vars: &mut Vec<Option<String>>,
    clause: usize,
) -> (r: Result<(Vec<NamelessPredicate>, Vec<NamelessPredicate>), LoweringError>)
    requires
        order.len() + BUILTINS <= u32::MAX,
    ensures
        match lower_body(
            body_view(body@),
            names_view(*table, *order),
            pools(*old(pool), *old(vars)),
            clause as nat,
        ) {
            Ok(done) => r is Ok && preds_view(r->Ok_0.0@) == done.pos && preds_view(r->Ok_0.1@)
                == done.neg && pools(*final(pool), *final(vars)) == done.at,
            Err(e) => r == Err::<(Vec<NamelessPredicate>, Vec<NamelessPredicate>), LoweringError>(
                e,
            ),
        },
        pool_distinct(strings_view(old(pool)@)) ==> pool_distinct(strings_view(final(pool)@)),
        final(pool).len() >= old(pool).len(),
        r is Ok ==> literals_handles_below(preds_view(r->Ok_0.0@), final(pool).len() as nat)
            && literals_handles_below(preds_view(r->Ok_0.1@), final(pool).len() as nat),
{
    let ghost all = body_view(body@);
    let ghost names = names_view(*table, *order);
    let ghost start = pools(*pool, *vars);
    let mut pos: Vec<NamelessPredicate> = Vec::new();
    let mut neg: Vec<NamelessPredicate> = Vec::new();
    let mut i: usize = 0;
    assert(all.subrange(0, 0) =~= Seq::empty());
    assert(preds_view(pos@) =~= Seq::empty());
    assert(preds_view(neg@) =~= Seq::empty());
    while i < body.len()
        invariant
            i <= body.len(),
            order.len() + BUILTINS <= u32::MAX,
            all == body_view(body@),
            names == names_view(*table, *order),
            start == pools(*old(pool), *old(vars)),
            lower_body(all.subrange(0, i as int), names, start, clause as nat) == Ok::<
                Body,
                LoweringError,
            >(Body { pos: preds_view(pos@), neg: preds_view(neg@), at: pools(*pool, *vars) }),
            pool_distinct(start.strings) ==> pool_distinct(strings_view(pool@)),
            pool.len() >= old(pool).len(),
            literals_handles_below(preds_view(pos@), pool.len() as nat),
            literals_handles_below(preds_view(neg@), pool.len() as nat),
        decreases body.len() - i,
    {
        proof {
            assert(all.subrange(0, i + 1).drop_last() =~= all.subrange(0, i as int));
            assert(all.subrange(0, i + 1).last() == (body@[i as int].0, body@[i as int].1@));
        }
        let ghost mid = pools(*pool, *vars);
        let ghost pos_before = preds_view(pos@);
        let ghost neg_before = preds_view(neg@);
        match lower_pred(&body[i].1, table, order, pool, vars, clause, i) {
            Ok(p) => {
                if body[i].0 {
                    neg.push(p);
                    assert(preds_view(neg@) =~= neg_before.push(p@));
                } else {
                    pos.push(p);
                    assert(preds_view(pos@) =~= pos_before.push(p@));
                }
            },
            Err(e) => {
                proof {
                    assert(lower_call(all.subrange(0, i + 1).last().1, names, mid, clause as nat, i as nat)
                        is Err);
                    assert(lower_body(all.subrange(0, i + 1), names, start, clause as nat) == Err::<
                        Body,
                        LoweringError,
                    >(e));
                    lemma_body_error(all, names, start, clause as nat, i + 1);
                }
                return Err(e);
            },
        }
        i += 1;
    }
    assert(all.subrange(0, body.len() as int) =~= all);
    Ok((pos, neg))
}

/// Lowers a clause: its head first, then its body, with variables of its own.
fn lower_rule(
    c: &Clause,
    table: &Vec<(String, usize)>,
    order: &Vec<usize>,
    pool: &mut Vec<String>,
    clause: usize,
) -> (r: Result<NamelessClause, LoweringError>)
    requires
        order.len() + BUILTINS <= u32::MAX,
    ensures
        match lower_clause(
            c@,
            names_view(*table, *order),
            strings_view(old(pool)@),
            clause as nat,
        ) {
            Ok((m, after)) => r is Ok && r->Ok_0@ == m && strings_view(final(pool)@) == after,
            Err(e) => r == Err::<NamelessClause, LoweringError>(e),
        },
        pool_distinct(strings_view(old(pool)@)) ==> pool_distinct(strings_view(final(pool)@)),
        final(pool).len() >= old(pool).len(),
        r is Ok ==> clause_handles_below(r->Ok_0@, final(pool).len() as nat),
{
    let mut vars: Vec<Option<String>> = Vec::new();
    assert(vars_view(vars@) =~= Seq::empty());
    let head = match lower_list(&c.head.args, pool, &mut vars) {
        Ok(head) => head,
        Err(e) => {
            return Err(e);
        },
    };
    let (body_pos, body_neg) = match lower_literals(&c.body, table, order, pool, &mut vars, clause) {
        Ok(lists) => lists,
        Err(e) => {
            return Err(e);
        },
    };
    if vars.len() > u32::MAX as usize {
        return Err(LoweringError::TooManyVariables);
    }
    Ok(NamelessClause { vars: vars.len() as u32, head, body_pos, body_neg })
}

/// The functor of each clause's head is among `heads`.
pub proof fn lemma_heads_hold(clauses: Seq<ClauseSpec>, i: int)
    requires
        0 <= i < clauses.len(),
    ensures
        heads(clauses).contains(functor(clauses[i].head)),
    decreases clauses.len(),
{
    let rest = heads(clauses.drop_last());
    let f = functor(clauses.last().head);
    if i < clauses.len() - 1 {
        lemma_heads_hold(clauses.drop_last(), i);
        let g = functor(clauses[i].head);
        assert(clauses.drop_last()[i] == clauses[i]);
        let k = choose|k: int| 0 <= k < rest.len() && rest[k] == g;
        if !rest.contains(f) {
            assert(rest.push(f)[k] == g);
        }
    } else {
        if rest.contains(f) {
        } else {
            assert(rest.push(f)[rest.len() as int] == f);
        }
    }
}

/// The functors that the clauses of the query define, in the order in which they first appear.
fn collect_heads(q: &Query) -> (table: Vec<(String, usize)>)
    ensures
        table_view(table@) == heads(q@.clauses),
{
    let ghost all = q@.clauses;
    let mut table: Vec<(String, usize)> = Vec::new();
    let mut i: usize = 0;
    assert(all.subrange(0, 0) =~= Seq::empty());
    assert(table_view(table@) =~= Seq::empty());
    while i < q.clauses.len()
        invariant
            i <= q.clauses.len(),
            all == q@.clauses,
            table_view(table@) == heads(all.subrange(0, i as int)),
        decreases q.clauses.len() - i,
    {
        let head = &q.clauses[i].head;
        proof {
            assert(all.subrange(0, i + 1).drop_last() =~= all.subrange(0, i as int));
            assert(all.subrange(0, i + 1).last() == q.clauses@[i as int]@);
            assert(functor(all[i as int].head) == (head.name@, head.args.len() as nat));
            lemma_position(table_view(table@), (head.name@, head.args.len() as nat));
        }
        let at = find_functor(&table, &head.name, head.args.len());
        if at == table.len() {
            let ghost before = table_view(table@);
            table.push((head.name.clone(), head.args.len()));
            assert(table_view(table@) =~= before.push((head.name@, head.args.len() as nat)));
        }
        i += 1;
    }
    assert(all.subrange(0, q.clauses.len() as int) =~= all);
    table
}

/// The first clause whose head names a built-in predicate.
fn find_redefined(q: &Query) -> (r: Option<usize>)
    ensures
        match r {
            Some(i) => first_redefined(q@.clauses) == Some(i as nat),
            None => first_redefined(q@.clauses) is None,
        },
{
    let ghost all = q@.clauses;
    let mut i: usize = 0;
    assert(all.subrange(0, 0) =~= Seq::empty());
    while i < q.clauses.len()
        invariant
            i <= q.clauses.len(),
            all == q@.clauses,
            first_redefined(all.subrange(0, i as int)) is None,
        decreases q.clauses.len() - i,
    {
        let head = &q.clauses[i].head;
        proof {
            assert(all.subrange(0, i + 1).drop_last() =~= all.subrange(0, i as int));
            assert(all.subrange(0, i + 1).last() == q.clauses@[i as int]@);
            assert(functor(all[i as int].head) == (head.name@, head.args.len() as nat));
        }
        if builtin_of(&head.name, head.args.len()).is_some() {
            proof {
                lemma_redefined_stays(all, i + 1);
            }
            return Some(i);
        }
        i += 1;
    }
    assert(all.subrange(0, q.clauses.len() as int) =~= all);
    None
}

/// A clause found among the first `j` to name a built-in is the one found among all.
proof fn lemma_redefined_stays(clauses: Seq<ClauseSpec>, j: int)
    requires
        0 <= j <= clauses.len(),
        first_redefined(clauses.subrange(0, j)) is Some,
    ensures
        first_redefined(clauses) == first_redefined(clauses.subrange(0, j)),
    decreases clauses.len() - j,
{
    if j < clauses.len() {
        assert(clauses.subrange(0, j + 1).drop_last() =~= clauses.subrange(0, j));
        lemma_redefined_stays(clauses, j + 1);
    } else {
        assert(clauses.subrange(0, j) =~= clauses);
    }
}

/// The calls between the predicates that the query defines, for the order of the strata.
fn collect_calls(q: &Query, table: &Vec<(String, usize)>) -> (edges: Vec<(usize, usize)>)
    requires
        table_view(table@) == heads(q@.clauses),
    ensures
        edges@.to_set() == calls(q@),
        forall|k: int|
            0 <= k < edges.len() ==> (#[trigger] edges@[k]).0 < table.len() && edges@[k].1
                < table.len(),
{
    let ghost tv = table_view(table@);
    let mut edges: Vec<(usize, usize)> = Vec::new();
    let mut c: usize = 0;
    assert(edges@.to_set() =~= calls_upto(q@, 0, 0));
    while c < q.clauses.len()
        invariant
            c <= q.clauses.len(),
            tv == table_view(table@),
            tv == heads(q@.clauses),
            edges@.to_set() == calls_upto(q@, c as int, 0),
            forall|k: int|
                0 <= k < edges.len() ==> (#[trigger] edges@[k]).0 < table.len() && edges@[k].1
                    < table.len(),
        decreases q.clauses.len() - c,
    {
        let clause = &q.clauses[c];
        proof {
            assert(q@.clauses[c as int] == clause@);
            lemma_heads_hold(q@.clauses, c as int);
            lemma_position(tv, functor(clause@.head));
        }
        let caller = find_functor(table, &clause.head.name, clause.head.args.len());
        let mut l: usize = 0;
        while l < clause.body.len()
            invariant
                l <= clause.body.len(),
                c < q.clauses.len(),
                clause == &q.clauses[c as int],
                q@.clauses[c as int] == clause@,
                tv == table_view(table@),
                tv == heads(q@.clauses),
                caller == position(tv, functor(clause@.head)),
                caller < table.len(),
                edges@.to_set() == calls_upto(q@, c as int, l as int),
                forall|k: int|
                    0 <= k < edges.len() ==> (#[trigger] edges@[k]).0 < table.len() && edges@[k].1
                        < table.len(),
            decreases clause.body.len() - l,
        {
            let p = &clause.body[l].1;
            proof {
                assert(clause@.body[l as int].1 == p@);
                assert(functor(p@) == (p.name@, p.args.len() as nat));
            }
            let callee = find_functor(table, &p.name, p.args.len());
            let ghost before = edges@;
            if callee < table.len() && callee != caller {
                edges.push((callee, caller));
                proof {
                    let e = (callee, caller);
                    assert(call_edge(q@, c as int, l as int) == Some(e));
                    assert forall|x: (usize, usize)|
                        edges@.to_set().contains(x) <==> calls_upto(q@, c as int, l + 1).contains(
                            x,
                        ) by {
                        if calls_upto(q@, c as int, l + 1).contains(x) {
                            let (ci, li) = choose|ci: int, li: int|
                                0 <= ci < q@.clauses.len() && 0 <= li < q@.clauses[ci].body.len()
                                    && (ci < c || (ci == c && li < l + 1)) && #[trigger] call_edge(
                                    q@,
                                    ci,
                                    li,
                                ) == Some(x);
                            if ci == c && li == l {
                                assert(edges@[before.len() as int] == x);
                            } else {
                                assert(calls_upto(q@, c as int, l as int).contains(x));
                                assert(before.to_set().contains(x));
                                let m = choose|m: int| 0 <= m < before.len() && before[m] == x;
                                assert(edges@[m] == x);
                            }
                        }
                        if edges@.contains(x) {
                            let m = choose|m: int| 0 <= m < edges@.len() && edges@[m] == x;
                            if m < before.len() {
                                assert(before[m] == x);
                                assert(before.to_set().contains(x));
                                assert(calls_upto(q@, c as int, l as int).contains(x));
                                let (ci, li) = choose|ci: int, li: int|
                                    0 <= ci < q@.clauses.len() && 0 <= li < q@.clauses[ci].body.len()
                                        && (ci < c || (ci == c && li < l)) && #[trigger] call_edge(
                                        q@,
                                        ci,
                                        li,
                                    ) == Some(x);
                                assert(call_edge(q@, ci, li) == Some(x));
                            } else {
                                assert(call_edge(q@, c as int, l as int) == Some(x));
                            }
                        }
                    }
                    assert(edges@.to_set() =~= calls_upto(q@, c as int, l + 1));
                }
            } else {
                proof {
                    assert(call_edge(q@, c as int, l as int) is None);
                    assert forall|x: (usize, usize)|
                        calls_upto(q@, c as int, l as int).contains(x) <==> calls_upto(
                            q@,
                            c as int,
                            l + 1,
                        ).contains(x) by {
                        if calls_upto(q@, c as int, l + 1).contains(x) {
                            let (ci, li) = choose|ci: int, li: int|
                                0 <= ci < q@.clauses.len() && 0 <= li < q@.clauses[ci].body.len()
                                    && (ci < c || (ci == c && li < l + 1)) && #[trigger] call_edge(
                                    q@,
                                    ci,
                                    li,
                                ) == Some(x);
                            assert(call_edge(q@, ci, li) == Some(x));
                        }
                        if calls_upto(q@, c as int, l as int).contains(x) {
                            let (ci, li) = choose|ci: int, li: int|
                                0 <= ci < q@.clauses.len() && 0 <= li < q@.clauses[ci].body.len()
                                    && (ci < c || (ci == c && li < l)) && #[trigger] call_edge(
                                    q@,
                                    ci,
                                    li,
                                ) == Some(x);
                            assert(call_edge(q@, ci, li) == Some(x));
                        }
                    }
                    assert(edges@.to_set() =~= calls_upto(q@, c as int, l + 1));
                }
            }
            l += 1;
        }
        proof {
            assert forall|x: (usize, usize)|
                calls_upto(q@, c as int, l as int).contains(x) <==> calls_upto(
                    q@,
                    c + 1,
                    0,
                ).contains(x) by {
                if calls_upto(q@, c + 1, 0).contains(x) {
                    let (ci, li) = choose|ci: int, li: int|
                        0 <= ci < q@.clauses.len() && 0 <= li < q@.clauses[ci].body.len() && (ci < c
                            + 1 || (ci == c + 1 && li < 0)) && #[trigger] call_edge(q@, ci, li)
                            == Some(x);
                    assert(call_edge(q@, ci, li) == Some(x));
                }
                if calls_upto(q@, c as int, l as int).contains(x) {
                    let (ci, li) = choose|ci: int, li: int|
                        0 <= ci < q@.clauses.len() && 0 <= li < q@.clauses[ci].body.len() && (ci < c
                            || (ci == c && li < l)) && #[trigger] call_edge(q@, ci, li) == Some(x);
                    assert(call_edge(q@, ci, li) == Some(x));
                }
            }
            assert(edges@.to_set() =~= calls_upto(q@, c + 1, 0));
        }
        c += 1;
    }
    edges
}

/// Once lowering a group fails among the first `j` clauses, it fails in the same way among all.
proof fn lemma_group_error(
    q: QuerySpec,
    names: Names,
    f: nat,
    strings: Seq<Seq<char>>,
    j: nat,
    upto: nat,
)
    requires
        j <= upto,
        lower_group(q, names, f, strings, j) is Err,
    ensures
        lower_group(q, names, f, strings, upto) == lower_group(q, names, f, strings, j),
    decreases upto - j,
{
    if j < upto {
        lemma_group_error(q, names, f, strings, j, (upto - 1) as nat);
    }
}

/// Once lowering the groups fails among the first `j` strata, it fails in the same way among all.
proof fn lemma_groups_error(q: QuerySpec, names: Names, j: nat, upto: nat)
    requires
        j <= upto,
        lower_groups(q, names, j) is Err,
    ensures
        lower_groups(q, names, upto) == lower_groups(q, names, j),
    decreases upto - j,
{
    if j < upto {
        lemma_groups_error(q, names, j, (upto - 1) as nat);
    }
}

/// Lowers the clauses of the functor at `f` in the table, in the order written.
fn lower_functor(
    q: &Query,
    table: &Vec<(String, usize)>,
    order: &Vec<usize>,
    f: usize,
    pool: &mut Vec<String>,
) -> (r: Result<Vec<NamelessClause>, LoweringError>)
    requires
        order.len() + BUILTINS <= u32::MAX,
    ensures
        match lower_group(
            q@,
            names_view(*table, *order),
            f as nat,
            strings_view(old(pool)@),
            q@.clauses.len(),
        ) {
            Ok((m, after)) => r is Ok && crate::nameless::group_view(r->Ok_0) == m && strings_view(
                final(pool)@,
            ) == after,
            Err(e) => r == Err::<Vec<NamelessClause>, LoweringError>(e),
        },
        pool_distinct(strings_view(old(pool)@)) ==> pool_distinct(strings_view(final(pool)@)),
        final(pool).len() >= old(pool).len(),
        r is Ok ==> forall|i: int|
            0 <= i < r->Ok_0.len() ==> clause_handles_below(
                (#[trigger] r->Ok_0@[i])@,
                final(pool).len() as nat,
            ),
{
    let ghost names = names_view(*table, *order);
    let ghost start = strings_view(pool@);
    let mut group: Vec<NamelessClause> = Vec::new();
    let mut i: usize = 0;
    assert(crate::nameless::group_view(group) =~= Seq::empty());
    while i < q.clauses.len()
        invariant
            i <= q.clauses.len(),
            order.len() + BUILTINS <= u32::MAX,
            names == names_view(*table, *order),
            start == strings_view(old(pool)@),
            lower_group(q@, names, f as nat, start, i as nat) == Ok::<
                (Seq<ClauseModel>, Seq<Seq<char>>),
                LoweringError,
            >((crate::nameless::group_view(group), strings_view(pool@))),
            pool_distinct(start) ==> pool_distinct(strings_view(pool@)),
            pool.len() >= old(pool).len(),
            forall|k: int|
                0 <= k < group.len() ==> clause_handles_below(
                    (#[trigger] group@[k])@,
                    pool.len() as nat,
                ),
        decreases q.clauses.len() - i,
    {
        let clause = &q.clauses[i];
        proof {
            assert(q@.clauses[i as int] == clause@);
            assert(functor(clause@.head) == (clause.head.name@, clause.head.args.len() as nat));
        }
        if find_functor(table, &clause.head.name, clause.head.args.len()) == f {
            let ghost before = crate::nameless::group_view(group);
            match lower_rule(clause, table, order, pool, i) {
                Ok(c) => {
                    group.push(c);
                    assert(crate::nameless::group_view(group) =~= before.push(c@));
                },
                Err(e) => {
                    proof {
                        assert(lower_group(q@, names, f as nat, start, (i + 1) as nat) == Err::<
                            (Seq<ClauseModel>, Seq<Seq<char>>),
                            LoweringError,
                        >(e));
                        lemma_group_error(
                            q@,
                            names,
                            f as nat,
                            start,
                            (i + 1) as nat,
                            q@.clauses.len(),
                        );
                    }
                    return Err(e);
                },
            }
        }
        i += 1;
    }
    Ok(group)
}

/// The groups of a list, each as what it stands for.
pub open spec fn groups_view(groups: Seq<Vec<NamelessClause>>) -> Seq<Seq<ClauseModel>> {
    groups.map_values(|g: Vec<NamelessClause>| crate::nameless::group_view(g))
}

/// Whether the order of the strata holds every functor of the table.
pub(crate) fn is_complete(order: &Vec<usize>, n: usize) -> (r: bool)
    ensures
        r == complete(order@, n as nat),
{
    if order.len() != n {
        return false;
    }
    let mut i: usize = 0;
    while i < n
        invariant
            i <= n,
            order.len() == n,
            forall|k: usize| k < i ==> order@.contains(k),
        decreases n - i,
    {
        proof {
            lemma_position(order@, i);
        }
        if find_number(order, i) == order.len() {
            return false;
        }
        i += 1;
    }
    true
}

impl NamelessQuery {
    /// Tries to convert a `Query` to a `NamelessQuery`.
    ///
    /// The result meets the rule on strings: no string stands twice in its pool,
    /// and every handle in it is one of the pool.
    pub fn from_query(q: Query) -> (r: Result<NamelessQuery, LoweringError>)
        ensures
            match lower(q@) {
                Ok(m) => r is Ok && r->Ok_0@ == m && m.meets(Rule::Strings),
                Err(e) => r == Err::<NamelessQuery, LoweringError>(e),
            },
    {
        match find_redefined(&q) {
            Some(clause) => {
                return Err(LoweringError::RedefinedBuiltin { clause });
            },
            None => {},
        }
        let table = collect_heads(&q);
        if table.len() > (u32::MAX - BUILTINS) as usize {
            return Err(LoweringError::TooManyPredicates);
        }
        let edges = collect_calls(&q, &table);
        let order = strata_of(table.len(), &edges);
        if !is_complete(&order, table.len()) {
            return Err(LoweringError::IllegalRecursion);
        }
        let ghost names = names_view(table, order);
        let mut pool: Vec<String> = Vec::new();
        let mut clauses: Vec<Vec<NamelessClause>> = Vec::new();
        assert(strings_view(pool@) =~= Seq::empty());
        assert(groups_view(clauses@) =~= Seq::empty());
        let mut k: usize = 0;
        while k < order.len()
            invariant
                k <= order.len(),
                order.len() + BUILTINS <= u32::MAX,
                names == names_view(table, order),
                first_redefined(q@.clauses) is None,
                table_view(table@) == heads(q@.clauses),
                table.len() + BUILTINS <= u32::MAX,
                order@ == order_of(q@),
                complete(order@, table.len() as nat),
                lower_groups(q@, names, k as nat) == Ok::<
                    (Seq<Seq<ClauseModel>>, Seq<Seq<char>>),
                    LoweringError,
                >((groups_view(clauses@), strings_view(pool@))),
                pool_distinct(strings_view(pool@)),
                forall|g: int, i: int|
                    0 <= g < clauses.len() && 0 <= i < clauses@[g].len() ==> clause_handles_below(
                        (#[trigger] clauses@[g]@[i])@,
                        pool.len() as nat,
                    ),
            decreases order.len() - k,
        {
            let ghost before = groups_view(clauses@);
            match lower_functor(&q, &table, &order, order[k], &mut pool) {
                Ok(group) => {
                    clauses.push(group);
                    assert(groups_view(clauses@) =~= before.push(crate::nameless::group_view(group)));
                },
                Err(e) => {
                    proof {
                        assert(lower_groups(q@, names, (k + 1) as nat) == Err::<
                            (Seq<Seq<ClauseModel>>, Seq<Seq<char>>),
                            LoweringError,
                        >(e));
                        lemma_groups_error(q@, names, (k + 1) as nat, order@.len());
                    }
                    return Err(e);
                },
            }
            k += 1;
        }
        let mut vars: Vec<Option<String>> = Vec::new();
        assert(vars_view(vars@) =~= Seq::empty());
        let goal = match lower_pred(&q.goal, &table, &order, &mut pool, &mut vars, q.clauses.len(), 0) {
            Ok(goal) => goal,
            Err(e) => {
                return Err(e);
            },
        };
        if vars.len() > u32::MAX as usize {
            return Err(LoweringError::TooManyVariables);
        }
        let lowered = NamelessQuery { strings: pool, clauses, goal_vars: vars.len() as u32, goal };
        assert(lowered@.clauses =~= groups_view(clauses@));
        proof {
            assert forall|g: int, i: int|
                0 <= g < lowered@.clauses.len() && 0 <= i < lowered@.clauses[g].len() implies clause_handles_below(
                #[trigger] lowered@.clauses[g][i],
                lowered@.strings.len(),
            ) by {
                assert(lowered@.clauses[g][i] == lowered.clauses@[g]@[i]@);
            }
            lemma_strings_met(lowered@);
        }
        Ok(lowered)
    }
}

/// Why a text is no query that can be solved.
#[derive(Clone, Copy, Debug, PartialEq, Eq, Structural)]
pub enum QueryError {
    /// The text is no query.
    Parse(crate::lang::ParseError),
    /// The query could not be lowered.
    Lowering(LoweringError),
    /// The lowered query breaks a rule.
    Validation(crate::validate::ValidationError),
}

impl NamelessQuery {
    /// Tries to parse a query, convert it to a `NamelessQuery`, and validate it.
    pub fn from_str(src: &str) -> (r: Result<NamelessQuery, QueryError>)
        ensures
            match r {
                Ok(n) => crate::query::read(src@) is Ok && lower(crate::query::read(src@)->Ok_0)
                    == Ok::<QueryModel, LoweringError>(n@) && n@.valid(),
                Err(QueryError::Parse(e)) => crate::query::read(src@) == Err::<
                    QuerySpec,
                    crate::lang::ParseError,
                >(e),
                Err(QueryError::Lowering(e)) => crate::query::read(src@) is Ok && lower(
                    crate::query::read(src@)->Ok_0,
                ) == Err::<QueryModel, LoweringError>(e),
                Err(QueryError::Validation(e)) => crate::query::read(src@) is Ok && lower(
                    crate::query::read(src@)->Ok_0,
                ) is Ok && lower(crate::query::read(src@)->Ok_0)->Ok_0.first_broken() == Some(
                    e.rule(),
                ) && e.sound(),
            },
    {
        let query = match Query::from_str(src) {
            Ok(query) => query,
            Err(e) => {
                return Err(QueryError::Parse(e));
            },
        };
        let lowered = match NamelessQuery::from_query(query) {
            Ok(lowered) => lowered,
            Err(e) => {
                return Err(QueryError::Lowering(e));
            },
        };
        match lowered.validate() {
            Ok(()) => Ok(lowered),
            Err(e) => Err(QueryError::Validation(e)),
        }
    }
}

impl LoweringError {
    /// The message of the error.
    pub open spec fn message(self) -> Seq<char> {
        match self {
            LoweringError::IllegalRecursion => "invalid recursion detected"@,
            LoweringError::NoSuchClause { clause, literal } => "undeclared predicate: literal "@
                + crate::text::decimal(literal as nat) + " of clause "@ + crate::text::decimal(
                clause as nat,
            ),
            LoweringError::RedefinedBuiltin { clause } => "redefining existing predicate: clause "@
                + crate::text::decimal(clause as nat),
            LoweringError::TooManyPredicates => "too many predicates"@,
            LoweringError::TooManyStrings => "too many strings"@,
            LoweringError::TooManyVariables => "too many variables used"@,
        }
    }

    /// The message of the error.
    pub fn to_string(&self) -> (s: String)
        ensures
            s@ == self.message(),
    {
        let mut out: Vec<char> = Vec::new();
        match self {
            LoweringError::IllegalRecursion => {
                crate::text::push_str(&mut out, "invalid recursion detected");
            },
            LoweringError::NoSuchClause { clause, literal } => {
                crate::text::push_str(&mut out, "undeclared predicate: literal ");
                crate::text::push_decimal(&mut out, *literal);
                crate::text::push_str(&mut out, " of clause ");
                crate::text::push_decimal(&mut out, *clause);
            },
            LoweringError::RedefinedBuiltin { clause } => {
                crate::text::push_str(&mut out, "redefining existing predicate: clause ");
                crate::text::push_decimal(&mut out, *clause);
            },
            LoweringError::TooManyPredicates => {
                crate::text::push_str(&mut out, "too many predicates");
            },
            LoweringError::TooManyStrings => {
                crate::text::push_str(&mut out, "too many strings");
            },
            LoweringError::TooManyVariables => {
                crate::text::push_str(&mut out, "too many variables used");
            },
        }
        assert(out@ =~= self.message());
        crate::text::string_of(&out)
    }
}

impl QueryError {
    /// The message of the error: that of the step that failed.
    pub open spec fn message(self) -> Seq<char> {
        match self {
            QueryError::Parse(e) => e.message(),
            QueryError::Lowering(e) => e.message(),
            QueryError::Validation(e) => e.message(),
        }
    }

    /// The message of the error.
    pub fn to_string(&self) -> (s: String)
        ensures
            s@ == self.message(),
    {
        match self {
            QueryError::Parse(e) => e.to_string(),
            QueryError::Lowering(e) => e.to_string(),
            QueryError::Validation(e) => e.to_string(),
        }
    }
}

/// The first place of `x` in `s` is at or before any place where `x` stands.
pub proof fn lemma_position_first<A>(s: Seq<A>, x: A, k: int)
    requires
        0 <= k < s.len(),
        s[k] == x,
    ensures
        position(s, x) <= k,
    decreases s.len(),
{
    if s.first() != x {
        lemma_position_first(s.drop_first(), x, k - 1);
    }
}

/// Whether no literal of the list calls a predicate above `bound`.
pub open spec fn names_within(body: Seq<PredicateModel>, bound: nat) -> bool {
    forall|k: int| 0 <= k < body.len() ==> (#[trigger] body[k]).name <= bound
}

/// Whether every literal of the body that calls a known predicate calls one that
/// gets an index within `bound`.
pub open spec fn resolves_within(body: Seq<(bool, PredicateSpec)>, names: Names, bound: nat) -> bool {
    forall|l: int|
        0 <= l < body.len() && resolve(
            functor((#[trigger] body[l]).1),
            names.table,
            names.order,
        ) is Some ==> resolve(functor(body[l].1), names.table, names.order)->0 <= bound
}

/// The literals of a lowered body call what the literals of the body resolve to.
pub proof fn lemma_body_within(
    body: Seq<(bool, PredicateSpec)>,
    names: Names,
    at: Pools,
    clause: nat,
    bound: nat,
)
    requires
        resolves_within(body, names, bound),
        lower_body(body, names, at, clause) is Ok,
    ensures
        names_within(lower_body(body, names, at, clause)->Ok_0.pos, bound),
        names_within(lower_body(body, names, at, clause)->Ok_0.neg, bound),
    decreases body.len(),
{
    if body.len() > 0 {
        let front = body.drop_last();
        assert forall|l: int|
            0 <= l < front.len() && resolve(
                functor((#[trigger] front[l]).1),
                names.table,
                names.order,
            ) is Some implies resolve(functor(front[l].1), names.table, names.order)->0 <= bound by {
            assert(front[l] == body[l]);
        }
        lemma_body_within(front, names, at, clause, bound);
        let done = lower_body(front, names, at, clause)->Ok_0;
        let whole = lower_body(body, names, at, clause)->Ok_0;
        let l = body.len() - 1;
        assert(body[l] == body.last());
        let p = lower_call(body.last().1, names, done.at, clause, l as nat)->Ok_0.0;
        assert(p.name == resolve(functor(body[l].1), names.table, names.order)->0);
        assert forall|k: int| 0 <= k < whole.pos.len() implies (#[trigger] whole.pos[k]).name
            <= bound by {
            if k < done.pos.len() {
                assert(whole.pos[k] == done.pos[k]);
            }
        }
        assert forall|k: int| 0 <= k < whole.neg.len() implies (#[trigger] whole.neg[k]).name
            <= bound by {
            if k < done.neg.len() {
                assert(whole.neg[k] == done.neg[k]);
            }
        }
    }
}

/// Whether no literal of a clause calls a predicate above `bound`.
pub open spec fn clause_within(c: ClauseModel, bound: nat) -> bool {
    names_within(c.body_pos, bound) && names_within(c.body_neg, bound)
}

/// Whether, among the first `upto` clauses of the query, those of the functor at
/// `f` call only what gets an index within `bound`.
pub open spec fn group_resolves_within(q: QuerySpec, names: Names, f: nat, upto: nat, bound: nat) -> bool {
    forall|ci: int|
        0 <= ci < upto && position(names.table, functor((#[trigger] q.clauses[ci]).head)) == f
            ==> resolves_within(q.clauses[ci].body, names, bound)
}

/// The clauses of a lowered group call what the clauses of its functor resolve to.
pub proof fn lemma_group_within(
    q: QuerySpec,
    names: Names,
    f: nat,
    strings: Seq<Seq<char>>,
    upto: nat,
    bound: nat,
)
    requires
        upto <= q.clauses.len(),
        group_resolves_within(q, names, f, upto, bound),
        lower_group(q, names, f, strings, upto) is Ok,
    ensures
        forall|i: int|
            0 <= i < lower_group(q, names, f, strings, upto)->Ok_0.0.len() ==> clause_within(
                #[trigger] lower_group(q, names, f, strings, upto)->Ok_0.0[i],
                bound,
            ),
    decreases upto,
{
    if upto > 0 {
        lemma_group_within(q, names, f, strings, (upto - 1) as nat, bound);
        let before = lower_group(q, names, f, strings, (upto - 1) as nat)->Ok_0;
        let whole = lower_group(q, names, f, strings, upto)->Ok_0.0;
        let c = q.clauses[upto - 1];
        if position(names.table, functor(c.head)) == f {
            let head = lower_args(c.head.args, Pools { strings: before.1, vars: Seq::empty() })->Ok_0;
            lemma_body_within(c.body, names, head.1, (upto - 1) as nat, bound);
            assert forall|i: int| 0 <= i < whole.len() implies clause_within(
                #[trigger] whole[i],
                bound,
            ) by {
                if i < before.0.len() {
                    assert(whole[i] == before.0[i]);
                }
            }
        }
    }
}

/// Every call in a lowered query goes to a built-in, to a predicate of an earlier
/// group or to the predicate of its own clause: a group with the index `g` holds
/// no call of a predicate above `BUILTINS + g`.
pub proof fn lemma_groups_within(q: QuerySpec, names: Names, upto: nat)
    requires
        upto <= names.order.len(),
        forall|g: int|
            0 <= g < upto ==> #[trigger] group_resolves_within(
                q,
                names,
                names.order[g] as nat,
                q.clauses.len(),
                (BUILTINS + g) as nat,
            ),
        lower_groups(q, names, upto) is Ok,
    ensures
        lower_groups(q, names, upto)->Ok_0.0.len() == upto,
        forall|g: int, i: int|
            0 <= g < upto && 0 <= i < lower_groups(q, names, upto)->Ok_0.0[g].len()
                ==> clause_within(
                #[trigger] lower_groups(q, names, upto)->Ok_0.0[g][i],
                (BUILTINS + g) as nat,
            ),
    decreases upto,
{
    if upto > 0 {
        lemma_groups_within(q, names, (upto - 1) as nat);
        let before = lower_groups(q, names, (upto - 1) as nat)->Ok_0;
        let whole = lower_groups(q, names, upto)->Ok_0.0;
        let last = upto - 1;
        assert(group_resolves_within(
            q,
            names,
            names.order[last] as nat,
            q.clauses.len(),
            (BUILTINS + last) as nat,
        ));
        lemma_group_within(
            q,
            names,
            names.order[last] as nat,
            before.1,
            q.clauses.len(),
            (BUILTINS + last) as nat,
        );
        assert forall|g: int, i: int| 0 <= g < upto && 0 <= i < whole[g].len() implies clause_within(
            #[trigger] whole[g][i],
            (BUILTINS + g) as nat,
        ) by {
            if g < last {
                assert(whole[g] == before.0[g]);
            }
        }
    }
}

/// In the order of the strata of a query, what a clause calls stands at or before
/// the place of the predicate of the clause.
pub proof fn lemma_calls_resolve_within(q: QuerySpec, g: int, ci: int, l: int)
    requires
        heads(q.clauses).len() + BUILTINS <= u32::MAX,
        0 <= g < order_of(q).len(),
        0 <= ci < q.clauses.len(),
        0 <= l < q.clauses[ci].body.len(),
        position(heads(q.clauses), functor(q.clauses[ci].head)) == order_of(q)[g],
        resolve(functor(q.clauses[ci].body[l].1), heads(q.clauses), order_of(q)) is Some,
    ensures
        resolve(functor(q.clauses[ci].body[l].1), heads(q.clauses), order_of(q))->0 <= BUILTINS + g,
{
    let table = heads(q.clauses);
    let order = order_of(q);
    let f = functor(q.clauses[ci].body[l].1);
    if builtin(f) is None {
        lemma_position(table, f);
        let callee = position(table, f);
        let caller = order[g] as nat;
        if callee == caller {
            lemma_position_first(order, callee as usize, g);
        } else {
            assert(call_edge(q, ci, l) == Some((callee as usize, caller as usize)));
            assert(calls(q).contains((callee as usize, caller as usize)));
            lemma_strata_in_order(table.len(), calls(q), callee as usize, caller as usize, g);
            let before = choose|before: int| 0 <= before < g && order[before] == callee as usize;
            lemma_position_first(order, callee as usize, before);
        }
    }
}

/// Lowering puts the predicates in order: every call in a clause of the group `g`
/// of a lowered query goes to a predicate with an index of at most `BUILTINS + g`,
/// which is the clause's own. (A negated call of the clause's own predicate is
/// left for validation to refuse.)
pub proof fn lemma_lowered_in_order(q: QuerySpec, g: int, i: int)
    requires
        lower(q) is Ok,
        0 <= g < lower(q)->Ok_0.clauses.len(),
        0 <= i < lower(q)->Ok_0.clauses[g].len(),
    ensures
        clause_within(lower(q)->Ok_0.clauses[g][i], (BUILTINS + g) as nat),
{
    let table = heads(q.clauses);
    let order = order_of(q);
    let names = Names { table, order };
    assert forall|k: int| 0 <= k < order.len() implies #[trigger] group_resolves_within(
        q,
        names,
        order[k] as nat,
        q.clauses.len(),
        (BUILTINS + k) as nat,
    ) by {
        assert forall|ci: int|
            0 <= ci < q.clauses.len() && position(table, functor((#[trigger] q.clauses[ci]).head))
                == order[k] as nat implies resolves_within(
            q.clauses[ci].body,
            names,
            (BUILTINS + k) as nat,
        ) by {
            assert forall|l: int|
                0 <= l < q.clauses[ci].body.len() && resolve(
                    functor((#[trigger] q.clauses[ci].body[l]).1),
                    table,
                    order,
                ) is Some implies resolve(functor(q.clauses[ci].body[l].1), table, order)->0
                <= BUILTINS + k by {
                lemma_calls_resolve_within(q, k, ci, l);
            }
        }
    }
    lemma_groups_within(q, names, order.len());
}

} // verus!
