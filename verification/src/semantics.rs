//! What a query means: the relation of every predicate as a least fixpoint, taken
//! stratum by stratum, and the set of answers to the goal.
//!
//! A value is a string, seen as its characters; a tuple is a sequence of values; a
//! relation is a set of tuples. Relations are indexed as predicates are.

use crate::nameless::{ClauseModel, NamelessValue, PredicateModel, QueryModel, BUILTINS};
use crate::validate::{literal_meets, Rule};
use vstd::prelude::*;

verus! {

/// The value of an argument under an assignment of the clause's variables. (A
/// metavariable has no value: a query that is solved holds none.)
pub open spec fn value_of(v: NamelessValue, strings: Seq<Seq<char>>, env: Seq<Seq<char>>) -> Seq<
    char,
> {
    match v {
        NamelessValue::Str(h) => strings[h as int],
        NamelessValue::Var(n) => env[n as int],
        NamelessValue::MetaVar(_) => Seq::empty(),
    }
}

/// The tuple that an argument list denotes under an assignment.
pub open spec fn instantiate(
    args: Seq<NamelessValue>,
    strings: Seq<Seq<char>>,
    env: Seq<Seq<char>>,
) -> Seq<Seq<char>> {
    Seq::new(args.len(), |j: int| value_of(args[j], strings, env))
}

/// Whether a literal holds under an assignment: the relation of its predicate
/// holds the tuple that its arguments denote. (The relation of `=/2` holds the
/// pairs of a value with itself: see `equal_pairs`.)
pub open spec fn literal_holds(
    p: PredicateModel,
    strings: Seq<Seq<char>>,
    env: Seq<Seq<char>>,
    rels: Seq<Set<Seq<Seq<char>>>>,
) -> bool {
    rels[p.name as int].contains(instantiate(p.args, strings, env))
}

/// Whether an assignment satisfies the body of a clause: it gives every variable a
/// value, every positive literal holds and no negated one does.
pub open spec fn body_holds(
    c: ClauseModel,
    strings: Seq<Seq<char>>,
    env: Seq<Seq<char>>,
    rels: Seq<Set<Seq<Seq<char>>>>,
) -> bool {
    &&& env.len() == c.vars
    &&& forall|i: int|
        0 <= i < c.body_pos.len() ==> literal_holds(#[trigger] c.body_pos[i], strings, env, rels)
    &&& forall|i: int|
        0 <= i < c.body_neg.len() ==> !literal_holds(#[trigger] c.body_neg[i], strings, env, rels)
}

/// Whether `env` is an assignment under which the clause yields the tuple `t`.
pub open spec fn yields(
    c: ClauseModel,
    strings: Seq<Seq<char>>,
    env: Seq<Seq<char>>,
    rels: Seq<Set<Seq<Seq<char>>>>,
    t: Seq<Seq<char>>,
) -> bool {
    body_holds(c, strings, env, rels) && instantiate(c.head, strings, env) == t
}

/// Whether the clause yields the tuple `t` from the relations `rels` under some assignment.
pub open spec fn derives(
    c: ClauseModel,
    strings: Seq<Seq<char>>,
    rels: Seq<Set<Seq<Seq<char>>>>,
    t: Seq<Seq<char>>,
) -> bool {
    exists|env: Seq<Seq<char>>| yields(c, strings, env, rels, t)
}

/// The tuples that some clause of the group yields from `rels` in one step.
pub open spec fn step(
    group: Seq<ClauseModel>,
    strings: Seq<Seq<char>>,
    rels: Seq<Set<Seq<Seq<char>>>>,
) -> Set<Seq<Seq<char>>> {
    Set::new(
        |t: Seq<Seq<char>>|
            exists|k: int| 0 <= k < group.len() && derives(#[trigger] group[k], strings, rels, t),
    )
}

/// The relation of a group after `n` steps from the empty relation, over the
/// finished relations `lower` of the predicates below it.
pub open spec fn iterate(
    group: Seq<ClauseModel>,
    strings: Seq<Seq<char>>,
    lower: Seq<Set<Seq<Seq<char>>>>,
    n: nat,
) -> Set<Seq<Seq<char>>>
    decreases n,
{
    if n == 0 {
        Set::empty()
    } else {
        step(group, strings, lower.push(iterate(group, strings, lower, (n - 1) as nat)))
    }
}

/// The least relation closed under the clauses of a group: what some number of steps reaches.
pub open spec fn least_model(
    group: Seq<ClauseModel>,
    strings: Seq<Seq<char>>,
    lower: Seq<Set<Seq<Seq<char>>>>,
) -> Set<Seq<Seq<char>>> {
    Set::new(|t: Seq<Seq<char>>| exists|n: nat| iterate(group, strings, lower, n).contains(t))
}

/// The relations of the built-ins (`base`) and of the first `k` groups of the query.
pub open spec fn relations(q: QueryModel, base: Seq<Set<Seq<Seq<char>>>>, k: nat) -> Seq<
    Set<Seq<Seq<char>>>,
>
    decreases k,
{
    if k == 0 {
        base
    } else {
        let lower = relations(q, base, (k - 1) as nat);
        lower.push(least_model(q.clauses[k - 1], q.strings, lower))
    }
}

/// The answers to the query over the facts `base`: the assignments of the goal's
/// variables under which the goal holds, once every group has its relation.
pub open spec fn answers(q: QueryModel, base: Seq<Set<Seq<Seq<char>>>>) -> Set<Seq<Seq<char>>> {
    Set::new(
        |t: Seq<Seq<char>>|
            derives(q.goal_clause(), q.strings, relations(q, base, q.clauses.len()), t),
    )
}

/// The relation of `atom/1` that a list of atoms stands for.
pub open spec fn unary(items: Seq<String>) -> Set<Seq<Seq<char>>> {
    Set::new(
        |t: Seq<Seq<char>>| exists|i: int| 0 <= i < items.len() && t == seq![(#[trigger] items[i])@],
    )
}

/// The relation that a list of triples stands for.
pub open spec fn ternary(items: Seq<(String, String, String)>) -> Set<Seq<Seq<char>>> {
    Set::new(
        |t: Seq<Seq<char>>|
            exists|i: int|
                0 <= i < items.len() && t == seq![
                    (#[trigger] items[i]).0@,
                    items[i].1@,
                    items[i].2@,
                ],
    )
}

/// The relation of `blob/4` that a list of quadruples stands for.
pub open spec fn quaternary(items: Seq<(String, String, String, String)>) -> Set<Seq<Seq<char>>> {
    Set::new(
        |t: Seq<Seq<char>>|
            exists|i: int|
                0 <= i < items.len() && t == seq![
                    (#[trigger] items[i]).0@,
                    items[i].1@,
                    items[i].2@,
                    items[i].3@,
                ],
    )
}

/// The relations of the five stored built-ins, in the order of their indices.
pub open spec fn stored_relations(
    atoms: Seq<String>,
    names: Seq<(String, String, String)>,
    edges: Seq<(String, String, String)>,
    tags: Seq<(String, String, String)>,
    blobs: Seq<(String, String, String, String)>,
) -> Seq<Set<Seq<Seq<char>>>> {
    seq![unary(atoms), ternary(names), ternary(edges), ternary(tags), quaternary(blobs)]
}

/// The values that stand in some tuple of the relation.
pub open spec fn relation_values(rel: Set<Seq<Seq<char>>>) -> Set<Seq<char>> {
    Set::new(
        |v: Seq<char>|
            exists|t: Seq<Seq<char>>, m: int| rel.contains(t) && 0 <= m < t.len() && t[m] == v,
    )
}

/// The values that stand in some tuple of one of the first `n` relations.
pub open spec fn relations_values(rels: Seq<Set<Seq<Seq<char>>>>, n: int) -> Set<Seq<char>> {
    Set::new(|v: Seq<char>| exists|r: int| 0 <= r < n && relation_values(#[trigger] rels[r]).contains(v))
}

/// The values that a query speaks of over given relations: the strings of its
/// pool and the values in the relations.
pub open spec fn values_in(strings: Seq<Seq<char>>, lower: Seq<Set<Seq<Seq<char>>>>) -> Set<
    Seq<char>,
> {
    strings.to_set().union(relations_values(lower, lower.len() as int))
}

/// The relation of `=/2` over the values `domain`: the pairs of a value with itself.
pub open spec fn equal_pairs(domain: Set<Seq<char>>) -> Set<Seq<Seq<char>>> {
    Set::new(|t: Seq<Seq<char>>| t.len() == 2 && t[0] == t[1] && domain.contains(t[0]))
}

/// The relations of the built-ins for a query with the pool `strings`, in the
/// order of their indices: the five stored ones, then that of `=/2`, which equates
/// every string of the pool and every value of the stored facts with itself.
pub open spec fn base_relations(
    strings: Seq<Seq<char>>,
    atoms: Seq<String>,
    names: Seq<(String, String, String)>,
    edges: Seq<(String, String, String)>,
    tags: Seq<(String, String, String)>,
    blobs: Seq<(String, String, String, String)>,
) -> Seq<Set<Seq<Seq<char>>>> {
    let stored = stored_relations(atoms, names, edges, tags, blobs);
    stored.push(equal_pairs(values_in(strings, stored)))
}

/// Whether the clause may stand in a group at index `caller`: its positive calls
/// stay at or below `caller`, its negated calls strictly below.
pub open spec fn stratified_at(c: ClauseModel, caller: nat) -> bool {
    &&& forall|i: int| 0 <= i < c.body_pos.len() ==> (#[trigger] c.body_pos[i]).name <= caller
    &&& forall|i: int| 0 <= i < c.body_neg.len() ==> (#[trigger] c.body_neg[i]).name < caller
}

/// Whether every clause of the group may stand at index `caller`.
pub open spec fn group_stratified(group: Seq<ClauseModel>, caller: nat) -> bool {
    forall|k: int| 0 <= k < group.len() ==> stratified_at(#[trigger] group[k], caller)
}

/// A literal that does not call the predicate at index `lower.len()` holds
/// whatever relation stands there.
pub proof fn lemma_literal_below(
    p: PredicateModel,
    strings: Seq<Seq<char>>,
    env: Seq<Seq<char>>,
    lower: Seq<Set<Seq<Seq<char>>>>,
    a: Set<Seq<Seq<char>>>,
    b: Set<Seq<Seq<char>>>,
)
    requires
        p.name < lower.len(),
    ensures
        literal_holds(p, strings, env, lower.push(a)) == literal_holds(
            p,
            strings,
            env,
            lower.push(b),
        ),
{
    assert(lower.push(a)[p.name as int] == lower.push(b)[p.name as int]);
}

/// A positive literal keeps holding when the relation at index `lower.len()` grows.
pub proof fn lemma_literal_grows(
    p: PredicateModel,
    strings: Seq<Seq<char>>,
    env: Seq<Seq<char>>,
    lower: Seq<Set<Seq<Seq<char>>>>,
    a: Set<Seq<Seq<char>>>,
    b: Set<Seq<Seq<char>>>,
)
    requires
        p.name <= lower.len(),
        a.subset_of(b),
        literal_holds(p, strings, env, lower.push(a)),
    ensures
        literal_holds(p, strings, env, lower.push(b)),
{
    if p.name < lower.len() {
        lemma_literal_below(p, strings, env, lower, a, b);
    }
}

/// One step is monotone in the relation of the group itself.
pub proof fn lemma_step_monotone(
    group: Seq<ClauseModel>,
    strings: Seq<Seq<char>>,
    lower: Seq<Set<Seq<Seq<char>>>>,
    a: Set<Seq<Seq<char>>>,
    b: Set<Seq<Seq<char>>>,
)
    requires
        group_stratified(group, lower.len()),
        a.subset_of(b),
    ensures
        step(group, strings, lower.push(a)).subset_of(step(group, strings, lower.push(b))),
{
    assert forall|t: Seq<Seq<char>>| step(group, strings, lower.push(a)).contains(t) implies step(
        group,
        strings,
        lower.push(b),
    ).contains(t) by {
        let k = choose|k: int|
            0 <= k < group.len() && derives(#[trigger] group[k], strings, lower.push(a), t);
        let c = group[k];
        let env = choose|env: Seq<Seq<char>>| yields(c, strings, env, lower.push(a), t);
        assert(stratified_at(c, lower.len()));
        assert forall|i: int| 0 <= i < c.body_pos.len() implies literal_holds(
            #[trigger] c.body_pos[i],
            strings,
            env,
            lower.push(b),
        ) by {
            lemma_literal_grows(c.body_pos[i], strings, env, lower, a, b);
        }
        assert forall|i: int| 0 <= i < c.body_neg.len() implies !literal_holds(
            #[trigger] c.body_neg[i],
            strings,
            env,
            lower.push(b),
        ) by {
            lemma_literal_below(c.body_neg[i], strings, env, lower, a, b);
        }
        assert(yields(c, strings, env, lower.push(b), t));
    }
}

/// Each further step reaches at least what the steps before it reached.
pub proof fn lemma_iterate_grows(
    group: Seq<ClauseModel>,
    strings: Seq<Seq<char>>,
    lower: Seq<Set<Seq<Seq<char>>>>,
    n: nat,
)
    requires
        group_stratified(group, lower.len()),
    ensures
        iterate(group, strings, lower, n).subset_of(iterate(group, strings, lower, n + 1)),
    decreases n,
{
    if n > 0 {
        lemma_iterate_grows(group, strings, lower, (n - 1) as nat);
        lemma_step_monotone(
            group,
            strings,
            lower,
            iterate(group, strings, lower, (n - 1) as nat),
            iterate(group, strings, lower, n),
        );
    }
}

/// A relation that one step does not lead out of holds whatever any number of steps reaches.
pub proof fn lemma_closed_holds_iterates(
    group: Seq<ClauseModel>,
    strings: Seq<Seq<char>>,
    lower: Seq<Set<Seq<Seq<char>>>>,
    closed: Set<Seq<Seq<char>>>,
    n: nat,
)
    requires
        group_stratified(group, lower.len()),
        step(group, strings, lower.push(closed)).subset_of(closed),
    ensures
        iterate(group, strings, lower, n).subset_of(closed),
    decreases n,
{
    if n > 0 {
        lemma_closed_holds_iterates(group, strings, lower, closed, (n - 1) as nat);
        lemma_step_monotone(
            group,
            strings,
            lower,
            iterate(group, strings, lower, (n - 1) as nat),
            closed,
        );
    }
}

/// A relation that the steps reach and that one step does not lead out of is the least model.
pub proof fn lemma_least_model_reached(
    group: Seq<ClauseModel>,
    strings: Seq<Seq<char>>,
    lower: Seq<Set<Seq<Seq<char>>>>,
    closed: Set<Seq<Seq<char>>>,
    n: nat,
)
    requires
        group_stratified(group, lower.len()),
        step(group, strings, lower.push(closed)).subset_of(closed),
        closed.subset_of(iterate(group, strings, lower, n)),
    ensures
        closed == least_model(group, strings, lower),
{
    assert forall|t: Seq<Seq<char>>| least_model(group, strings, lower).contains(t) implies closed.contains(
        t,
    ) by {
        let m = choose|m: nat| iterate(group, strings, lower, m).contains(t);
        lemma_closed_holds_iterates(group, strings, lower, closed, m);
    }
    assert(closed =~= least_model(group, strings, lower));
}

/// Whether two literal lists hold the same literals, in whatever order and number.
pub open spec fn same_literals(a: Seq<PredicateModel>, b: Seq<PredicateModel>) -> bool {
    forall|p: PredicateModel| a.contains(p) <==> b.contains(p)
}

/// Whether two clauses differ at most in the order of their body literals.
pub open spec fn clause_alike(a: ClauseModel, b: ClauseModel) -> bool {
    &&& a.vars == b.vars
    &&& a.head == b.head
    &&& same_literals(a.body_pos, b.body_pos)
    &&& same_literals(a.body_neg, b.body_neg)
}

/// Whether the group holds a clause like `c`.
pub open spec fn has_like(c: ClauseModel, group: Seq<ClauseModel>) -> bool {
    exists|j: int| 0 <= j < group.len() && clause_alike(c, #[trigger] group[j])
}

/// Whether each clause of `a` has its like in `b`.
pub open spec fn covers(a: Seq<ClauseModel>, b: Seq<ClauseModel>) -> bool {
    forall|i: int| 0 <= i < a.len() ==> has_like(#[trigger] a[i], b)
}

/// Whether each clause of either group has its like in the other.
pub open spec fn group_alike(a: Seq<ClauseModel>, b: Seq<ClauseModel>) -> bool {
    covers(a, b) && covers(b, a)
}

/// Whether two queries differ at most in the order of the clauses within their
/// groups and of the literals within their bodies.
pub open spec fn query_alike(a: QueryModel, b: QueryModel) -> bool {
    &&& a.strings == b.strings
    &&& a.goal == b.goal
    &&& a.goal_vars == b.goal_vars
    &&& a.clauses.len() == b.clauses.len()
    &&& forall|g: int| 0 <= g < a.clauses.len() ==> group_alike(#[trigger] a.clauses[g], b.clauses[g])
}

/// A list that holds the literals of another satisfies what the other satisfies.
proof fn lemma_body_one_way(
    a: ClauseModel,
    b: ClauseModel,
    strings: Seq<Seq<char>>,
    env: Seq<Seq<char>>,
    rels: Seq<Set<Seq<Seq<char>>>>,
)
    requires
        clause_alike(a, b),
        body_holds(a, strings, env, rels),
    ensures
        body_holds(b, strings, env, rels),
{
    assert forall|j: int| 0 <= j < b.body_pos.len() implies literal_holds(
        #[trigger] b.body_pos[j],
        strings,
        env,
        rels,
    ) by {
        assert(b.body_pos.contains(b.body_pos[j]));
        assert(a.body_pos.contains(b.body_pos[j]));
        let i = choose|i: int| 0 <= i < a.body_pos.len() && a.body_pos[i] == b.body_pos[j];
        assert(literal_holds(a.body_pos[i], strings, env, rels));
    }
    assert forall|j: int| 0 <= j < b.body_neg.len() implies !literal_holds(
        #[trigger] b.body_neg[j],
        strings,
        env,
        rels,
    ) by {
        assert(b.body_neg.contains(b.body_neg[j]));
        assert(a.body_neg.contains(b.body_neg[j]));
        let i = choose|i: int| 0 <= i < a.body_neg.len() && a.body_neg[i] == b.body_neg[j];
        assert(!literal_holds(a.body_neg[i], strings, env, rels));
    }
}

/// A group that has the like of each clause of another yields in one step what the other yields.
proof fn lemma_covers_step(
    a: Seq<ClauseModel>,
    b: Seq<ClauseModel>,
    strings: Seq<Seq<char>>,
    rels: Seq<Set<Seq<Seq<char>>>>,
)
    requires
        covers(a, b),
    ensures
        step(a, strings, rels).subset_of(step(b, strings, rels)),
{
    assert forall|t: Seq<Seq<char>>| step(a, strings, rels).contains(t) implies step(
        b,
        strings,
        rels,
    ).contains(t) by {
        let i = choose|i: int| 0 <= i < a.len() && derives(#[trigger] a[i], strings, rels, t);
        let env = choose|env: Seq<Seq<char>>| yields(a[i], strings, env, rels, t);
        assert(has_like(a[i], b));
        let j = choose|j: int| 0 <= j < b.len() && clause_alike(a[i], #[trigger] b[j]);
        lemma_body_one_way(a[i], b[j], strings, env, rels);
        assert(yields(b[j], strings, env, rels, t));
        assert(derives(b[j], strings, rels, t));
    }
}

/// Groups that are alike yield the same tuples in one step.
proof fn lemma_alike_step(
    a: Seq<ClauseModel>,
    b: Seq<ClauseModel>,
    strings: Seq<Seq<char>>,
    rels: Seq<Set<Seq<Seq<char>>>>,
)
    requires
        group_alike(a, b),
    ensures
        step(a, strings, rels) == step(b, strings, rels),
{
    lemma_covers_step(a, b, strings, rels);
    lemma_covers_step(b, a, strings, rels);
    assert(step(a, strings, rels) =~= step(b, strings, rels));
}

/// Groups that are alike reach the same relation in any number of steps.
proof fn lemma_alike_iterate(
    a: Seq<ClauseModel>,
    b: Seq<ClauseModel>,
    strings: Seq<Seq<char>>,
    lower: Seq<Set<Seq<Seq<char>>>>,
    n: nat,
)
    requires
        group_alike(a, b),
    ensures
        iterate(a, strings, lower, n) == iterate(b, strings, lower, n),
    decreases n,
{
    if n > 0 {
        lemma_alike_iterate(a, b, strings, lower, (n - 1) as nat);
        lemma_alike_step(a, b, strings, lower.push(iterate(a, strings, lower, (n - 1) as nat)));
    }
}

/// Queries that are alike give every predicate the same relation.
proof fn lemma_alike_relations(a: QueryModel, b: QueryModel, base: Seq<Set<Seq<Seq<char>>>>, k: nat)
    requires
        query_alike(a, b),
        k <= a.clauses.len(),
    ensures
        relations(a, base, k) == relations(b, base, k),
    decreases k,
{
    if k > 0 {
        lemma_alike_relations(a, b, base, (k - 1) as nat);
        let lower = relations(a, base, (k - 1) as nat);
        let ga = a.clauses[k - 1];
        let gb = b.clauses[k - 1];
        assert(group_alike(ga, gb));
        let x = least_model(ga, a.strings, lower);
        let y = least_model(gb, a.strings, lower);
        assert forall|t: Seq<Seq<char>>| x.contains(t) == y.contains(t) by {
            if x.contains(t) {
                let n = choose|n: nat| iterate(ga, a.strings, lower, n).contains(t);
                lemma_alike_iterate(ga, gb, a.strings, lower, n);
                assert(iterate(gb, a.strings, lower, n).contains(t));
            }
            if y.contains(t) {
                let n = choose|n: nat| iterate(gb, a.strings, lower, n).contains(t);
                lemma_alike_iterate(ga, gb, a.strings, lower, n);
                assert(iterate(ga, a.strings, lower, n).contains(t));
            }
        }
        assert(x =~= y);
    }
}

/// The answers do not depend on the order of the clauses within a group, nor on
/// the order of the literals within a body: two queries that differ in nothing
/// else have the same answers over the same facts.
pub proof fn lemma_order_is_immaterial(a: QueryModel, b: QueryModel, base: Seq<Set<Seq<Seq<char>>>>)
    requires
        query_alike(a, b),
    ensures
        answers(a, base) == answers(b, base),
{
    lemma_alike_relations(a, b, base, a.clauses.len());
    assert(a.goal_clause() == b.goal_clause());
    assert(answers(a, base) =~= answers(b, base));
}

/// A list with its items in another order holds the same literals.
pub proof fn lemma_reordered_literals(a: Seq<PredicateModel>, b: Seq<PredicateModel>)
    requires
        a.to_multiset() == b.to_multiset(),
    ensures
        same_literals(a, b),
{
    a.to_multiset_ensures();
    b.to_multiset_ensures();
    assert forall|p: PredicateModel| a.contains(p) <==> b.contains(p) by {
        assert(a.contains(p) <==> a.to_multiset().count(p) > 0);
        assert(b.contains(p) <==> b.to_multiset().count(p) > 0);
    }
}

/// A group with its clauses in another order is alike to the group.
pub proof fn lemma_reordered_group(a: Seq<ClauseModel>, b: Seq<ClauseModel>)
    requires
        a.to_multiset() == b.to_multiset(),
    ensures
        group_alike(a, b),
{
    a.to_multiset_ensures();
    b.to_multiset_ensures();
    assert forall|i: int| 0 <= i < a.len() implies has_like(#[trigger] a[i], b) by {
        assert(a.contains(a[i]));
        assert(a.to_multiset().count(a[i]) > 0);
        assert(b.contains(a[i]));
        let j = choose|j: int| 0 <= j < b.len() && b[j] == a[i];
        assert(clause_alike(a[i], b[j]));
    }
    assert forall|j: int| 0 <= j < b.len() implies has_like(#[trigger] b[j], a) by {
        assert(b.contains(b[j]));
        assert(b.to_multiset().count(b[j]) > 0);
        assert(a.contains(b[j]));
        let i = choose|i: int| 0 <= i < a.len() && a[i] == b[j];
        assert(clause_alike(b[j], a[i]));
    }
}

/// Whether no clause of the query has a negated literal.
pub open spec fn negation_free(q: QueryModel) -> bool {
    forall|g: int, i: int|
        0 <= g < q.clauses.len() && 0 <= i < q.clauses[g].len() ==> (
        #[trigger] q.clauses[g][i]).body_neg.len() == 0
}

/// Whether each relation of `a` is within the relation of `b` at the same index.
pub open spec fn relations_within(
    a: Seq<Set<Seq<Seq<char>>>>,
    b: Seq<Set<Seq<Seq<char>>>>,
) -> bool {
    &&& a.len() == b.len()
    &&& forall|i: int| 0 <= i < a.len() ==> (#[trigger] a[i]).subset_of(b[i])
}

/// Whether the group has no negated literal and calls nothing above `caller`.
pub open spec fn group_positive(group: Seq<ClauseModel>, caller: nat) -> bool {
    forall|k: int|
        0 <= k < group.len() ==> (#[trigger] group[k]).body_neg.len() == 0 && stratified_at(
            group[k],
            caller,
        )
}

/// One step of a group without negation yields no less from larger relations.
proof fn lemma_positive_step(
    group: Seq<ClauseModel>,
    strings: Seq<Seq<char>>,
    a: Seq<Set<Seq<Seq<char>>>>,
    b: Seq<Set<Seq<Seq<char>>>>,
)
    requires
        a.len() > 0,
        group_positive(group, (a.len() - 1) as nat),
        relations_within(a, b),
    ensures
        step(group, strings, a).subset_of(step(group, strings, b)),
{
    assert forall|t: Seq<Seq<char>>| step(group, strings, a).contains(t) implies step(
        group,
        strings,
        b,
    ).contains(t) by {
        let k = choose|k: int| 0 <= k < group.len() && derives(#[trigger] group[k], strings, a, t);
        let c = group[k];
        let env = choose|env: Seq<Seq<char>>| yields(c, strings, env, a, t);
        assert forall|i: int| 0 <= i < c.body_pos.len() implies literal_holds(
            #[trigger] c.body_pos[i],
            strings,
            env,
            b,
        ) by {
            assert(literal_holds(c.body_pos[i], strings, env, a));
            assert(a[c.body_pos[i].name as int].subset_of(b[c.body_pos[i].name as int]));
        }
        assert(yields(c, strings, env, b, t));
    }
}

/// Any number of steps of a group without negation reaches no less over larger relations.
proof fn lemma_positive_iterate(
    group: Seq<ClauseModel>,
    strings: Seq<Seq<char>>,
    a: Seq<Set<Seq<Seq<char>>>>,
    b: Seq<Set<Seq<Seq<char>>>>,
    n: nat,
)
    requires
        group_positive(group, a.len()),
        relations_within(a, b),
    ensures
        iterate(group, strings, a, n).subset_of(iterate(group, strings, b, n)),
    decreases n,
{
    if n > 0 {
        lemma_positive_iterate(group, strings, a, b, (n - 1) as nat);
        let x = iterate(group, strings, a, (n - 1) as nat);
        let y = iterate(group, strings, b, (n - 1) as nat);
        assert(relations_within(a.push(x), b.push(y))) by {
            assert forall|i: int| 0 <= i < a.push(x).len() implies (#[trigger] a.push(
                x,
            )[i]).subset_of(b.push(y)[i]) by {
                if i < a.len() {
                    assert(a[i].subset_of(b[i]));
                }
            }
        }
        lemma_positive_step(group, strings, a.push(x), b.push(y));
    }
}

/// Every group of a valid query calls nothing above itself.
proof fn lemma_valid_stratified(q: QueryModel, g: int)
    requires
        q.valid(),
        0 <= g < q.clauses.len(),
    ensures
        group_stratified(q.clauses[g], (BUILTINS + g) as nat),
{
    let caller = (BUILTINS + g) as nat;
    assert(q.meets(Rule::Stratification));
    assert forall|k: int| 0 <= k < q.clauses[g].len() implies stratified_at(
        #[trigger] q.clauses[g][k],
        caller,
    ) by {
        let c = q.clauses[g][k];
        assert(q.clause_at_meets(Rule::Stratification, g, k));
        assert forall|i: int| 0 <= i < c.body_pos.len() implies (#[trigger] c.body_pos[i]).name
            <= caller by {
            assert(literal_meets(Rule::Stratification, q, caller, c.vars, c.body_pos[i], false));
        }
        assert forall|i: int| 0 <= i < c.body_neg.len() implies (#[trigger] c.body_neg[i]).name
            < caller by {
            assert(literal_meets(Rule::Stratification, q, caller, c.vars, c.body_neg[i], true));
        }
    }
}

/// The relations of a valid query without negation are no smaller over more facts.
proof fn lemma_positive_relations(
    q: QueryModel,
    small: Seq<Set<Seq<Seq<char>>>>,
    large: Seq<Set<Seq<Seq<char>>>>,
    k: nat,
)
    requires
        q.valid(),
        negation_free(q),
        small.len() == BUILTINS,
        relations_within(small, large),
        k <= q.clauses.len(),
    ensures
        relations(q, small, k).len() == BUILTINS + k,
        relations_within(relations(q, small, k), relations(q, large, k)),
    decreases k,
{
    if k > 0 {
        lemma_positive_relations(q, small, large, (k - 1) as nat);
        let a = relations(q, small, (k - 1) as nat);
        let b = relations(q, large, (k - 1) as nat);
        let group = q.clauses[k - 1];
        lemma_valid_stratified(q, k - 1);
        assert(group_positive(group, a.len()));
        let x = least_model(group, q.strings, a);
        let y = least_model(group, q.strings, b);
        assert forall|t: Seq<Seq<char>>| x.contains(t) implies y.contains(t) by {
            let n = choose|n: nat| iterate(group, q.strings, a, n).contains(t);
            lemma_positive_iterate(group, q.strings, a, b, n);
        }
        assert forall|i: int| 0 <= i < a.push(x).len() implies (#[trigger] a.push(x)[i]).subset_of(
            b.push(y)[i],
        ) by {
            if i < a.len() {
                assert(a[i].subset_of(b[i]));
            }
        }
    }
}

/// More facts give no smaller relations of the built-ins: where each stored
/// relation of the one set of facts is within that of the other, so is the
/// relation of `=/2`, which equates the values of the facts.
pub proof fn lemma_more_facts(
    strings: Seq<Seq<char>>,
    small: Seq<Set<Seq<Seq<char>>>>,
    large: Seq<Set<Seq<Seq<char>>>>,
)
    requires
        relations_within(small, large),
    ensures
        relations_within(
            small.push(equal_pairs(values_in(strings, small))),
            large.push(equal_pairs(values_in(strings, large))),
        ),
{
    assert forall|v: Seq<char>| values_in(strings, small).contains(v) implies values_in(
        strings,
        large,
    ).contains(v) by {
        if !strings.to_set().contains(v) {
            let r = choose|r: int|
                0 <= r < small.len() && relation_values(#[trigger] small[r]).contains(v);
            let (t, m) = choose|t: Seq<Seq<char>>, m: int|
                #[trigger] small[r].contains(t) && 0 <= m < t.len() && #[trigger] t[m] == v;
            assert(small[r].subset_of(large[r]));
            assert(large[r].contains(t));
            assert(relation_values(large[r]).contains(v));
        }
    }
    assert(equal_pairs(values_in(strings, small)).subset_of(
        equal_pairs(values_in(strings, large)),
    ));
}

/// A valid query without negation has no fewer answers over more facts: where
/// each relation of `small` is within that of `large`, every answer over `small`
/// is an answer over `large`.
pub proof fn lemma_answers_monotone(
    q: QueryModel,
    small: Seq<Set<Seq<Seq<char>>>>,
    large: Seq<Set<Seq<Seq<char>>>>,
)
    requires
        q.valid(),
        negation_free(q),
        small.len() == BUILTINS,
        relations_within(small, large),
    ensures
        answers(q, small).subset_of(answers(q, large)),
{
    lemma_positive_relations(q, small, large, q.clauses.len());
    let a = relations(q, small, q.clauses.len());
    let b = relations(q, large, q.clauses.len());
    let c = q.goal_clause();
    assert(q.meets(Rule::Existence));
    assert(q.meets(Rule::Stratification));
    assert(c.body_pos[0] == q.goal);
    assert(literal_meets(Rule::Existence, q, q.goal_index(), c.vars, c.body_pos[0], false));
    assert forall|t: Seq<Seq<char>>| answers(q, small).contains(t) implies answers(
        q,
        large,
    ).contains(t) by {
        let env = choose|env: Seq<Seq<char>>| yields(c, q.strings, env, a, t);
        assert(literal_holds(c.body_pos[0], q.strings, env, a));
        assert(a[q.goal.name as int].subset_of(b[q.goal.name as int]));
        assert(literal_holds(c.body_pos[0], q.strings, env, b));
        assert(yields(c, q.strings, env, b, t));
    }
}

/// The tuples of `k` values out of `values`.
pub open spec fn tuples_over(values: Set<Seq<char>>, k: nat) -> Set<Seq<Seq<char>>> {
    Set::new(
        |t: Seq<Seq<char>>|
            t.len() == k && forall|j: int| 0 <= j < k ==> values.contains(#[trigger] t[j]),
    )
}

/// The tuples of `ts`, each with the value `v` behind it.
pub open spec fn with_last(ts: Set<Seq<Seq<char>>>, v: Seq<char>) -> Set<Seq<Seq<char>>> {
    ts.map(|t: Seq<Seq<char>>| t.push(v))
}

/// There are finitely many tuples of `k` values out of finitely many values.
pub proof fn lemma_tuples_finite(values: Set<Seq<char>>, k: nat)
    requires
        values.finite(),
    ensures
        tuples_over(values, k).finite(),
    decreases k,
{
    if k == 0 {
        assert(tuples_over(values, 0) =~= Set::empty().insert(Seq::<Seq<char>>::empty())) by {
            assert forall|t: Seq<Seq<char>>| tuples_over(values, 0).contains(t) implies t
                == Seq::<Seq<char>>::empty() by {
                assert(t =~= Seq::<Seq<char>>::empty());
            }
        }
    } else {
        let shorter = tuples_over(values, (k - 1) as nat);
        lemma_tuples_finite(values, (k - 1) as nat);
        let grow = |v: Seq<char>| with_last(shorter, v);
        let parts = values.map(grow);
        values.lemma_map_finite(grow);
        assert forall|part: Set<Seq<Seq<char>>>| parts.contains(part) implies #[trigger] part.finite() by {
            let v = choose|v: Seq<char>| values.contains(v) && grow(v) == part;
            shorter.lemma_map_finite(|t: Seq<Seq<char>>| t.push(v));
        }
        parts.lemma_flatten_finite();
        assert forall|t: Seq<Seq<char>>| tuples_over(values, k).contains(t) implies parts.flatten().contains(
            t,
        ) by {
            let v = t.last();
            let front = t.drop_last();
            assert(t =~= front.push(v));
            assert forall|j: int| 0 <= j < k - 1 implies values.contains(#[trigger] front[j]) by {
                assert(front[j] == t[j]);
            }
            assert(shorter.contains(front));
            assert(with_last(shorter, v).contains(t));
            assert(values.contains(t[k - 1]));
            assert(parts.contains(grow(v)));
        }
        vstd::set_lib::lemma_set_subset_finite(parts.flatten(), tuples_over(values, k));
    }
}

/// Finitely many tuples hold finitely many values.
pub proof fn lemma_relation_values_finite(rel: Set<Seq<Seq<char>>>)
    requires
        rel.finite(),
    ensures
        relation_values(rel).finite(),
{
    let held = |t: Seq<Seq<char>>| t.to_set();
    let parts = rel.map(held);
    rel.lemma_map_finite(held);
    assert forall|part: Set<Seq<char>>| parts.contains(part) implies #[trigger] part.finite() by {
        let t = choose|t: Seq<Seq<char>>| rel.contains(t) && held(t) == part;
        vstd::seq_lib::seq_to_set_is_finite(t);
    }
    parts.lemma_flatten_finite();
    assert forall|v: Seq<char>| relation_values(rel).contains(v) implies parts.flatten().contains(
        v,
    ) by {
        let (t, m) = choose|t: Seq<Seq<char>>, m: int|
            rel.contains(t) && 0 <= m < t.len() && t[m] == v;
        assert(t.contains(v));
        assert(parts.contains(held(t)));
    }
    vstd::set_lib::lemma_set_subset_finite(parts.flatten(), relation_values(rel));
}

/// Finitely many relations of finitely many tuples hold finitely many values.
pub proof fn lemma_relations_values_finite(rels: Seq<Set<Seq<Seq<char>>>>, n: int)
    requires
        0 <= n <= rels.len(),
        forall|r: int| 0 <= r < rels.len() ==> (#[trigger] rels[r]).finite(),
    ensures
        relations_values(rels, n).finite(),
    decreases n,
{
    if n == 0 {
        assert(relations_values(rels, 0) =~= Set::empty());
    } else {
        lemma_relations_values_finite(rels, n - 1);
        lemma_relation_values_finite(rels[n - 1]);
        assert(relations_values(rels, n) =~= relations_values(rels, n - 1).union(
            relation_values(rels[n - 1]),
        ));
    }
}

/// A group over finitely many strings and finite relations can put finitely many
/// values into its tuples.
pub proof fn lemma_values_finite(strings: Seq<Seq<char>>, lower: Seq<Set<Seq<Seq<char>>>>)
    requires
        forall|r: int| 0 <= r < lower.len() ==> (#[trigger] lower[r]).finite(),
    ensures
        values_in(strings, lower).finite(),
{
    vstd::seq_lib::seq_to_set_is_finite(strings);
    lemma_relations_values_finite(lower, lower.len() as int);
}

} // verus!
