//! The order of the strata: the predicates of a query laid out so that each comes
//! after those that it calls.

use topological_sort::TopologicalSort;
use vstd::prelude::*;

verus! {

/// `topological_sort::TopologicalSort`, made known as a type whose inside stays hidden.
#[verifier::external_type_specification]
#[verifier::external_body]
#[verifier::reject_recursive_types(T)]
pub struct ExTopologicalSort<T>(TopologicalSort<T>);

/// The items that a `TopologicalSort` holds.
pub uninterp spec fn sort_nodes(sort: TopologicalSort<usize>) -> Set<usize>;

/// The dependencies that a `TopologicalSort` holds, each as the pair of the item
/// that comes first and the item that depends on it.
pub uninterp spec fn sort_edges(sort: TopologicalSort<usize>) -> Set<(usize, usize)>;

/// The items among `nodes` that no dependency of `edges` makes wait.
pub open spec fn ready_nodes(nodes: Set<usize>, edges: Set<(usize, usize)>) -> Set<usize> {
    Set::new(|x: usize| nodes.contains(x) && forall|p: usize| !edges.contains((p, x)))
}

/// The dependencies of `edges` that do not start from an item of `gone`.
pub open spec fn edges_without(edges: Set<(usize, usize)>, gone: Set<usize>) -> Set<
    (usize, usize),
> {
    Set::new(|e: (usize, usize)| edges.contains(e) && !gone.contains(e.0))
}

/// `TopologicalSort::new`: the new sort holds no item and no dependency.
#[verifier::external_body]
fn sort_new() -> (sort: TopologicalSort<usize>)
    ensures
        sort_nodes(sort) == Set::<usize>::empty(),
        sort_edges(sort) == Set::<(usize, usize)>::empty(),
{
    TopologicalSort::new()
}

/// `TopologicalSort::insert`: the item is added where it was missing, the
/// dependencies stay, and the result says whether it was missing.
#[verifier::external_body]
fn sort_insert(sort: &mut TopologicalSort<usize>, node: usize) -> (added: bool)
    ensures
        sort_nodes(*final(sort)) == sort_nodes(*old(sort)).insert(node),
        sort_edges(*final(sort)) == sort_edges(*old(sort)),
        added == !sort_nodes(*old(sort)).contains(node),
{
    sort.insert(node)
}

/// `TopologicalSort::add_dependency`: both items are added where they were
/// missing, and `succ` now waits for `prec`.
#[verifier::external_body]
fn sort_add_dependency(sort: &mut TopologicalSort<usize>, prec: usize, succ: usize)
    ensures
        sort_nodes(*final(sort)) == sort_nodes(*old(sort)).insert(prec).insert(succ),
        sort_edges(*final(sort)) == sort_edges(*old(sort)).insert((prec, succ)),
{
    sort.add_dependency(prec, succ)
}

/// `TopologicalSort::pop_all`: the items that waited for nothing leave, each once
/// and in no stated order, together with the dependencies that start from them.
#[verifier::external_body]
fn sort_pop_all(sort: &mut TopologicalSort<usize>) -> (ready: Vec<usize>)
    ensures
        ready@.no_duplicates(),
        ready@.to_set() == ready_nodes(sort_nodes(*old(sort)), sort_edges(*old(sort))),
        sort_nodes(*final(sort)) == sort_nodes(*old(sort)).difference(
            ready_nodes(sort_nodes(*old(sort)), sort_edges(*old(sort))),
        ),
        sort_edges(*final(sort)) == edges_without(
            sort_edges(*old(sort)),
            ready_nodes(sort_nodes(*old(sort)), sort_edges(*old(sort))),
        ),
{
    sort.pop_all()
}

/// The numbers below `n`.
pub open spec fn below(n: nat) -> Set<usize> {
    Set::new(|x: usize| x < n)
}

/// The members of `s` below `n`, in ascending order.
pub open spec fn ascending(s: Set<usize>, n: nat) -> Seq<usize>
    decreases n,
{
    if n == 0 {
        Seq::empty()
    } else if s.contains((n - 1) as usize) {
        ascending(s, (n - 1) as nat).push((n - 1) as usize)
    } else {
        ascending(s, (n - 1) as nat)
    }
}

/// The items in layers: first those that wait for nothing, in ascending order,
/// then, with these and their dependencies gone, the layers of what is left; at
/// most `rounds` layers. Items on a cycle, and those that wait for them, are in no
/// layer.
pub open spec fn layers(nodes: Set<usize>, edges: Set<(usize, usize)>, n: nat, rounds: nat) -> Seq<
    usize,
>
    decreases rounds,
{
    let ready = ready_nodes(nodes, edges);
    if rounds == 0 || ready =~= Set::empty() {
        Seq::empty()
    } else {
        ascending(ready, n) + layers(
            nodes.difference(ready),
            edges_without(edges, ready),
            n,
            (rounds - 1) as nat,
        )
    }
}

/// The order of the strata for `n` predicates with the calls `edges`, each the
/// pair of a predicate called and the predicate that calls it: the layers of the
/// numbers below `n`.
pub open spec fn strata(n: nat, edges: Set<(usize, usize)>) -> Seq<usize> {
    layers(below(n), edges, n, n)
}

/// Whether the list holds `x`.
fn list_has(list: &Vec<usize>, x: usize) -> (r: bool)
    ensures
        r == list@.contains(x),
{
    let mut i: usize = 0;
    while i < list.len()
        invariant
            i <= list.len(),
            forall|k: int| 0 <= k < i ==> list@[k] != x,
        decreases list.len() - i,
    {
        if list[i] == x {
            return true;
        }
        i += 1;
    }
    false
}

/// Every item of `ascending(s, n)` is below `n`.
pub proof fn lemma_ascending_below(s: Set<usize>, n: nat)
    requires
        n <= usize::MAX,
    ensures
        forall|k: int| 0 <= k < ascending(s, n).len() ==> (#[trigger] ascending(s, n)[k]) < n,
    decreases n,
{
    if n > 0 {
        lemma_ascending_below(s, (n - 1) as nat);
        let rest = ascending(s, (n - 1) as nat);
        assert forall|k: int| 0 <= k < ascending(s, n).len() implies (#[trigger] ascending(
            s,
            n,
        )[k]) < n by {
            if k < rest.len() {
                assert(ascending(s, n)[k] == rest[k]);
            }
        }
    }
}

/// Every item of the layers is below `n`.
pub proof fn lemma_layers_below(nodes: Set<usize>, edges: Set<(usize, usize)>, n: nat, rounds: nat)
    requires
        n <= usize::MAX,
    ensures
        forall|k: int|
            0 <= k < layers(nodes, edges, n, rounds).len() ==> (#[trigger] layers(
                nodes,
                edges,
                n,
                rounds,
            )[k]) < n,
    decreases rounds,
{
    let ready = ready_nodes(nodes, edges);
    if rounds == 0 || ready =~= Set::empty() {
    } else {
        lemma_ascending_below(ready, n);
        lemma_layers_below(
            nodes.difference(ready),
            edges_without(edges, ready),
            n,
            (rounds - 1) as nat,
        );
        let first = ascending(ready, n);
        let rest = layers(
            nodes.difference(ready),
            edges_without(edges, ready),
            n,
            (rounds - 1) as nat,
        );
        assert forall|k: int| 0 <= k < layers(nodes, edges, n, rounds).len() implies (
        #[trigger] layers(nodes, edges, n, rounds)[k]) < n by {
            if k < first.len() {
                assert(layers(nodes, edges, n, rounds)[k] == first[k]);
            } else {
                assert(layers(nodes, edges, n, rounds)[k] == rest[k - first.len()]);
            }
        }
    }
}

/// Lays out in layers the items that `sort` holds, which are below `n`.
fn drain(sort: &mut TopologicalSort<usize>, n: usize) -> (order: Vec<usize>)
    ensures
        order@ == layers(sort_nodes(*old(sort)), sort_edges(*old(sort)), n as nat, n as nat),
{
    let ghost whole = layers(sort_nodes(*sort), sort_edges(*sort), n as nat, n as nat);
    let mut order: Vec<usize> = Vec::new();
    let mut rounds: usize = n;
    while rounds > 0
        invariant
            whole == layers(sort_nodes(*old(sort)), sort_edges(*old(sort)), n as nat, n as nat),
            whole == order@ + layers(
                sort_nodes(*sort),
                sort_edges(*sort),
                n as nat,
                rounds as nat,
            ),
        decreases rounds,
    {
        let ghost nodes = sort_nodes(*sort);
        let ghost edges = sort_edges(*sort);
        let ghost before = order@;
        let ready = sort_pop_all(sort);
        let ghost set = ready_nodes(nodes, edges);
        if ready.len() == 0 {
            assert(set =~= Set::empty()) by {
                assert forall|x: usize| !set.contains(x) by {
                    if set.contains(x) {
                        assert(ready@.to_set().contains(x));
                        assert(ready@.contains(x));
                    }
                }
            }
            assert(layers(nodes, edges, n as nat, rounds as nat) =~= Seq::empty());
            assert(whole =~= order@);
            return order;
        }
        assert(set.contains(ready@[0])) by {
            assert(ready@.contains(ready@[0]));
            assert(ready@.to_set().contains(ready@[0]));
        }
        assert(!(set =~= Set::empty()));
        let mut x: usize = 0;
        while x < n
            invariant
                x <= n,
                ready@.to_set() == set,
                order@ == before + ascending(set, x as nat),
            decreases n - x,
        {
            if list_has(&ready, x) {
                assert(ready@.to_set().contains(x));
                order.push(x);
                assert(order@ =~= before + ascending(set, (x + 1) as nat));
            } else {
                assert(!ready@.to_set().contains(x));
                assert(order@ =~= before + ascending(set, (x + 1) as nat));
            }
            x += 1;
        }
        rounds -= 1;
        assert(whole =~= order@ + layers(
            sort_nodes(*sort),
            sort_edges(*sort),
            n as nat,
            rounds as nat,
        ));
    }
    assert(layers(sort_nodes(*sort), sort_edges(*sort), n as nat, 0) =~= Seq::empty());
    assert(whole =~= order@);
    order
}

/// The order of the strata for `n` predicates with the given calls, each the pair of
/// a predicate called and the predicate that calls it.
pub fn strata_of(n: usize, edges: &Vec<(usize, usize)>) -> (order: Vec<usize>)
    requires
        forall|k: int| 0 <= k < edges.len() ==> (#[trigger] edges@[k]).0 < n && edges@[k].1 < n,
    ensures
        order@ == strata(n as nat, edges@.to_set()),
{
    let mut sort = sort_new();
    let mut x: usize = 0;
    while x < n
        invariant
            x <= n,
            sort_nodes(sort) == below(x as nat),
            sort_edges(sort) == Set::<(usize, usize)>::empty(),
        decreases n - x,
    {
        let _ = sort_insert(&mut sort, x);
        assert(sort_nodes(sort) =~= below((x + 1) as nat));
        x += 1;
    }
    let mut k: usize = 0;
    while k < edges.len()
        invariant
            k <= edges.len(),
            forall|k: int| 0 <= k < edges.len() ==> (#[trigger] edges@[k]).0 < n && edges@[k].1 < n,
            sort_nodes(sort) == below(n as nat),
            sort_edges(sort) == edges@.subrange(0, k as int).to_set(),
        decreases edges.len() - k,
    {
        let ghost before = edges@.subrange(0, k as int);
        let (prec, succ) = edges[k];
        assert(edges@[k as int].0 < n && edges@[k as int].1 < n);
        sort_add_dependency(&mut sort, prec, succ);
        assert(sort_nodes(sort) =~= below(n as nat));
        assert(edges@.subrange(0, k + 1) =~= before.push(edges@[k as int]));
        let ghost edge = edges@[k as int];
        assert(edge == (prec, succ));
        assert forall|e: (usize, usize)|
            before.push(edge).to_set().contains(e) <==> before.to_set().insert(edge).contains(
                e,
            ) by {
            if before.contains(e) {
                let m = choose|m: int| 0 <= m < before.len() && before[m] == e;
                assert(before.push(edge)[m] == e);
            }
            if e == edge {
                assert(before.push(edge)[before.len() as int] == e);
            }
            if before.push(edge).contains(e) {
                let m = choose|m: int| 0 <= m < before.push(edge).len() && before.push(edge)[m] == e;
                if m < before.len() {
                    assert(before[m] == e);
                }
            }
        }
        assert(sort_edges(sort) =~= edges@.subrange(0, k + 1).to_set());
        k += 1;
    }
    assert(edges@.subrange(0, edges.len() as int) =~= edges@);
    drain(&mut sort, n)
}

/// The members of `s` below `n` are what `ascending(s, n)` holds.
pub proof fn lemma_ascending_holds(s: Set<usize>, n: nat, x: usize)
    requires
        n <= usize::MAX + 1,
    ensures
        ascending(s, n).contains(x) <==> s.contains(x) && x < n,
    decreases n,
{
    if n > 0 {
        lemma_ascending_holds(s, (n - 1) as nat, x);
        let rest = ascending(s, (n - 1) as nat);
        let last = (n - 1) as usize;
        if s.contains(last) {
            if rest.contains(x) {
                let k = choose|k: int| 0 <= k < rest.len() && rest[k] == x;
                assert(rest.push(last)[k] == x);
            }
            if x == last {
                assert(rest.push(last)[rest.len() as int] == x);
            }
            if rest.push(last).contains(x) {
                let k = choose|k: int| 0 <= k < rest.push(last).len() && rest.push(last)[k] == x;
                if k < rest.len() {
                    assert(rest[k] == x);
                }
            }
        }
    }
}

/// In the layers, an item stands behind every item that it waits for: where
/// `succ` waits for `prec` and stands in the layers, `prec` stands there before it.
pub proof fn lemma_layers_in_order(
    nodes: Set<usize>,
    edges: Set<(usize, usize)>,
    n: nat,
    rounds: nat,
    prec: usize,
    succ: usize,
    at: int,
)
    requires
        n <= usize::MAX + 1,
        edges.contains((prec, succ)),
        nodes.contains(prec),
        prec < n,
        0 <= at < layers(nodes, edges, n, rounds).len(),
        layers(nodes, edges, n, rounds)[at] == succ,
    ensures
        exists|before: int| 0 <= before < at && layers(nodes, edges, n, rounds)[before] == prec,
    decreases rounds,
{
    let ready = ready_nodes(nodes, edges);
    let all = layers(nodes, edges, n, rounds);
    let first = ascending(ready, n);
    let left = nodes.difference(ready);
    let kept = edges_without(edges, ready);
    let rest = layers(left, kept, n, (rounds - 1) as nat);
    assert(rounds > 0 && !(ready =~= Set::empty()));
    assert(all == first + rest);
    assert(!ready.contains(succ));
    lemma_ascending_holds(ready, n, succ);
    if at < first.len() {
        assert(first[at] == succ);
        assert(first.contains(succ));
    }
    assert(rest[at - first.len()] == succ);
    if ready.contains(prec) {
        lemma_ascending_holds(ready, n, prec);
        let before = choose|k: int| 0 <= k < first.len() && first[k] == prec;
        assert(all[before] == prec);
    } else {
        assert(kept.contains((prec, succ)));
        lemma_layers_in_order(left, kept, n, (rounds - 1) as nat, prec, succ, at - first.len());
        let inner = choose|k: int| 0 <= k < at - first.len() && rest[k] == prec;
        assert(all[first.len() + inner] == prec);
    }
}

/// In the order of the strata, a predicate stands behind every predicate that it
/// calls: where `caller` calls `callee` and stands in the order, `callee` stands
/// there before it.
pub proof fn lemma_strata_in_order(
    n: nat,
    edges: Set<(usize, usize)>,
    callee: usize,
    caller: usize,
    at: int,
)
    requires
        n <= usize::MAX + 1,
        edges.contains((callee, caller)),
        callee < n,
        0 <= at < strata(n, edges).len(),
        strata(n, edges)[at] == caller,
    ensures
        exists|before: int| 0 <= before < at && strata(n, edges)[before] == callee,
{
    lemma_layers_in_order(below(n), edges, n, n, callee, caller, at);
}

} // verus!
