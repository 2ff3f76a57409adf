//! A naive bottom-up solver for queries over facts held in memory.
//!
//! Each group of clauses is taken to its least fixpoint in turn; a negated literal
//! is only ever tested against a relation that is finished.

use crate::nameless::{
    group_view, strings_view, ClauseModel, NamelessClause, NamelessPredicate, NamelessQuery,
    relation_index, NamelessValue, QueryModel, BUILTINS,
};
use crate::semantics::{
    answers, base_relations, body_holds, derives, equal_pairs, group_stratified, instantiate,
    iterate, stored_relations,
    least_model, lemma_iterate_grows, lemma_least_model_reached, lemma_step_monotone,
    lemma_tuples_finite, lemma_values_finite, literal_holds, quaternary, relation_values,
    relations, relations_values, step, stratified_at, ternary, tuples_over, unary, value_of,
    values_in, yields,
};
use crate::validate::{
    args_ground, args_meet, binds, bound_in, clause_ground, clause_meets, literal_meets, Rule,
};
use vstd::prelude::*;

verus! {

/// A list of tuples, each as the values it holds.
pub open spec fn list_view(list: Seq<Vec<String>>) -> Seq<Seq<Seq<char>>> {
    list.map_values(|t: Vec<String>| strings_view(t@))
}

/// The relations that lists of tuples stand for.
pub open spec fn rels_view(rels: Seq<Vec<Vec<String>>>) -> Seq<Set<Seq<Seq<char>>>> {
    rels.map_values(|l: Vec<Vec<String>>| list_view(l@).to_set())
}

/// A partial assignment, each bound variable as its value.
pub open spec fn env_view(env: Seq<Option<String>>) -> Seq<Option<Seq<char>>> {
    env.map_values(
        |o: Option<String>|
            match o {
                Some(s) => Some(s@),
                None => None,
            },
    )
}

/// Whether the assignment `total` gives every variable that `partial` binds the
/// value it has there.
pub open spec fn extends(total: Seq<Seq<char>>, partial: Seq<Option<Seq<char>>>) -> bool {
    &&& total.len() == partial.len()
    &&& forall|v: int| 0 <= v < partial.len() && partial[v] is Some ==> partial[v]->0 == total[v]
}

/// Whether two tuples hold the same values.
fn tuple_eq(a: &Vec<String>, b: &Vec<String>) -> (r: bool)
    ensures
        r == (strings_view(a@) == strings_view(b@)),
{
    if a.len() != b.len() {
        assert(strings_view(a@).len() != strings_view(b@).len());
        return false;
    }
    let mut j: usize = 0;
    while j < a.len()
        invariant
            j <= a.len(),
            a.len() == b.len(),
            forall|k: int| 0 <= k < j ==> a@[k]@ == b@[k]@,
        decreases a.len() - j,
    {
        if a[j] != b[j] {
            assert(strings_view(a@)[j as int] != strings_view(b@)[j as int]);
            return false;
        }
        j += 1;
    }
    assert(strings_view(a@) =~= strings_view(b@));
    true
}

/// Whether the list holds a tuple with the values of `t`.
fn contains_tuple(list: &Vec<Vec<String>>, t: &Vec<String>) -> (r: bool)
    ensures
        r == list_view(list@).contains(strings_view(t@)),
{
    let mut k: usize = 0;
    while k < list.len()
        invariant
            k <= list.len(),
            forall|m: int| 0 <= m < k ==> list_view(list@)[m] != strings_view(t@),
        decreases list.len() - k,
    {
        if tuple_eq(&list[k], t) {
            assert(list_view(list@)[k as int] == strings_view(t@));
            return true;
        }
        k += 1;
    }
    false
}

/// A copy of a partial assignment.
fn copy_env(env: &Vec<Option<String>>) -> (r: Vec<Option<String>>)
    ensures
        r.len() == env.len(),
        env_view(r@) == env_view(env@),
{
    let mut out: Vec<Option<String>> = Vec::new();
    let mut v: usize = 0;
    while v < env.len()
        invariant
            v <= env.len(),
            out.len() == v,
            forall|w: int| 0 <= w < v ==> env_view(out@)[w] == env_view(env@)[w],
        decreases env.len() - v,
    {
        let slot = match &env[v] {
            Some(s) => Some(s.clone()),
            None => None,
        };
        out.push(slot);
        v += 1;
    }
    assert(env_view(out@) =~= env_view(env@));
    out
}

/// Whether the assignment agrees with the tuple `t` on the first `j` arguments.
pub open spec fn agrees(
    args: Seq<NamelessValue>,
    strings: Seq<Seq<char>>,
    e: Seq<Seq<char>>,
    t: Seq<Seq<char>>,
    j: int,
) -> bool {
    forall|k: int| 0 <= k < j ==> value_of(#[trigger] args[k], strings, e) == t[k]
}

/// Matches an argument list against a tuple, starting from a partial assignment.
///
/// The result binds the variables of the list besides those bound before, and the
/// assignments that extend it are those that extend `env` and under which the list
/// denotes `t`. It is `None` when there are none.
fn unify(
    args: &Vec<NamelessValue>,
    t: &Vec<String>,
    env: &Vec<Option<String>>,
    strings: &Vec<String>,
) -> (r: Option<Vec<Option<String>>>)
    requires
        args_meet(Rule::Strings, args@, env.len() as nat, strings.len() as nat),
        args_meet(Rule::Variables, args@, env.len() as nat, strings.len() as nat),
        args_ground(args@),
    ensures
        match r {
            Some(bound) => {
                &&& bound.len() == env.len()
                &&& forall|e: Seq<Seq<char>>| #[trigger]
                    extends(e, env_view(bound@)) <==> extends(e, env_view(env@)) && instantiate(
                        args@,
                        strings_view(strings@),
                        e,
                    ) == strings_view(t@)
                &&& forall|v: int|
                    0 <= v < env.len() && env_view(env@)[v] is Some ==> env_view(bound@)[v] is Some
                &&& forall|j: int|
                    0 <= j < args.len() ==> match #[trigger] args@[j] {
                        NamelessValue::Var(n) => env_view(bound@)[n as int] is Some,
                        _ => true,
                    }
            },
            None => forall|e: Seq<Seq<char>>| #[trigger]
                extends(e, env_view(env@)) ==> instantiate(args@, strings_view(strings@), e)
                    != strings_view(t@),
        },
{
    let ghost sv = strings_view(strings@);
    let ghost tv = strings_view(t@);
    let ghost start = env_view(env@);
    if args.len() != t.len() {
        assert forall|e: Seq<Seq<char>>| #[trigger] extends(e, start) implies instantiate(
            args@,
            sv,
            e,
        ) != tv by {
            assert(instantiate(args@, sv, e).len() != tv.len());
        }
        return None;
    }
    let mut cur = copy_env(env);
    let mut j: usize = 0;
    while j < args.len()
        invariant
            j <= args.len(),
            args.len() == t.len(),
            cur.len() == env.len(),
            sv == strings_view(strings@),
            tv == strings_view(t@),
            start == env_view(env@),
            args_meet(Rule::Strings, args@, env.len() as nat, strings.len() as nat),
            args_meet(Rule::Variables, args@, env.len() as nat, strings.len() as nat),
            args_ground(args@),
            forall|e: Seq<Seq<char>>| #[trigger]
                extends(e, env_view(cur@)) <==> extends(e, start) && agrees(
                    args@,
                    sv,
                    e,
                    tv,
                    j as int,
                ),
            forall|v: int| 0 <= v < env.len() && start[v] is Some ==> env_view(cur@)[v] is Some,
            forall|k: int|
                0 <= k < j ==> match #[trigger] args@[k] {
                    NamelessValue::Var(n) => env_view(cur@)[n as int] is Some,
                    _ => true,
                },
        decreases args.len() - j,
    {
        let ghost before = env_view(cur@);
        match args[j] {
            NamelessValue::Str(h) => {
                if strings[h as usize] != t[j] {
                    assert forall|e: Seq<Seq<char>>| #[trigger] extends(e, start) implies instantiate(
                        args@,
                        sv,
                        e,
                    ) != tv by {
                        assert(instantiate(args@, sv, e)[j as int] == sv[h as int]);
                        assert(tv[j as int] == t@[j as int]@);
                    }
                    return None;
                }
                assert(sv[h as int] == tv[j as int]);
                assert forall|e: Seq<Seq<char>>| #[trigger]
                    extends(e, before) <==> extends(e, start) && agrees(
                        args@,
                        sv,
                        e,
                        tv,
                        j + 1,
                    ) by {
                    if extends(e, start) && agrees(args@, sv, e, tv, j + 1) {
                        assert(agrees(args@, sv, e, tv, j as int));
                    }
                    if extends(e, before) {
                        assert(agrees(args@, sv, e, tv, j as int));
                        assert(agrees(args@, sv, e, tv, j + 1));
                    }
                }
            },
            NamelessValue::Var(n) => {
                let known: bool = cur[n as usize].is_some();
                if known {
                    let same: bool = match &cur[n as usize] {
                        Some(s) => *s == t[j],
                        None => false,
                    };
                    assert(before[n as int] is Some);
                    assert(same == (before[n as int]->0 == tv[j as int]));
                    if !same {
                        assert forall|e: Seq<Seq<char>>| #[trigger] extends(e, start) implies instantiate(
                            args@,
                            sv,
                            e,
                        ) != tv by {
                            if instantiate(args@, sv, e) == tv {
                                assert forall|k: int| 0 <= k < j implies value_of(
                                    #[trigger] args@[k],
                                    sv,
                                    e,
                                ) == tv[k] by {
                                    assert(instantiate(args@, sv, e)[k] == tv[k]);
                                }
                                assert(agrees(args@, sv, e, tv, j as int));
                                assert(extends(e, before));
                                assert(instantiate(args@, sv, e)[j as int] == e[n as int]);
                            }
                        }
                        return None;
                    }
                    assert forall|e: Seq<Seq<char>>| #[trigger]
                        extends(e, before) <==> extends(e, start) && agrees(
                            args@,
                            sv,
                            e,
                            tv,
                            j + 1,
                        ) by {
                        if extends(e, start) && agrees(args@, sv, e, tv, j + 1) {
                            assert(agrees(args@, sv, e, tv, j as int));
                        }
                        if extends(e, before) {
                            assert(agrees(args@, sv, e, tv, j as int));
                            assert(agrees(args@, sv, e, tv, j + 1));
                        }
                    }
                } else {
                    cur.set(n as usize, Some(t[j].clone()));
                    let ghost after = env_view(cur@);
                    assert(after =~= before.update(n as int, Some(tv[j as int])));
                    assert forall|e: Seq<Seq<char>>| #[trigger]
                        extends(e, after) <==> extends(e, start) && agrees(
                            args@,
                            sv,
                            e,
                            tv,
                            j + 1,
                        ) by {
                        if extends(e, start) && agrees(args@, sv, e, tv, j + 1) {
                            assert(agrees(args@, sv, e, tv, j as int));
                            assert(extends(e, before));
                            assert(value_of(args@[j as int], sv, e) == tv[j as int]);
                            assert(extends(e, after));
                        }
                        if extends(e, after) {
                            assert(after[n as int] is Some);
                            assert(e[n as int] == tv[j as int]);
                            assert forall|v: int|
                                0 <= v < before.len() && before[v] is Some implies before[v]->0
                                == e[v] by {
                                assert(after[v] == before[v]);
                            }
                            assert(extends(e, before));
                            assert(agrees(args@, sv, e, tv, j as int));
                            assert(agrees(args@, sv, e, tv, j + 1));
                        }
                    }
                }
            },
            NamelessValue::MetaVar(_) => {
                assert(false);
            },
        }
        j += 1;
    }
    assert forall|e: Seq<Seq<char>>| #[trigger]
        extends(e, env_view(cur@)) <==> extends(e, start) && instantiate(args@, sv, e) == tv by {
        if agrees(args@, sv, e, tv, args.len() as int) {
            assert(instantiate(args@, sv, e) =~= tv);
        }
        if instantiate(args@, sv, e) == tv {
            assert forall|k: int| 0 <= k < args.len() implies value_of(
                #[trigger] args@[k],
                sv,
                e,
            ) == tv[k] by {
                assert(instantiate(args@, sv, e)[k] == tv[k]);
            }
        }
    }
    Some(cur)
}

/// The assignment that a partial assignment with every variable bound amounts to.
fn total_env(env: &Vec<Option<String>>) -> (r: Vec<String>)
    requires
        forall|v: int| 0 <= v < env.len() ==> env_view(env@)[v] is Some,
    ensures
        extends(strings_view(r@), env_view(env@)),
        forall|e: Seq<Seq<char>>| #[trigger] extends(e, env_view(env@)) ==> e == strings_view(r@),
{
    let mut out: Vec<String> = Vec::new();
    let mut v: usize = 0;
    while v < env.len()
        invariant
            v <= env.len(),
            out.len() == v,
            forall|v: int| 0 <= v < env.len() ==> env_view(env@)[v] is Some,
            forall|w: int| 0 <= w < v ==> Some(strings_view(out@)[w]) == env_view(env@)[w],
        decreases env.len() - v,
    {
        assert(env_view(env@)[v as int] is Some);
        match &env[v] {
            Some(s) => {
                out.push(s.clone());
            },
            None => {
                assert(false);
            },
        }
        v += 1;
    }
    assert forall|e: Seq<Seq<char>>| #[trigger] extends(e, env_view(env@)) implies e
        == strings_view(out@) by {
        assert(e =~= strings_view(out@));
    }
    out
}

/// The tuple that an argument list denotes under an assignment.
fn instantiate_args(args: &Vec<NamelessValue>, strings: &Vec<String>, env: &Vec<String>) -> (r: Vec<
    String,
>)
    requires
        args_meet(Rule::Strings, args@, env.len() as nat, strings.len() as nat),
        args_meet(Rule::Variables, args@, env.len() as nat, strings.len() as nat),
        args_ground(args@),
    ensures
        r.len() == args.len(),
        strings_view(r@) == instantiate(args@, strings_view(strings@), strings_view(env@)),
{
    let mut out: Vec<String> = Vec::new();
    let mut j: usize = 0;
    while j < args.len()
        invariant
            j <= args.len(),
            out.len() == j,
            args_meet(Rule::Strings, args@, env.len() as nat, strings.len() as nat),
            args_meet(Rule::Variables, args@, env.len() as nat, strings.len() as nat),
            args_ground(args@),
            forall|k: int|
                0 <= k < j ==> out@[k]@ == value_of(
                    args@[k],
                    strings_view(strings@),
                    strings_view(env@),
                ),
        decreases args.len() - j,
    {
        match args[j] {
            NamelessValue::Str(h) => {
                out.push(strings[h as usize].clone());
            },
            NamelessValue::Var(n) => {
                out.push(env[n as usize].clone());
            },
            NamelessValue::MetaVar(_) => {
                assert(false);
            },
        }
        j += 1;
    }
    assert(strings_view(out@) =~= instantiate(
        args@,
        strings_view(strings@),
        strings_view(env@),
    ));
    out
}

/// Whether a literal holds under an assignment.
fn holds(
    p: &NamelessPredicate,
    strings: &Vec<String>,
    env: &Vec<String>,
    rels: &Vec<Vec<Vec<String>>>,
) -> (r: bool)
    requires
        args_meet(Rule::Strings, p@.args, env.len() as nat, strings.len() as nat),
        args_meet(Rule::Variables, p@.args, env.len() as nat, strings.len() as nat),
        args_ground(p@.args),
        p@.name < rels.len(),
    ensures
        r == literal_holds(p@, strings_view(strings@), strings_view(env@), rels_view(rels@)),
{
    let at = relation_index(p.name) as usize;
    let t = instantiate_args(&p.args, strings, env);
    let found = contains_tuple(&rels[at], &t);
    assert(rels_view(rels@)[at as int] == list_view(rels@[at as int]@).to_set());
    found
}

/// Whether the literals that the search does not go through hold under `e`: no
/// negated literal does.
pub open spec fn rest_holds(
    c: ClauseModel,
    strings: Seq<Seq<char>>,
    e: Seq<Seq<char>>,
    rels: Seq<Set<Seq<Seq<char>>>>,
) -> bool {
    forall|i: int|
        0 <= i < c.body_neg.len() ==> !literal_holds(#[trigger] c.body_neg[i], strings, e, rels)
}

/// Whether the positive literals before `i` hold under `e`.
pub open spec fn stored_hold(
    c: ClauseModel,
    strings: Seq<Seq<char>>,
    e: Seq<Seq<char>>,
    rels: Seq<Set<Seq<Seq<char>>>>,
    i: int,
) -> bool {
    forall|j: int|
        0 <= j < i ==> literal_holds(#[trigger] c.body_pos[j], strings, e, rels)
}

/// Whether a clause can be searched over relations up to the index `caller`:
/// its handles and variables are in range, it holds no metavariable, its calls
/// respect the strata, and every variable is bound by a positive literal.
pub open spec fn searchable(q: QueryModel, c: ClauseModel, caller: nat) -> bool {
    &&& clause_meets(Rule::Strings, q, caller, None, c)
    &&& clause_meets(Rule::Variables, q, caller, None, c)
    &&& clause_meets(Rule::Stratification, q, caller, None, c)
    &&& clause_meets(Rule::Positivity, q, caller, None, c)
    &&& clause_ground(c)
}

/// Tests the literals that the search does not go through.
fn check_rest(
    q: &NamelessQuery,
    c: &NamelessClause,
    env: &Vec<String>,
    rels: &Vec<Vec<Vec<String>>>,
) -> (r: bool)
    requires
        rels.len() >= 1,
        searchable(q@, c@, (rels.len() - 1) as nat),
        env.len() == c.vars,
    ensures
        r == rest_holds(c@, q@.strings, strings_view(env@), rels_view(rels@)),
{
    let ghost sv = q@.strings;
    let ghost ev = strings_view(env@);
    let ghost rv = rels_view(rels@);
    let ghost caller = (rels.len() - 1) as nat;
    let mut i: usize = 0;
    while i < c.body_neg.len()
        invariant
            i <= c.body_neg.len(),
            rels.len() >= 1,
            caller == rels.len() - 1,
            searchable(q@, c@, caller),
            env.len() == c.vars,
            sv == q@.strings,
            ev == strings_view(env@),
            rv == rels_view(rels@),
            forall|k: int| 0 <= k < i ==> !literal_holds(#[trigger] c@.body_neg[k], sv, ev, rv),
        decreases c.body_neg.len() - i,
    {
        assert(c@.body_neg[i as int] == c.body_neg@[i as int]@);
        assert(literal_meets(
            Rule::Strings,
            q@,
            caller,
            c@.vars,
            c@.body_neg[i as int],
            true,
        ));
        assert(literal_meets(
            Rule::Variables,
            q@,
            caller,
            c@.vars,
            c@.body_neg[i as int],
            true,
        ));
        assert(literal_meets(
            Rule::Stratification,
            q@,
            caller,
            c@.vars,
            c@.body_neg[i as int],
            true,
        ));
        if holds(&c.body_neg[i], &q.strings, env, rels) {
            return false;
        }
        i += 1;
    }
    true
}

/// Whether the variables that the positive literals before `i` bind are bound in `env`.
pub open spec fn binds_upto(c: ClauseModel, env: Seq<Option<Seq<char>>>, i: int) -> bool {
    forall|j: int, v: u32|
        0 <= j < i && v < c.vars && #[trigger] binds(c.body_pos[j], v) ==> env[v as int] is Some
}

/// Whether the tuples of `delta` are pairwise distinct and none of them is in `known`.
pub open spec fn fresh(delta: Seq<Seq<Seq<char>>>, known: Set<Seq<Seq<char>>>) -> bool {
    &&& delta.no_duplicates()
    &&& forall|k: int| 0 <= k < delta.len() ==> !known.contains(#[trigger] delta[k])
}

/// Searches the assignments that extend `env` and satisfy the body of `c` from its
/// positive literal `i` on, and adds to `delta` the head tuples that they yield and
/// that neither `delta` nor the last relation of `rels` holds yet.
fn make_envs(
    q: &NamelessQuery,
    c: &NamelessClause,
    i: usize,
    env: Vec<Option<String>>,
    rels: &Vec<Vec<Vec<String>>>,
    delta: &mut Vec<Vec<String>>,
)
    requires
        rels.len() >= 1,
        searchable(q@, c@, (rels.len() - 1) as nat),
        i <= c.body_pos.len(),
        env.len() == c.vars,
        binds_upto(c@, env_view(env@), i as int),
        forall|e: Seq<Seq<char>>| #[trigger]
            extends(e, env_view(env@)) ==> stored_hold(
                c@,
                q@.strings,
                e,
                rels_view(rels@),
                i as int,
            ),
        fresh(list_view(old(delta)@), rels_view(rels@)[rels.len() - 1]),
    ensures
        fresh(list_view(final(delta)@), rels_view(rels@)[rels.len() - 1]),
        forall|t: Seq<Seq<char>>|
            list_view(old(delta)@).contains(t) ==> list_view(final(delta)@).contains(t),
        forall|t: Seq<Seq<char>>|
            list_view(final(delta)@).contains(t) ==> list_view(old(delta)@).contains(t) || derives(
                c@,
                q@.strings,
                rels_view(rels@),
                t,
            ),
        forall|e: Seq<Seq<char>>| #[trigger]
            extends(e, env_view(env@)) && body_holds(c@, q@.strings, e, rels_view(rels@))
                ==> rels_view(rels@)[rels.len() - 1].contains(instantiate(c@.head, q@.strings, e))
                || list_view(final(delta)@).contains(instantiate(c@.head, q@.strings, e)),
    decreases c.body_pos.len() - i,
{
    let ghost sv = q@.strings;
    let ghost rv = rels_view(rels@);
    let ghost caller = (rels.len() - 1) as nat;
    let ghost known = rv[rels.len() - 1];
    let ghost envv = env_view(env@);
    let ghost before = list_view(delta@);
    if i == c.body_pos.len() {
        assert forall|w: int| 0 <= w < env.len() implies envv[w] is Some by {
            let v = w as u32;
            assert(bound_in(c@, v));
            let j = choose|j: int| 0 <= j < c@.body_pos.len() && binds(#[trigger] c@.body_pos[j], v);
            assert(binds(c@.body_pos[j], v));
        }
        let total = total_env(&env);
        let ghost tv = strings_view(total@);
        if check_rest(q, c, &total, rels) {
            assert(stored_hold(c@, sv, tv, rv, i as int));
            assert(body_holds(c@, sv, tv, rv));
            let t = instantiate_args(&c.head, &q.strings, &total);
            let ghost head = strings_view(t@);
            assert(yields(c@, sv, tv, rv, head));
            assert(rv[rels.len() - 1] == list_view(rels@[rels.len() - 1]@).to_set());
            if !contains_tuple(&rels[rels.len() - 1], &t) && !contains_tuple(delta, &t) {
                delta.push(t);
                assert(list_view(delta@) =~= before.push(head));
                assert forall|x: Seq<Seq<char>>| before.contains(x) implies list_view(
                    delta@,
                ).contains(x) by {
                    let k = choose|k: int| 0 <= k < before.len() && before[k] == x;
                    assert(list_view(delta@)[k] == x);
                }
                assert(list_view(delta@)[before.len() as int] == head);
            }
        }
        return ;
    }
    assert(c@.body_pos[i as int] == c.body_pos@[i as int]@);
    assert(literal_meets(
        Rule::Strings,
        q@,
        caller,
        c@.vars,
        c@.body_pos[i as int],
        false,
    ));
    assert(literal_meets(
        Rule::Variables,
        q@,
        caller,
        c@.vars,
        c@.body_pos[i as int],
        false,
    ));
    assert(literal_meets(
        Rule::Stratification,
        q@,
        caller,
        c@.vars,
        c@.body_pos[i as int],
        false,
    ));
    let p = &c.body_pos[i];
    {
        let at = relation_index(p.name) as usize;
        let list = &rels[at];
        let ghost lv = list_view(list@);
        assert(rv[at as int] == lv.to_set());
        let mut k: usize = 0;
        while k < list.len()
            invariant
                k <= list.len(),
                rels.len() >= 1,
                caller == rels.len() - 1,
                searchable(q@, c@, caller),
                i < c.body_pos.len(),
                env.len() == c.vars,
                sv == q@.strings,
                rv == rels_view(rels@),
                known == rv[rels.len() - 1],
                envv == env_view(env@),
                before == list_view(old(delta)@),
                p == &c.body_pos[i as int],
                p@ == c@.body_pos[i as int],
                at == p@.name,
                at < rels.len(),
                list == &rels[at as int],
                lv == list_view(list@),
                rv[at as int] == lv.to_set(),
                args_meet(Rule::Strings, p@.args, c@.vars, q@.strings.len()),
                args_meet(Rule::Variables, p@.args, c@.vars, q@.strings.len()),
                clause_ground(c@),
                binds_upto(c@, envv, i as int),
                forall|e: Seq<Seq<char>>| #[trigger]
                    extends(e, envv) ==> stored_hold(c@, sv, e, rv, i as int),
                fresh(list_view(delta@), known),
                forall|t: Seq<Seq<char>>| before.contains(t) ==> list_view(delta@).contains(t),
                forall|t: Seq<Seq<char>>|
                    list_view(delta@).contains(t) ==> before.contains(t) || derives(c@, sv, rv, t),
                forall|e: Seq<Seq<char>>, m: int| #[trigger]
                    extends(e, envv) && body_holds(c@, sv, e, rv) && 0 <= m < k && #[trigger] lv[m]
                        == instantiate(p@.args, sv, e) ==> known.contains(
                        instantiate(c@.head, sv, e),
                    ) || list_view(delta@).contains(instantiate(c@.head, sv, e)),
            decreases list.len() - k,
        {
            let ghost mid = list_view(delta@);
            assert(args_ground(p@.args));
            match unify(&p.args, &list[k], &env, &q.strings) {
                Some(bound) => {
                    let ghost bv = env_view(bound@);
                    assert(lv[k as int] == strings_view(list@[k as int]@));
                    assert forall|j: int, v: u32|
                        0 <= j < i + 1 && v < c@.vars && #[trigger] binds(
                            c@.body_pos[j],
                            v,
                        ) implies bv[v as int] is Some by {
                        if j < i {
                            assert(envv[v as int] is Some);
                        } else {
                            let at = choose|at: int|
                                0 <= at < p@.args.len() && p@.args[at] == NamelessValue::Var(v);
                            assert(p.args@[at] == NamelessValue::Var(v));
                        }
                    }
                    assert forall|e: Seq<Seq<char>>| #[trigger] extends(e, bv) implies stored_hold(
                        c@,
                        sv,
                        e,
                        rv,
                        i + 1,
                    ) by {
                        assert(extends(e, envv));
                        assert(stored_hold(c@, sv, e, rv, i as int));
                        assert(instantiate(p@.args, sv, e) == lv[k as int]);
                        assert(lv.contains(lv[k as int]));
                        assert(literal_holds(c@.body_pos[i as int], sv, e, rv));
                    }
                    make_envs(q, c, i + 1, bound, rels, delta);
                    assert forall|e: Seq<Seq<char>>, m: int| #[trigger]
                        extends(e, envv) && body_holds(c@, sv, e, rv) && 0 <= m < k + 1
                            && #[trigger] lv[m] == instantiate(p@.args, sv, e) implies known.contains(
                        instantiate(c@.head, sv, e),
                    ) || list_view(delta@).contains(instantiate(c@.head, sv, e)) by {
                        if m < k {
                            assert(known.contains(instantiate(c@.head, sv, e)) || mid.contains(
                                instantiate(c@.head, sv, e),
                            ));
                        } else {
                            assert(extends(e, bv));
                        }
                    }
                },
                None => {
                    assert(lv[k as int] == strings_view(list@[k as int]@));
                },
            }
            k += 1;
        }
        assert forall|e: Seq<Seq<char>>| #[trigger]
            extends(e, envv) && body_holds(c@, sv, e, rv) implies known.contains(
            instantiate(c@.head, sv, e),
        ) || list_view(delta@).contains(instantiate(c@.head, sv, e)) by {
            assert(literal_holds(c@.body_pos[i as int], sv, e, rv));
            let x = instantiate(p@.args, sv, e);
            assert(lv.to_set().contains(x));
            assert(lv.contains(x));
            let m = choose|m: int| 0 <= m < lv.len() && lv[m] == x;
            assert(lv[m] == instantiate(p@.args, sv, e));
        }
    }
}

/// A partial assignment of `vars` variables that binds none.
fn unbound(vars: u32) -> (r: Vec<Option<String>>)
    ensures
        r.len() == vars,
        forall|v: int| 0 <= v < vars ==> env_view(r@)[v] is None,
{
    let mut out: Vec<Option<String>> = Vec::new();
    let mut v: u32 = 0;
    while v < vars
        invariant
            v <= vars,
            out.len() == v,
            forall|w: int| 0 <= w < v ==> env_view(out@)[w] is None,
        decreases vars - v,
    {
        let ghost prior = env_view(out@);
        out.push(None);
        assert(env_view(out@) =~= prior.push(None));
        v += 1;
    }
    out
}

/// Whether every clause of the group can be searched over relations up to `caller`.
pub open spec fn group_searchable(q: QueryModel, group: Seq<ClauseModel>, caller: nat) -> bool {
    forall|k: int| 0 <= k < group.len() ==> searchable(q, #[trigger] group[k], caller)
}

/// One round over a group: the tuples that its clauses yield from `rels` and that
/// the last relation of `rels`, which is the group's own, does not hold yet.
fn compute_new_tuples(q: &NamelessQuery, group: &Vec<NamelessClause>, rels: &Vec<Vec<Vec<String>>>) -> (delta:
    Vec<Vec<String>>)
    requires
        rels.len() >= 1,
        group_searchable(q@, group_view(*group), (rels.len() - 1) as nat),
    ensures
        fresh(list_view(delta@), rels_view(rels@)[rels.len() - 1]),
        forall|t: Seq<Seq<char>>|
            list_view(delta@).contains(t) ==> step(
                group_view(*group),
                q@.strings,
                rels_view(rels@),
            ).contains(t),
        forall|t: Seq<Seq<char>>|
            step(group_view(*group), q@.strings, rels_view(rels@)).contains(t) ==> rels_view(
                rels@,
            )[rels.len() - 1].contains(t) || list_view(delta@).contains(t),
{
    let ghost gv = group_view(*group);
    let ghost sv = q@.strings;
    let ghost rv = rels_view(rels@);
    let ghost known = rv[rels.len() - 1];
    let mut delta: Vec<Vec<String>> = Vec::new();
    let mut k: usize = 0;
    while k < group.len()
        invariant
            k <= group.len(),
            rels.len() >= 1,
            gv == group_view(*group),
            sv == q@.strings,
            rv == rels_view(rels@),
            known == rv[rels.len() - 1],
            group_searchable(q@, gv, (rels.len() - 1) as nat),
            fresh(list_view(delta@), known),
            forall|t: Seq<Seq<char>>|
                list_view(delta@).contains(t) ==> step(gv, sv, rv).contains(t),
            forall|t: Seq<Seq<char>>, m: int|
                0 <= m < k && derives(#[trigger] gv[m], sv, rv, t) ==> known.contains(t)
                    || #[trigger] list_view(delta@).contains(t),
        decreases group.len() - k,
    {
        let c = &group[k];
        assert(gv[k as int] == c@);
        assert(searchable(q@, gv[k as int], (rels.len() - 1) as nat));
        let ghost mid = list_view(delta@);
        let env = unbound(c.vars);
        make_envs(q, c, 0, env, rels, &mut delta);
        assert forall|t: Seq<Seq<char>>| list_view(delta@).contains(t) implies step(
            gv,
            sv,
            rv,
        ).contains(t) by {
            if !mid.contains(t) {
                assert(derives(gv[k as int], sv, rv, t));
            }
        }
        assert forall|t: Seq<Seq<char>>, m: int|
            0 <= m < k + 1 && derives(#[trigger] gv[m], sv, rv, t) implies known.contains(t)
            || #[trigger] list_view(delta@).contains(t) by {
            if m < k {
                assert(known.contains(t) || mid.contains(t));
            } else {
                let e = choose|e: Seq<Seq<char>>| yields(c@, sv, e, rv, t);
                assert(extends(e, env_view(env@)));
            }
        }
        k += 1;
    }
    assert forall|t: Seq<Seq<char>>| step(gv, sv, rv).contains(t) implies known.contains(t)
        || list_view(delta@).contains(t) by {
        let m = choose|m: int| 0 <= m < gv.len() && derives(#[trigger] gv[m], sv, rv, t);
        assert(derives(gv[m], sv, rv, t));
    }
    delta
}

/// The view of two lists put together is the two views put together.
proof fn lemma_list_view_add(a: Seq<Vec<String>>, b: Seq<Vec<String>>)
    ensures
        list_view(a + b) =~= list_view(a) + list_view(b),
{
}

/// In a valid query without metavariables every group can be searched at its own index.
pub proof fn lemma_valid_group(q: QueryModel, g: int)
    requires
        q.valid(),
        q.ground(),
        0 <= g < q.clauses.len(),
    ensures
        group_searchable(q, q.clauses[g], (BUILTINS + g) as nat),
        group_stratified(q.clauses[g], (BUILTINS + g) as nat),
        heads_agree(q.clauses[g], group_arity(q.clauses[g])),
{
    let caller = (BUILTINS + g) as nat;
    assert forall|k: int| 0 <= k < q.clauses[g].len() implies (#[trigger] q.clauses[g][k]).head.len()
        == group_arity(q.clauses[g]) by {
        assert(q.meets(Rule::Arity));
        assert(q.clause_at_meets(Rule::Arity, g, k));
    }
    assert forall|k: int| 0 <= k < q.clauses[g].len() implies searchable(
        q,
        #[trigger] q.clauses[g][k],
        caller,
    ) && stratified_at(q.clauses[g][k], caller) by {
        let c = q.clauses[g][k];
        assert(q.meets(Rule::Strings));
        assert(q.meets(Rule::Variables));
        assert(q.meets(Rule::Stratification));
        assert(q.meets(Rule::Positivity));
        assert(q.clause_at_meets(Rule::Strings, g, k));
        assert(q.clause_at_meets(Rule::Variables, g, k));
        assert(q.clause_at_meets(Rule::Stratification, g, k));
        assert(q.clause_at_meets(Rule::Positivity, g, k));
        assert(clause_ground(c));
        assert forall|i: int| 0 <= i < c.body_pos.len() implies (#[trigger] c.body_pos[i]).name
            <= caller by {
            assert(literal_meets(Rule::Stratification, q, caller, c.vars, c.body_pos[i], false));
        }
        assert forall|i: int| 0 <= i < c.body_neg.len() implies (#[trigger] c.body_neg[i]).name
            < caller by {
            assert(literal_meets(Rule::Stratification, q, caller, c.vars, c.body_neg[i], true));
        }
    }
}

/// In a valid query without metavariables the goal clause can be searched above
/// every group, and the goal calls a predicate below that index.
pub proof fn lemma_valid_goal(q: QueryModel)
    requires
        q.valid(),
        q.ground(),
    ensures
        searchable(q, q.goal_clause(), q.goal_index()),
        q.goal.name < q.goal_index(),
{
    let c = q.goal_clause();
    assert(q.meets(Rule::Strings));
    assert(q.meets(Rule::Variables));
    assert(q.meets(Rule::Existence));
    assert(q.meets(Rule::Stratification));
    assert(q.meets(Rule::Positivity));
    assert(c.body_pos[0] == q.goal);
    assert(literal_meets(Rule::Existence, q, q.goal_index(), c.vars, c.body_pos[0], false));
    assert(clause_ground(c));
}

/// Whether the head of every clause of the group has `k` arguments.
pub open spec fn heads_agree(group: Seq<ClauseModel>, k: nat) -> bool {
    forall|i: int| 0 <= i < group.len() ==> (#[trigger] group[i]).head.len() == k
}

/// Under an assignment that satisfies the body of a clause, each variable has a
/// value out of the strings of the pool and the relations below the clause: the
/// positive literal that binds it takes the value from there.
pub proof fn lemma_variable_bounded(
    q: QueryModel,
    c: ClauseModel,
    env: Seq<Seq<char>>,
    lower: Seq<Set<Seq<Seq<char>>>>,
    own: Set<Seq<Seq<char>>>,
    k: nat,
    v: u32,
)
    requires
        searchable(q, c, lower.len()),
        body_holds(c, q.strings, env, lower.push(own)),
        own.subset_of(tuples_over(values_in(q.strings, lower), k)),
        v < c.vars,
    ensures
        values_in(q.strings, lower).contains(env[v as int]),
{
    let values = values_in(q.strings, lower);
    let rels = lower.push(own);
    assert(bound_in(c, v));
    let i = choose|i: int| 0 <= i < c.body_pos.len() && binds(#[trigger] c.body_pos[i], v);
    let p = c.body_pos[i];
    assert(literal_holds(p, q.strings, env, rels));
    assert(literal_meets(Rule::Strings, q, lower.len(), c.vars, p, false));
    assert(literal_meets(Rule::Stratification, q, lower.len(), c.vars, p, false));
    let m = choose|m: int| 0 <= m < p.args.len() && p.args[m] == NamelessValue::Var(v);
    let x = instantiate(p.args, q.strings, env);
    assert(x[m] == env[v as int]);
    assert(rels[p.name as int].contains(x));
    if p.name < lower.len() {
        assert(rels[p.name as int] == lower[p.name as int]);
        assert(relation_values(lower[p.name as int]).contains(env[v as int]));
        assert(relations_values(lower, lower.len() as int).contains(env[v as int]));
    } else {
        assert(rels[p.name as int] == own);
        assert(tuples_over(values, k).contains(x));
        assert(values.contains(x[m]));
    }
}

/// Whatever any number of steps reaches is made of the strings of the pool and
/// of the values in the relations below the group.
pub proof fn lemma_iterate_bounded(
    q: QueryModel,
    group: Seq<ClauseModel>,
    lower: Seq<Set<Seq<Seq<char>>>>,
    k: nat,
    n: nat,
)
    requires
        group_searchable(q, group, lower.len()),
        heads_agree(group, k),
    ensures
        iterate(group, q.strings, lower, n).subset_of(
            tuples_over(values_in(q.strings, lower), k),
        ),
    decreases n,
{
    if n > 0 {
        lemma_iterate_bounded(q, group, lower, k, (n - 1) as nat);
        let own = iterate(group, q.strings, lower, (n - 1) as nat);
        let rels = lower.push(own);
        let values = values_in(q.strings, lower);
        assert forall|t: Seq<Seq<char>>| step(group, q.strings, rels).contains(t) implies tuples_over(
            values,
            k,
        ).contains(t) by {
            let i = choose|i: int|
                0 <= i < group.len() && derives(#[trigger] group[i], q.strings, rels, t);
            let c = group[i];
            let env = choose|env: Seq<Seq<char>>| yields(c, q.strings, env, rels, t);
            assert(searchable(q, c, lower.len()));
            assert forall|j: int| 0 <= j < k implies values.contains(#[trigger] t[j]) by {
                assert(t[j] == value_of(c.head[j], q.strings, env));
                assert(crate::validate::value_meets(
                    Rule::Strings,
                    c.head[j],
                    c.vars,
                    q.strings.len(),
                ));
                assert(crate::validate::value_meets(
                    Rule::Variables,
                    c.head[j],
                    c.vars,
                    q.strings.len(),
                ));
                match c.head[j] {
                    NamelessValue::Str(h) => {
                        assert(q.strings.contains(q.strings[h as int]));
                    },
                    NamelessValue::Var(v) => {
                        lemma_variable_bounded(q, c, env, lower, own, k, v);
                    },
                    NamelessValue::MetaVar(_) => {
                        assert(!(c.head[j] is MetaVar));
                    },
                }
            }
        }
    }
}

/// The number of arguments in the heads of a group: that of its first head.
pub open spec fn group_arity(group: Seq<ClauseModel>) -> nat {
    if group.len() > 0 {
        group[0].head.len()
    } else {
        0
    }
}

/// Takes the relation of the group `g` to its least fixpoint over the relations
/// below it, and puts it behind them.
///
/// Each round but the last adds a tuple that was not there, out of the finitely
/// many that can be made of the strings of the query and the values in the
/// relations below: so the rounds come to an end.
fn solve_group(q: &NamelessQuery, g: usize, rels: &mut Vec<Vec<Vec<String>>>)
    requires
        g < q.clauses.len(),
        old(rels).len() == BUILTINS + g,
        group_searchable(q@, q@.clauses[g as int], (BUILTINS + g) as nat),
        group_stratified(q@.clauses[g as int], (BUILTINS + g) as nat),
        heads_agree(q@.clauses[g as int], group_arity(q@.clauses[g as int])),
    ensures
        final(rels).len() == old(rels).len() + 1,
        rels_view(final(rels)@) == rels_view(old(rels)@).push(
            least_model(q@.clauses[g as int], q@.strings, rels_view(old(rels)@)),
        ),
{
    let ghost lower = rels_view(rels@);
    let ghost gv = q@.clauses[g as int];
    let ghost sv = q@.strings;
    let ghost k = group_arity(gv);
    let ghost univ = tuples_over(values_in(sv, lower), k);
    let group = &q.clauses[g];
    assert(gv == group_view(*group));
    proof {
        assert forall|r: int| 0 <= r < lower.len() implies (#[trigger] lower[r]).finite() by {
            vstd::seq_lib::seq_to_set_is_finite(list_view(rels@[r]@));
        }
        lemma_values_finite(sv, lower);
        lemma_tuples_finite(values_in(sv, lower), k);
    }
    rels.push(Vec::new());
    let ghost mut n: nat = 0;
    assert(list_view(rels@[rels.len() - 1]@).to_set() =~= Set::empty());
    assert(rels_view(rels@) =~= lower.push(Set::empty()));
    loop
        invariant
            rels.len() == lower.len() + 1,
            lower.len() == BUILTINS + g,
            gv == group_view(*group),
            sv == q@.strings,
            k == group_arity(gv),
            univ == tuples_over(values_in(sv, lower), k),
            univ.finite(),
            group_searchable(q@, gv, (BUILTINS + g) as nat),
            group_stratified(gv, (BUILTINS + g) as nat),
            heads_agree(gv, k),
            rels_view(rels@) == lower.push(list_view(rels@[rels.len() - 1]@).to_set()),
            list_view(rels@[rels.len() - 1]@).to_set().subset_of(iterate(gv, sv, lower, n)),
            list_view(rels@[rels.len() - 1]@).no_duplicates(),
            rels@[rels.len() - 1]@.len() <= univ.len(),
        ensures
            rels.len() == lower.len() + 1,
            rels_view(rels@) == lower.push(least_model(gv, sv, lower)),
        decreases univ.len() - rels@[rels.len() - 1]@.len(),
    {
        let ghost cur_set = list_view(rels@[rels.len() - 1]@).to_set();
        let mut delta = compute_new_tuples(q, group, rels);
        if delta.len() == 0 {
            proof {
                assert forall|t: Seq<Seq<char>>| step(gv, sv, lower.push(cur_set)).contains(
                    t,
                ) implies cur_set.contains(t) by {
                    assert(!list_view(delta@).contains(t));
                }
                lemma_least_model_reached(gv, sv, lower, cur_set, n);
            }
            break ;
        }
        let ghost dv = list_view(delta@);
        let ghost old_cur = rels@[rels.len() - 1]@;
        let ghost old_rels = rels@;
        let mut cur = rels.pop().unwrap();
        let ghost added = delta@;
        cur.append(&mut delta);
        proof {
            lemma_list_view_add(old_cur, added);
        }
        let ghost new_list = list_view(cur@);
        rels.push(cur);
        proof {
            let old_list = list_view(old_cur);
            assert(rels@ =~= old_rels.subrange(0, old_rels.len() - 1).push(cur));
            assert(rels_view(rels@) =~= lower.push(new_list.to_set())) by {
                assert forall|i: int| 0 <= i < lower.len() implies rels_view(rels@)[i]
                    == lower[i] by {
                    assert(rels_view(old_rels)[i] == lower.push(cur_set)[i]);
                }
            }
            lemma_iterate_grows(gv, sv, lower, n);
            lemma_step_monotone(gv, sv, lower, cur_set, iterate(gv, sv, lower, n));
            assert forall|t: Seq<Seq<char>>| new_list.to_set().contains(t) implies iterate(
                gv,
                sv,
                lower,
                n + 1,
            ).contains(t) by {
                let i = choose|i: int| 0 <= i < new_list.len() && new_list[i] == t;
                if i < old_list.len() {
                    assert(old_list[i] == t);
                    assert(cur_set.contains(t));
                } else {
                    assert(dv[i - old_list.len()] == t);
                    assert(dv.contains(t));
                    assert(step(gv, sv, lower.push(cur_set)).contains(t));
                }
            }
            assert forall|i: int, j: int|
                0 <= i < j < new_list.len() implies new_list[i] != new_list[j] by {
                if j < old_list.len() {
                    assert(old_list[i] != old_list[j]);
                } else if i >= old_list.len() {
                    assert(dv[i - old_list.len()] != dv[j - old_list.len()]);
                } else {
                    assert(old_list.contains(old_list[i]));
                    assert(cur_set.contains(new_list[i]));
                    assert(!cur_set.contains(dv[j - old_list.len()]));
                }
            }
            lemma_iterate_bounded(q@, gv, lower, k, n + 1);
            new_list.unique_seq_to_set();
            vstd::set_lib::lemma_len_subset(new_list.to_set(), univ);
            n = n + 1;
        }
    }
}

/// The tuples of `atom/1`, one for each atom given.
fn load_unary(items: &[String]) -> (r: Vec<Vec<String>>)
    ensures
        list_view(r@).to_set() == unary(items@),
{
    let mut out: Vec<Vec<String>> = Vec::new();
    let mut i: usize = 0;
    while i < items.len()
        invariant
            i <= items.len(),
            out.len() == i,
            forall|k: int| 0 <= k < i ==> #[trigger] list_view(out@)[k] == seq![items@[k]@],
        decreases items.len() - i,
    {
        let mut t: Vec<String> = Vec::new();
        t.push(items[i].clone());
        assert(strings_view(t@) =~= seq![items@[i as int]@]);
        let ghost prior = list_view(out@);
        let ghost tv = strings_view(t@);
        out.push(t);
        assert(list_view(out@) =~= prior.push(tv));
        i += 1;
    }
    assert forall|t: Seq<Seq<char>>| unary(items@).contains(t) implies list_view(out@).contains(
        t,
    ) by {
        let k = choose|k: int| 0 <= k < items@.len() && t == seq![(#[trigger] items@[k])@];
        assert(list_view(out@)[k] == t);
    }
    assert(list_view(out@).to_set() =~= unary(items@));
    out
}

/// The tuples of a built-in of three arguments, one for each triple given.
fn load_ternary(items: &[(String, String, String)]) -> (r: Vec<Vec<String>>)
    ensures
        list_view(r@).to_set() == ternary(items@),
{
    let mut out: Vec<Vec<String>> = Vec::new();
    let mut i: usize = 0;
    while i < items.len()
        invariant
            i <= items.len(),
            out.len() == i,
            forall|k: int|
                0 <= k < i ==> #[trigger] list_view(out@)[k] == seq![
                    items@[k].0@,
                    items@[k].1@,
                    items@[k].2@,
                ],
        decreases items.len() - i,
    {
        let mut t: Vec<String> = Vec::new();
        t.push(items[i].0.clone());
        t.push(items[i].1.clone());
        t.push(items[i].2.clone());
        assert(strings_view(t@) =~= seq![items@[i as int].0@, items@[i as int].1@, items@[i as int].2@]);
        let ghost prior = list_view(out@);
        let ghost tv = strings_view(t@);
        out.push(t);
        assert(list_view(out@) =~= prior.push(tv));
        i += 1;
    }
    assert forall|t: Seq<Seq<char>>| ternary(items@).contains(t) implies list_view(out@).contains(
        t,
    ) by {
        let k = choose|k: int|
            0 <= k < items@.len() && t == seq![
                (#[trigger] items@[k]).0@,
                items@[k].1@,
                items@[k].2@,
            ];
        assert(list_view(out@)[k] == t);
    }
    assert(list_view(out@).to_set() =~= ternary(items@));
    out
}

/// The tuples of `blob/4`, one for each quadruple given.
fn load_quaternary(items: &[(String, String, String, String)]) -> (r: Vec<Vec<String>>)
    ensures
        list_view(r@).to_set() == quaternary(items@),
{
    let mut out: Vec<Vec<String>> = Vec::new();
    let mut i: usize = 0;
    while i < items.len()
        invariant
            i <= items.len(),
            out.len() == i,
            forall|k: int|
                0 <= k < i ==> #[trigger] list_view(out@)[k] == seq![
                    items@[k].0@,
                    items@[k].1@,
                    items@[k].2@,
                    items@[k].3@,
                ],
        decreases items.len() - i,
    {
        let mut t: Vec<String> = Vec::new();
        t.push(items[i].0.clone());
        t.push(items[i].1.clone());
        t.push(items[i].2.clone());
        t.push(items[i].3.clone());
        assert(strings_view(t@) =~= seq![
            items@[i as int].0@,
            items@[i as int].1@,
            items@[i as int].2@,
            items@[i as int].3@,
        ]);
        let ghost prior = list_view(out@);
        let ghost tv = strings_view(t@);
        out.push(t);
        assert(list_view(out@) =~= prior.push(tv));
        i += 1;
    }
    assert forall|t: Seq<Seq<char>>| quaternary(items@).contains(t) implies list_view(
        out@,
    ).contains(t) by {
        let k = choose|k: int|
            0 <= k < items@.len() && t == seq![
                (#[trigger] items@[k]).0@,
                items@[k].1@,
                items@[k].2@,
                items@[k].3@,
            ];
        assert(list_view(out@)[k] == t);
    }
    assert(list_view(out@).to_set() =~= quaternary(items@));
    out
}

/// A list with one more item holds what it held and the item.
proof fn lemma_push_set(s: Seq<Seq<Seq<char>>>, x: Seq<Seq<char>>)
    ensures
        s.push(x).to_set() =~= s.to_set().insert(x),
{
    assert forall|y: Seq<Seq<char>>| s.push(x).to_set().contains(y) implies s.to_set().insert(
        x,
    ).contains(y) by {
        let k = choose|k: int| 0 <= k < s.push(x).len() && s.push(x)[k] == y;
        if k < s.len() {
            assert(s[k] == y);
            assert(s.contains(y));
        }
    }
    assert forall|y: Seq<Seq<char>>| s.to_set().insert(x).contains(y) implies s.push(
        x,
    ).to_set().contains(y) by {
        if y == x {
            assert(s.push(x)[s.len() as int] == y);
        } else {
            let k = choose|k: int| 0 <= k < s.len() && s[k] == y;
            assert(s.push(x)[k] == y);
        }
    }
}

/// Adds to `out` the pair of each value of `items` with itself.
fn add_pairs(out: &mut Vec<Vec<String>>, items: &Vec<String>)
    ensures
        list_view(final(out)@).to_set() == list_view(old(out)@).to_set().union(
            equal_pairs(strings_view(items@).to_set()),
        ),
{
    let ghost start = list_view(out@).to_set();
    let ghost iv = strings_view(items@);
    let mut i: usize = 0;
    assert(equal_pairs(iv.subrange(0, 0).to_set()) =~= Set::empty());
    assert(list_view(out@).to_set() =~= start.union(equal_pairs(iv.subrange(0, 0).to_set())));
    while i < items.len()
        invariant
            i <= items.len(),
            iv == strings_view(items@),
            list_view(out@).to_set() == start.union(
                equal_pairs(iv.subrange(0, i as int).to_set()),
            ),
        decreases items.len() - i,
    {
        let ghost before = list_view(out@);
        let mut pair: Vec<String> = Vec::new();
        pair.push(items[i].clone());
        pair.push(items[i].clone());
        let ghost x = strings_view(pair@);
        assert(x =~= seq![iv[i as int], iv[i as int]]);
        out.push(pair);
        proof {
            assert(list_view(out@) =~= before.push(x));
            lemma_push_set(before, x);
            let had = iv.subrange(0, i as int);
            let has = iv.subrange(0, i + 1);
            assert(has =~= had.push(iv[i as int]));
            assert forall|t: Seq<Seq<char>>| equal_pairs(has.to_set()).contains(t) implies equal_pairs(
                had.to_set(),
            ).insert(x).contains(t) by {
                let k = choose|k: int| 0 <= k < has.len() && has[k] == t[0];
                if k < had.len() {
                    assert(had[k] == t[0]);
                    assert(had.contains(t[0]));
                } else {
                    assert(t =~= x);
                }
            }
            assert forall|t: Seq<Seq<char>>| equal_pairs(had.to_set()).insert(x).contains(
                t,
            ) implies equal_pairs(has.to_set()).contains(t) by {
                if t == x {
                    assert(has[i as int] == t[0]);
                    assert(has.contains(t[0]));
                } else {
                    let k = choose|k: int| 0 <= k < had.len() && had[k] == t[0];
                    assert(has[k] == t[0]);
                    assert(has.contains(t[0]));
                }
            }
            assert(equal_pairs(has.to_set()) =~= equal_pairs(had.to_set()).insert(x));
            assert(list_view(out@).to_set() =~= start.union(equal_pairs(has.to_set())));
        }
        i += 1;
    }
    assert(iv.subrange(0, items.len() as int) =~= iv);
}

/// Adds to `out` the pair of each value in a tuple of `list` with itself.
fn add_relation(out: &mut Vec<Vec<String>>, list: &Vec<Vec<String>>)
    ensures
        list_view(final(out)@).to_set() == list_view(old(out)@).to_set().union(
            equal_pairs(relation_values(list_view(list@).to_set())),
        ),
{
    let ghost start = list_view(out@).to_set();
    let ghost lv = list_view(list@);
    let mut t: usize = 0;
    assert(equal_pairs(relation_values(lv.subrange(0, 0).to_set())) =~= Set::empty());
    assert(list_view(out@).to_set() =~= start.union(
        equal_pairs(relation_values(lv.subrange(0, 0).to_set())),
    ));
    while t < list.len()
        invariant
            t <= list.len(),
            lv == list_view(list@),
            list_view(out@).to_set() == start.union(
                equal_pairs(relation_values(lv.subrange(0, t as int).to_set())),
            ),
        decreases list.len() - t,
    {
        let ghost mid = list_view(out@).to_set();
        add_pairs(out, &list[t]);
        proof {
            let had = lv.subrange(0, t as int);
            let has = lv.subrange(0, t + 1);
            let x = lv[t as int];
            assert(x == strings_view(list@[t as int]@));
            assert(has =~= had.push(x));
            assert forall|p: Seq<Seq<char>>| equal_pairs(relation_values(has.to_set())).contains(
                p,
            ) implies equal_pairs(relation_values(had.to_set())).union(
                equal_pairs(x.to_set()),
            ).contains(p) by {
                let (tuple, m) = choose|tuple: Seq<Seq<char>>, m: int|
                    #[trigger] has.to_set().contains(tuple) && 0 <= m < tuple.len() && #[trigger] tuple[m]
                        == p[0];
                let k = choose|k: int| 0 <= k < has.len() && has[k] == tuple;
                if k < had.len() {
                    assert(had[k] == tuple);
                    assert(had.to_set().contains(tuple));
                    assert(relation_values(had.to_set()).contains(p[0]));
                } else {
                    assert(tuple == x);
                    assert(x.contains(p[0]));
                }
            }
            assert forall|p: Seq<Seq<char>>| equal_pairs(relation_values(had.to_set())).union(
                equal_pairs(x.to_set()),
            ).contains(p) implies equal_pairs(relation_values(has.to_set())).contains(p) by {
                if equal_pairs(x.to_set()).contains(p) {
                    let m = choose|m: int| 0 <= m < x.len() && x[m] == p[0];
                    assert(has[t as int] == x);
                    assert(has.to_set().contains(x));
                    assert(relation_values(has.to_set()).contains(p[0]));
                } else {
                    let (tuple, m) = choose|tuple: Seq<Seq<char>>, m: int|
                        #[trigger] had.to_set().contains(tuple) && 0 <= m < tuple.len()
                            && #[trigger] tuple[m] == p[0];
                    let k = choose|k: int| 0 <= k < had.len() && had[k] == tuple;
                    assert(has[k] == tuple);
                    assert(has.to_set().contains(tuple));
                    assert(relation_values(has.to_set()).contains(p[0]));
                }
            }
            assert(equal_pairs(relation_values(has.to_set())) =~= equal_pairs(
                relation_values(had.to_set()),
            ).union(equal_pairs(x.to_set())));
            assert(list_view(out@).to_set() =~= start.union(
                equal_pairs(relation_values(has.to_set())),
            ));
        }
        t += 1;
    }
    assert(lv.subrange(0, list.len() as int) =~= lv);
}

/// The relation of `=/2` over the strings of a pool and the values of the given
/// relations: each of them paired with itself.
fn load_equal(strings: &Vec<String>, rels: &Vec<Vec<Vec<String>>>) -> (out: Vec<Vec<String>>)
    ensures
        list_view(out@).to_set() == equal_pairs(
            values_in(strings_view(strings@), rels_view(rels@)),
        ),
{
    let ghost sv = strings_view(strings@);
    let ghost rv = rels_view(rels@);
    let mut out: Vec<Vec<String>> = Vec::new();
    assert(list_view(out@).to_set() =~= Set::empty());
    add_pairs(&mut out, strings);
    let mut r: usize = 0;
    assert(relations_values(rv, 0) =~= Set::empty());
    assert(list_view(out@).to_set() =~= equal_pairs(sv.to_set().union(relations_values(rv, 0))));
    while r < rels.len()
        invariant
            r <= rels.len(),
            sv == strings_view(strings@),
            rv == rels_view(rels@),
            list_view(out@).to_set() == equal_pairs(
                sv.to_set().union(relations_values(rv, r as int)),
            ),
        decreases rels.len() - r,
    {
        add_relation(&mut out, &rels[r]);
        proof {
            assert(rv[r as int] == list_view(rels@[r as int]@).to_set());
            assert(relations_values(rv, r + 1) =~= relations_values(rv, r as int).union(
                relation_values(rv[r as int]),
            )) by {
                assert forall|v: Seq<char>| relations_values(rv, r + 1).contains(
                    v,
                ) implies relations_values(rv, r as int).union(
                    relation_values(rv[r as int]),
                ).contains(v) by {
                    let k = choose|k: int|
                        0 <= k < r + 1 && relation_values(#[trigger] rv[k]).contains(v);
                    if k < r {
                        assert(relations_values(rv, r as int).contains(v));
                    }
                }
                assert forall|v: Seq<char>| relations_values(rv, r as int).union(
                    relation_values(rv[r as int]),
                ).contains(v) implies relations_values(rv, r + 1).contains(v) by {
                    if relation_values(rv[r as int]).contains(v) {
                    } else {
                        let k = choose|k: int|
                            0 <= k < r && relation_values(#[trigger] rv[k]).contains(v);
                        assert(relation_values(rv[k]).contains(v));
                    }
                }
            }
            assert(list_view(out@).to_set() =~= equal_pairs(
                sv.to_set().union(relations_values(rv, r + 1)),
            ));
        }
        r += 1;
    }
    out
}

/// Whether `result` is what solving may return where `all` are the answers: its
/// tuples are answers and pairwise distinct, there are no more than the limit
/// allows, and none is missing unless the limit is reached.
pub open spec fn is_solution(
    result: Seq<Seq<Seq<char>>>,
    all: Set<Seq<Seq<char>>>,
    limit: Option<usize>,
) -> bool {
    &&& result.no_duplicates()
    &&& forall|k: int| 0 <= k < result.len() ==> all.contains(#[trigger] result[k])
    &&& limit is Some ==> result.len() <= limit->0
    &&& (limit is Some ==> result.len() < limit->0) ==> forall|t: Seq<Seq<char>>|
        all.contains(t) ==> result.contains(t)
}

/// The goal holds under an assignment whatever relation stands at the goal's own index.
proof fn lemma_goal_below(
    q: QueryModel,
    rels: Seq<Set<Seq<Seq<char>>>>,
    t: Seq<Seq<char>>,
)
    requires
        q.goal.name < rels.len(),
    ensures
        derives(q.goal_clause(), q.strings, rels.push(Set::empty()), t) == derives(
            q.goal_clause(),
            q.strings,
            rels,
            t,
        ),
{
    let c = q.goal_clause();
    let above = rels.push(Set::empty());
    assert(above[q.goal.name as int] == rels[q.goal.name as int]);
    assert forall|e: Seq<Seq<char>>| yields(c, q.strings, e, above, t) == yields(
        c,
        q.strings,
        e,
        rels,
        t,
    ) by {
        assert(c.body_pos[0] == q.goal);
        assert(literal_holds(q.goal, q.strings, e, above) == literal_holds(
            q.goal,
            q.strings,
            e,
            rels,
        ));
        if body_holds(c, q.strings, e, above) {
            assert(literal_holds(c.body_pos[0], q.strings, e, above));
            assert(body_holds(c, q.strings, e, rels));
        }
        if body_holds(c, q.strings, e, rels) {
            assert(literal_holds(c.body_pos[0], q.strings, e, rels));
            assert(body_holds(c, q.strings, e, above));
        }
    }
    if derives(c, q.strings, above, t) {
        let e = choose|e: Seq<Seq<char>>| yields(c, q.strings, e, above, t);
        assert(yields(c, q.strings, e, rels, t));
    }
    if derives(c, q.strings, rels, t) {
        let e = choose|e: Seq<Seq<char>>| yields(c, q.strings, e, rels, t);
        assert(yields(c, q.strings, e, above, t));
    }
}

/// Naively solves the given query over the given facts.
///
/// - `atoms`: `atom`
/// - `names`: `atom, namespace, title`
/// - `edges`: `from, to, label`
/// - `tags`: `atom, key, value`
/// - `blobs`: `atom, kind, mime, hash`
///
/// Each tuple returned gives the values of the goal's variables, in the order of
/// their indices. With a limit, no more than that many are returned.
pub fn naive_solve(
    atoms: &[String],
    names: &[(String, String, String)],
    edges: &[(String, String, String)],
    tags: &[(String, String, String)],
    blobs: &[(String, String, String, String)],
    limit: Option<usize>,
    query: &NamelessQuery,
) -> (r: Vec<Vec<String>>)
    requires
        query@.valid(),
        query@.ground(),
    ensures
        is_solution(
            list_view(r@),
            answers(query@, base_relations(query@.strings, atoms@, names@, edges@, tags@, blobs@)),
            limit,
        ),
{
    let ghost base = base_relations(query@.strings, atoms@, names@, edges@, tags@, blobs@);
    let ghost stored = stored_relations(atoms@, names@, edges@, tags@, blobs@);
    let mut rels: Vec<Vec<Vec<String>>> = Vec::new();
    rels.push(load_unary(atoms));
    rels.push(load_ternary(names));
    rels.push(load_ternary(edges));
    rels.push(load_ternary(tags));
    rels.push(load_quaternary(blobs));
    assert(rels_view(rels@) =~= stored);
    let equal = load_equal(&query.strings, &rels);
    rels.push(equal);
    assert(rels_view(rels@) =~= base);
    let mut g: usize = 0;
    while g < query.clauses.len()
        invariant
            g <= query.clauses.len(),
            rels.len() == BUILTINS + g,
            query@.valid(),
            query@.ground(),
            rels_view(rels@) == relations(query@, base, g as nat),
        decreases query.clauses.len() - g,
    {
        proof {
            lemma_valid_group(query@, g as int);
        }
        solve_group(query, g, &mut rels);
        g += 1;
    }
    let ghost all = relations(query@, base, query@.clauses.len());
    let mut goals: Vec<NamelessClause> = Vec::new();
    goals.push(query.goal_clause());
    rels.push(Vec::new());
    proof {
        lemma_valid_goal(query@);
        assert(list_view(rels@[rels.len() - 1]@).to_set() =~= Set::empty());
        assert(rels_view(rels@) =~= all.push(Set::empty()));
        assert(group_view(goals)[0] == query@.goal_clause());
    }
    let mut found = compute_new_tuples(query, &goals, &rels);
    let ghost whole = list_view(found@);
    proof {
        assert forall|t: Seq<Seq<char>>| whole.contains(t) implies answers(query@, base).contains(
            t,
        ) by {
            let k = choose|k: int|
                0 <= k < group_view(goals).len() && derives(
                    #[trigger] group_view(goals)[k],
                    query@.strings,
                    all.push(Set::empty()),
                    t,
                );
            lemma_goal_below(query@, all, t);
        }
        assert forall|t: Seq<Seq<char>>| answers(query@, base).contains(t) implies whole.contains(
            t,
        ) by {
            lemma_goal_below(query@, all, t);
            assert(derives(group_view(goals)[0], query@.strings, all.push(Set::empty()), t));
            assert(step(group_view(goals), query@.strings, all.push(Set::empty())).contains(t));
        }
    }
    assert(whole.no_duplicates());
    match limit {
        Some(most) => {
            let had: usize = found.len();
            found.truncate(most);
            if most <= had {
                assert(list_view(found@) =~= whole.subrange(0, most as int));
                assert forall|k: int| 0 <= k < most implies answers(query@, base).contains(
                    #[trigger] list_view(found@)[k],
                ) by {
                    assert(whole.contains(whole[k]));
                }
            } else {
                assert(list_view(found@) =~= whole);
                assert forall|k: int| 0 <= k < whole.len() implies answers(query@, base).contains(
                    #[trigger] whole[k],
                ) by {
                    assert(whole.contains(whole[k]));
                }
            }
        },
        None => {
            assert forall|k: int| 0 <= k < whole.len() implies answers(query@, base).contains(
                #[trigger] whole[k],
            ) by {
                assert(whole.contains(whole[k]));
            }
        },
    }
    found
}

/// Naively solves the given query in a self-contained way (i.e. with all builtin goals failing).
pub fn naive_solve_selfcontained(query: &NamelessQuery) -> (r: Vec<Vec<String>>)
    requires
        query@.valid(),
        query@.ground(),
    ensures
        is_solution(
            list_view(r@),
            answers(
                query@,
                base_relations(
                    query@.strings,
                    Seq::empty(),
                    Seq::empty(),
                    Seq::empty(),
                    Seq::empty(),
                    Seq::empty(),
                ),
            ),
            None,
        ),
{
    let atoms: Vec<String> = Vec::new();
    let triples: Vec<(String, String, String)> = Vec::new();
    let blobs: Vec<(String, String, String, String)> = Vec::new();
    naive_solve(
        atoms.as_slice(),
        triples.as_slice(),
        triples.as_slice(),
        triples.as_slice(),
        blobs.as_slice(),
        None,
        query,
    )
}

/// Solving the same query over the same facts twice, without a limit, gives the
/// same set of tuples: what either run returns holds exactly the answers.
pub proof fn lemma_solutions_agree(
    first: Seq<Seq<Seq<char>>>,
    second: Seq<Seq<Seq<char>>>,
    all: Set<Seq<Seq<char>>>,
)
    requires
        is_solution(first, all, None),
        is_solution(second, all, None),
    ensures
        first.to_set() == all,
        second.to_set() == all,
        first.to_set() == second.to_set(),
{
    assert forall|t: Seq<Seq<char>>| first.to_set().contains(t) <==> all.contains(t) by {
        if first.contains(t) {
            let k = choose|k: int| 0 <= k < first.len() && first[k] == t;
            assert(all.contains(first[k]));
        }
    }
    assert forall|t: Seq<Seq<char>>| second.to_set().contains(t) <==> all.contains(t) by {
        if second.contains(t) {
            let k = choose|k: int| 0 <= k < second.len() && second[k] == t;
            assert(all.contains(second[k]));
        }
    }
    assert(first.to_set() =~= all);
    assert(second.to_set() =~= all);
}

/// The shape of an answer: a tuple with one value for each variable of the goal,
/// each value a string of the query or a value out of a relation. (The relations
/// of a valid query hold only strings of the query and values of the facts.)
pub proof fn lemma_answer_shape(q: QueryModel, base: Seq<Set<Seq<Seq<char>>>>, t: Seq<Seq<char>>)
    requires
        q.valid(),
        q.ground(),
        q.goal_vars <= u32::MAX,
        base.len() == BUILTINS,
        answers(q, base).contains(t),
    ensures
        t.len() == q.goal_vars,
        forall|j: int|
            0 <= j < t.len() ==> values_in(
                q.strings,
                relations(q, base, q.clauses.len()),
            ).contains(#[trigger] t[j]),
{
    let c = q.goal_clause();
    let rels = relations(q, base, q.clauses.len());
    let env = choose|env: Seq<Seq<char>>| yields(c, q.strings, env, rels, t);
    lemma_valid_goal(q);
    lemma_relations_len(q, base, q.clauses.len());
    assert forall|j: int| 0 <= j < t.len() implies values_in(q.strings, rels).contains(
        #[trigger] t[j],
    ) by {
        assert(t[j] == value_of(c.head[j], q.strings, env));
        assert(c.head[j] == NamelessValue::Var(j as u32));
        assert(env[j] == t[j]);
        assert(literal_holds(c.body_pos[0], q.strings, env, rels));
        lemma_goal_below_body(q, rels, env);
        lemma_variable_bounded(q, c, env, rels, Set::empty(), 0, j as u32);
    }
}

/// There are as many relations as there are built-ins and groups looked at.
pub proof fn lemma_relations_len(q: QueryModel, base: Seq<Set<Seq<Seq<char>>>>, k: nat)
    ensures
        relations(q, base, k).len() == base.len() + k,
    decreases k,
{
    if k > 0 {
        lemma_relations_len(q, base, (k - 1) as nat);
    }
}

/// The body of the goal clause holds whatever relation stands at the goal's own index.
proof fn lemma_goal_below_body(
    q: QueryModel,
    rels: Seq<Set<Seq<Seq<char>>>>,
    env: Seq<Seq<char>>,
)
    requires
        q.goal.name < rels.len(),
        body_holds(q.goal_clause(), q.strings, env, rels),
    ensures
        body_holds(q.goal_clause(), q.strings, env, rels.push(Set::empty())),
{
    let c = q.goal_clause();
    let above = rels.push(Set::empty());
    assert(above[q.goal.name as int] == rels[q.goal.name as int]);
    assert(c.body_pos[0] == q.goal);
    assert(literal_holds(c.body_pos[0], q.strings, env, rels));
}

} // verus!
