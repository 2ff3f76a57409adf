//! The rules a nameless query must meet before it is solved, and the check for them.

use crate::nameless::{
    group_view, strings_view, ClauseModel, NamelessClause, NamelessPredicate, NamelessQuery,
    NamelessValue, PredicateModel, QueryModel, ATOM, BLOB, BUILTINS, EQUALS,
};
use crate::nameless::{index_of, relation_index};
use crate::text::{decimal, push_decimal, push_str, string_of};
use vstd::prelude::*;

verus! {

/// The rules, in the order in which a query is held to them.
#[derive(Clone, Copy, Debug, PartialEq, Eq, Structural)]
pub enum Rule {
    /// Every string handle is below the pool's length, and no string stands twice in the pool.
    Strings,
    /// Every variable index is below the variable count of its clause or of the goal.
    Variables,
    /// Every predicate called is a built-in or has a clause.
    Existence,
    /// Every call has as many arguments as the predicate takes, and the heads of a
    /// group agree in length.
    Arity,
    /// Positive calls go to predicates not above the caller, negated calls to
    /// predicates strictly below it.
    Stratification,
    /// Every variable is bound by a positive literal of its clause.
    Positivity,
}

/// A rule that a query breaks, with the place where it does.
#[derive(Clone, Copy, Debug, PartialEq, Eq, Structural)]
pub enum ValidationError {
    /// A call or head with the wrong number of arguments.
    BadArgn { expected: usize, found: usize },
    /// A call that the order of the strata does not allow, from a clause of the
    /// group `group` (the number of groups, where the goal makes the call).
    BadStratification { group: usize, callee: u32, negated: bool },
    /// A string handle outside the pool, or the handle of a string that the pool
    /// already holds under a smaller handle.
    BadString { handle: usize },
    /// A variable index that is not below the variable count.
    BadVariableIndex { max_vars: u32, var: u32 },
    /// A variable that no positive literal binds.
    NeverUsedPositively { var: u32 },
    /// A call to a predicate without clauses.
    NoSuchClause { argn: usize, name: u32 },
}

impl ValidationError {
    /// The rule that the error reports as broken.
    pub open spec fn rule(self) -> Rule {
        match self {
            ValidationError::BadArgn { .. } => Rule::Arity,
            ValidationError::BadStratification { .. } => Rule::Stratification,
            ValidationError::BadString { .. } => Rule::Strings,
            ValidationError::BadVariableIndex { .. } => Rule::Variables,
            ValidationError::NeverUsedPositively { .. } => Rule::Positivity,
            ValidationError::NoSuchClause { .. } => Rule::Existence,
        }
    }

    /// What the error carries agrees with its kind: the two counts of `BadArgn`
    /// differ, the callee of `BadStratification` is not below the predicate of the
    /// calling group (above it for a positive call), the variable of `BadVariableIndex` is not below the
    /// count, and the predicate of `NoSuchClause` is no built-in.
    pub open spec fn sound(self) -> bool {
        match self {
            ValidationError::BadArgn { expected, found } => expected != found,
            ValidationError::BadStratification { group, callee, negated } => if negated {
                index_of(callee) >= BUILTINS + group
            } else {
                index_of(callee) > BUILTINS + group
            },
            ValidationError::BadVariableIndex { max_vars, var } => var >= max_vars,
            ValidationError::NoSuchClause { argn, name } => index_of(name) >= BUILTINS,
            _ => true,
        }
    }
}

/// The number of arguments that a built-in predicate takes.
pub open spec fn builtin_arity(name: nat) -> nat {
    if name == ATOM {
        1
    } else if name == BLOB {
        4
    } else if name == EQUALS {
        2
    } else {
        3
    }
}

/// No string stands twice in the pool.
pub open spec fn pool_distinct(strings: Seq<Seq<char>>) -> bool {
    forall|i: int, j: int| 0 <= i < j < strings.len() ==> strings[i] != strings[j]
}

impl QueryModel {
    /// Whether `name` is a built-in or the index of a group with a clause.
    pub open spec fn defines(self, name: nat) -> bool {
        name < BUILTINS || (name - BUILTINS < self.clauses.len() && self.clauses[name
            - BUILTINS].len() > 0)
    }

    /// The number of arguments that the predicate `name` takes: fixed for a
    /// built-in, else the length of the first head of its group.
    pub open spec fn arity_of(self, name: nat) -> nat {
        if name < BUILTINS {
            builtin_arity(name)
        } else {
            self.clauses[name - BUILTINS][0].head.len()
        }
    }
}

/// Whether one argument meets `rule`.
pub open spec fn value_meets(rule: Rule, v: NamelessValue, vars: nat, strings: nat) -> bool {
    match rule {
        Rule::Strings => match v {
            NamelessValue::MetaVar(h) => h < strings,
            NamelessValue::Str(h) => h < strings,
            NamelessValue::Var(_) => true,
        },
        Rule::Variables => match v {
            NamelessValue::Var(n) => n < vars,
            _ => true,
        },
        _ => true,
    }
}

/// Whether every argument of a list meets `rule`.
pub open spec fn args_meet(rule: Rule, args: Seq<NamelessValue>, vars: nat, strings: nat) -> bool {
    forall|j: int| 0 <= j < args.len() ==> value_meets(rule, #[trigger] args[j], vars, strings)
}

/// Whether a body literal of a clause of the predicate `caller` meets `rule`.
pub open spec fn literal_meets(
    rule: Rule,
    q: QueryModel,
    caller: nat,
    vars: nat,
    p: PredicateModel,
    negated: bool,
) -> bool {
    match rule {
        Rule::Strings | Rule::Variables => args_meet(rule, p.args, vars, q.strings.len()),
        Rule::Existence => q.defines(p.name),
        Rule::Arity => p.args.len() == q.arity_of(p.name),
        Rule::Stratification => if negated {
            p.name < caller
        } else {
            p.name <= caller
        },
        Rule::Positivity => true,
    }
}

/// Whether the positive literal `p` binds the variable `v`: it does when `v` is
/// among its arguments. A call of `=/2` binds like any other: both of its sides.
pub open spec fn binds(p: PredicateModel, v: u32) -> bool {
    p.args.contains(NamelessValue::Var(v))
}

/// Whether some positive literal of the clause binds the variable `v`.
pub open spec fn bound_in(c: ClauseModel, v: u32) -> bool {
    exists|i: int| 0 <= i < c.body_pos.len() && binds(#[trigger] c.body_pos[i], v)
}

/// Whether a clause of the predicate `caller` meets `rule`. `head_len` is the
/// length that the head must have, where one is asked for.
pub open spec fn clause_meets(
    rule: Rule,
    q: QueryModel,
    caller: nat,
    head_len: Option<nat>,
    c: ClauseModel,
) -> bool {
    &&& match rule {
        Rule::Strings | Rule::Variables => args_meet(rule, c.head, c.vars, q.strings.len()),
        Rule::Arity => head_len is Some ==> c.head.len() == head_len->0,
        Rule::Positivity => forall|v: u32| v < c.vars ==> bound_in(c, v),
        _ => true,
    }
    &&& forall|i: int|
        0 <= i < c.body_pos.len() ==> literal_meets(
            rule,
            q,
            caller,
            c.vars,
            #[trigger] c.body_pos[i],
            false,
        )
    &&& forall|i: int|
        0 <= i < c.body_neg.len() ==> literal_meets(
            rule,
            q,
            caller,
            c.vars,
            #[trigger] c.body_neg[i],
            true,
        )
}

impl QueryModel {
    /// Whether the clause `i` of the group `g` meets `rule`.
    pub open spec fn clause_at_meets(self, rule: Rule, g: int, i: int) -> bool {
        clause_meets(
            rule,
            self,
            (BUILTINS + g) as nat,
            Some(self.clauses[g][0].head.len()),
            self.clauses[g][i],
        )
    }

    /// Whether the whole query meets `rule`: its pool where the rule is on strings,
    /// every clause, and the goal read as a clause.
    pub open spec fn meets(self, rule: Rule) -> bool {
        &&& rule == Rule::Strings ==> pool_distinct(self.strings)
        &&& forall|g: int, i: int|
            0 <= g < self.clauses.len() && 0 <= i < self.clauses[g].len()
                ==> #[trigger] self.clause_at_meets(rule, g, i)
        &&& clause_meets(rule, self, self.goal_index(), None, self.goal_clause())
    }

    /// The first rule, in their order, that the query breaks.
    pub open spec fn first_broken(self) -> Option<Rule> {
        if !self.meets(Rule::Strings) {
            Some(Rule::Strings)
        } else if !self.meets(Rule::Variables) {
            Some(Rule::Variables)
        } else if !self.meets(Rule::Existence) {
            Some(Rule::Existence)
        } else if !self.meets(Rule::Arity) {
            Some(Rule::Arity)
        } else if !self.meets(Rule::Stratification) {
            Some(Rule::Stratification)
        } else if !self.meets(Rule::Positivity) {
            Some(Rule::Positivity)
        } else {
            None
        }
    }

    /// The query meets every rule.
    pub open spec fn valid(self) -> bool {
        self.first_broken() is None
    }

    /// No metavariable is left in the query.
    pub open spec fn ground(self) -> bool {
        &&& forall|g: int, i: int|
            0 <= g < self.clauses.len() && 0 <= i < self.clauses[g].len() ==> clause_ground(
                #[trigger] self.clauses[g][i],
            )
        &&& args_ground(self.goal.args)
    }
}

/// No argument of the list is a metavariable.
pub open spec fn args_ground(args: Seq<NamelessValue>) -> bool {
    forall|j: int| 0 <= j < args.len() ==> !(#[trigger] args[j] is MetaVar)
}

/// No argument in the clause is a metavariable.
pub open spec fn clause_ground(c: ClauseModel) -> bool {
    &&& args_ground(c.head)
    &&& forall|i: int| 0 <= i < c.body_pos.len() ==> args_ground((#[trigger] c.body_pos[i]).args)
    &&& forall|i: int| 0 <= i < c.body_neg.len() ==> args_ground((#[trigger] c.body_neg[i]).args)
}

/// Whether the error tells what is wrong with the argument `v` of a clause with
/// `vars` variables, over a pool of `strings` strings.
pub open spec fn value_explains(e: ValidationError, v: NamelessValue, vars: nat, strings: nat) -> bool {
    match e {
        ValidationError::BadString { handle } => handle >= strings && (v == NamelessValue::Str(
            handle as u32,
        ) || v == NamelessValue::MetaVar(handle as u32)),
        ValidationError::BadVariableIndex { max_vars, var } => max_vars == vars && var >= vars && v
            == NamelessValue::Var(var),
        _ => false,
    }
}

/// Whether the error tells what is wrong with one of the arguments.
pub open spec fn args_explain(e: ValidationError, args: Seq<NamelessValue>, vars: nat, strings: nat) -> bool {
    exists|j: int| 0 <= j < args.len() && value_explains(e, #[trigger] args[j], vars, strings)
}

/// Whether the error tells what is wrong with the literal `p` of a clause of the
/// predicate `caller` with `vars` variables.
pub open spec fn literal_explains(
    e: ValidationError,
    q: QueryModel,
    caller: nat,
    vars: nat,
    p: PredicateModel,
    negated: bool,
) -> bool {
    match e {
        ValidationError::BadString { .. } | ValidationError::BadVariableIndex { .. } => args_explain(
            e,
            p.args,
            vars,
            q.strings.len(),
        ),
        ValidationError::NoSuchClause { argn, name } => index_of(name) == p.name && argn
            == p.args.len()
            && !q.defines(p.name),
        ValidationError::BadArgn { expected, found } => found == p.args.len() && expected
            == q.arity_of(p.name) && expected != found,
        ValidationError::BadStratification { group, callee, negated: how } => caller == BUILTINS
            + group && index_of(callee) == p.name && how == negated && (if negated {
            p.name >= caller
        } else {
            p.name > caller
        }),
        ValidationError::NeverUsedPositively { .. } => false,
    }
}

/// Whether the error tells what is wrong with the clause `c` of the predicate
/// `caller`: with its head, with one of its literals, or with the smallest variable
/// that it does not bind.
pub open spec fn clause_explains(
    e: ValidationError,
    q: QueryModel,
    caller: nat,
    head_len: Option<nat>,
    c: ClauseModel,
) -> bool {
    ||| exists|i: int|
        0 <= i < c.body_pos.len() && literal_explains(e, q, caller, c.vars, #[trigger] c.body_pos[i], false)
    ||| exists|i: int|
        0 <= i < c.body_neg.len() && literal_explains(e, q, caller, c.vars, #[trigger] c.body_neg[i], true)
    ||| match e {
        ValidationError::BadString { .. } | ValidationError::BadVariableIndex { .. } => args_explain(
            e,
            c.head,
            c.vars,
            q.strings.len(),
        ),
        ValidationError::BadArgn { expected, found } => head_len is Some && found == c.head.len()
            && expected == head_len->0 && expected != found,
        ValidationError::NeverUsedPositively { var } => var < c.vars && !bound_in(c, var)
            && forall|w: u32| w < var ==> bound_in(c, w),
        _ => false,
    }
}

/// Whether the error tells what is wrong with the query: a string that stands
/// twice in its pool, or what is wrong with a clause or with the goal read as a clause.
pub open spec fn explains(e: ValidationError, q: QueryModel) -> bool {
    ||| e is BadString && e->handle < q.strings.len() && exists|i: int|
        0 <= i < e->handle && #[trigger] q.strings[i] == q.strings[e->handle as int]
    ||| exists|g: int, i: int|
        0 <= g < q.clauses.len() && 0 <= i < q.clauses[g].len() && clause_explains(
            e,
            q,
            (BUILTINS + g) as nat,
            Some(q.clauses[g][0].head.len()),
            #[trigger] q.clauses[g][i],
        )
    ||| clause_explains(e, q, q.goal_index(), None, q.goal_clause())
}

/// The number of arguments that a built-in predicate takes.
fn builtin_argn(name: u32) -> (r: usize)
    requires
        name < BUILTINS,
    ensures
        r == builtin_arity(name as nat),
{
    if name == ATOM {
        1
    } else if name == BLOB {
        4
    } else if name == EQUALS {
        2
    } else {
        3
    }
}

impl NamelessValue {
    /// Holds one argument to `rule`.
    pub fn validate(&self, rule: Rule, vars: u32, strings: usize) -> (r: Option<ValidationError>)
        ensures
            r is None <==> value_meets(rule, *self, vars as nat, strings as nat),
            r is Some ==> r->0.rule() == rule && r->0.sound(),
            r is Some ==> value_explains(r->0, *self, vars as nat, strings as nat),
    {
        match rule {
            Rule::Strings => match self {
                NamelessValue::MetaVar(h) | NamelessValue::Str(h) => {
                    if (*h as usize) < strings {
                        None
                    } else {
                        Some(ValidationError::BadString { handle: *h as usize })
                    }
                },
                NamelessValue::Var(_) => None,
            },
            Rule::Variables => match self {
                NamelessValue::Var(n) => {
                    if *n < vars {
                        None
                    } else {
                        Some(ValidationError::BadVariableIndex { max_vars: vars, var: *n })
                    }
                },
                _ => None,
            },
            _ => None,
        }
    }
}

/// Holds every argument of a list to `rule`.
fn validate_args(args: &Vec<NamelessValue>, rule: Rule, vars: u32, strings: usize) -> (r: Option<
    ValidationError,
>)
    ensures
        r is None <==> args_meet(rule, args@, vars as nat, strings as nat),
        r is Some ==> r->0.rule() == rule && r->0.sound(),
        r is Some ==> args_explain(r->0, args@, vars as nat, strings as nat),
{
    let mut j: usize = 0;
    while j < args.len()
        invariant
            j <= args.len(),
            forall|k: int| 0 <= k < j ==> value_meets(rule, #[trigger] args@[k], vars as nat, strings as nat),
        decreases args.len() - j,
    {
        let found = args[j].validate(rule, vars, strings);
        if found.is_some() {
            return found;
        }
        j += 1;
    }
    None
}

impl NamelessPredicate {
    /// Holds one body literal of a clause of the group `group` to `rule`.
    pub fn validate(
        &self,
        rule: Rule,
        query: &NamelessQuery,
        group: usize,
        vars: u32,
        negated: bool,
    ) -> (r: Option<ValidationError>)
        requires
            rule == Rule::Arity ==> query@.defines(self@.name),
        ensures
            r is None <==> literal_meets(
                rule,
                query@,
                (BUILTINS + group) as nat,
                vars as nat,
                self@,
                negated,
            ),
            r is Some ==> r->0.rule() == rule && r->0.sound(),
            r is Some ==> literal_explains(
                r->0,
                query@,
                (BUILTINS + group) as nat,
                vars as nat,
                self@,
                negated,
            ),
    {
        match rule {
            Rule::Strings | Rule::Variables => validate_args(
                &self.args,
                rule,
                vars,
                query.strings.len(),
            ),
            Rule::Existence => {
                let index: u32 = relation_index(self.name);
                if index < BUILTINS {
                    None
                } else {
                    let at: usize = (index - BUILTINS) as usize;
                    if at < query.clauses.len() && query.clauses[at].len() > 0 {
                        None
                    } else {
                        Some(ValidationError::NoSuchClause { argn: self.args.len(), name: self.name })
                    }
                }
            },
            Rule::Arity => {
                let index: u32 = relation_index(self.name);
                let expected: usize = if index < BUILTINS {
                    builtin_argn(index)
                } else {
                    query.clauses[(index - BUILTINS) as usize][0].head.len()
                };
                if self.args.len() == expected {
                    None
                } else {
                    Some(ValidationError::BadArgn { expected, found: self.args.len() })
                }
            },
            Rule::Stratification => {
                let index: u32 = relation_index(self.name);
                let below: bool = index < BUILTINS || ((index - BUILTINS) as usize) < group;
                let level: bool = index >= BUILTINS && ((index - BUILTINS) as usize) == group;
                if below || (level && !negated) {
                    None
                } else {
                    Some(
                        ValidationError::BadStratification { group, callee: self.name, negated },
                    )
                }
            },
            Rule::Positivity => None,
        }
    }

    /// Whether the literal, read as positive, binds the variable `v`.
    pub fn binds(&self, v: u32) -> (r: bool)
        ensures
            r == binds(self@, v),
    {
        let mut j: usize = 0;
        while j < self.args.len()
            invariant
                j <= self.args.len(),
                forall|k: int| 0 <= k < j ==> self.args@[k] != NamelessValue::Var(v),
            decreases self.args.len() - j,
        {
            match self.args[j] {
                NamelessValue::Var(n) => {
                    if n == v {
                        assert(self.args@[j as int] == NamelessValue::Var(v));
                        return true;
                    }
                },
                _ => {},
            }
            j += 1;
        }
        false
    }
}

impl NamelessClause {
    /// Whether some positive literal of the clause binds the variable `v`.
    pub fn binds(&self, v: u32) -> (r: bool)
        ensures
            r == bound_in(self@, v),
    {
        let mut i: usize = 0;
        while i < self.body_pos.len()
            invariant
                i <= self.body_pos.len(),
                forall|k: int| 0 <= k < i ==> !binds(#[trigger] self@.body_pos[k], v),
            decreases self.body_pos.len() - i,
        {
            if self.body_pos[i].binds(v) {
                assert(self@.body_pos[i as int] == self.body_pos@[i as int]@);
                return true;
            }
            assert(self@.body_pos[i as int] == self.body_pos@[i as int]@);
            i += 1;
        }
        false
    }

    /// Holds one clause of the group `group` to `rule`; `head_len` is the length that
    /// its head must have, where one is asked for.
    pub fn validate(
        &self,
        rule: Rule,
        query: &NamelessQuery,
        group: usize,
        head_len: Option<usize>,
    ) -> (r: Option<ValidationError>)
        requires
            rule == Rule::Arity ==> clause_meets(
                Rule::Existence,
                query@,
                (BUILTINS + group) as nat,
                None,
                self@,
            ),
        ensures
            r is None <==> clause_meets(
                rule,
                query@,
                (BUILTINS + group) as nat,
                match head_len {
                    Some(n) => Some(n as nat),
                    None => None,
                },
                self@,
            ),
            r is Some ==> r->0.rule() == rule && r->0.sound(),
            r is Some ==> clause_explains(
                r->0,
                query@,
                (BUILTINS + group) as nat,
                match head_len {
                    Some(n) => Some(n as nat),
                    None => None,
                },
                self@,
            ),
    {
        let ghost caller = (BUILTINS + group) as nat;
        match rule {
            Rule::Strings | Rule::Variables => {
                let found = validate_args(&self.head, rule, self.vars, query.strings.len());
                if found.is_some() {
                    return found;
                }
            },
            Rule::Arity => {
                match head_len {
                    Some(n) => {
                        if self.head.len() != n {
                            return Some(
                                ValidationError::BadArgn { expected: n, found: self.head.len() },
                            );
                        }
                    },
                    None => {},
                }
            },
            Rule::Positivity => {
                let mut v: u32 = 0;
                while v < self.vars
                    invariant
                        v <= self.vars,
                        rule == Rule::Positivity,
                        forall|w: u32| w < v ==> bound_in(self@, w),
                    decreases self.vars - v,
                {
                    if !self.binds(v) {
                        return Some(ValidationError::NeverUsedPositively { var: v });
                    }
                    v += 1;
                }
            },
            _ => {},
        }
        let mut i: usize = 0;
        while i < self.body_pos.len()
            invariant
                i <= self.body_pos.len(),
                caller == (BUILTINS + group) as nat,
                rule == Rule::Arity ==> clause_meets(Rule::Existence, query@, caller, None, self@),
                forall|k: int|
                    0 <= k < i ==> literal_meets(
                        rule,
                        query@,
                        caller,
                        self@.vars,
                        #[trigger] self@.body_pos[k],
                        false,
                    ),
            decreases self.body_pos.len() - i,
        {
            assert(self@.body_pos[i as int] == self.body_pos@[i as int]@);
            let found = self.body_pos[i].validate(rule, query, group, self.vars, false);
            if found.is_some() {
                return found;
            }
            i += 1;
        }
        let mut i: usize = 0;
        while i < self.body_neg.len()
            invariant
                i <= self.body_neg.len(),
                caller == (BUILTINS + group) as nat,
                rule == Rule::Arity ==> clause_meets(Rule::Existence, query@, caller, None, self@),
                forall|k: int|
                    0 <= k < i ==> literal_meets(
                        rule,
                        query@,
                        caller,
                        self@.vars,
                        #[trigger] self@.body_neg[k],
                        true,
                    ),
            decreases self.body_neg.len() - i,
        {
            assert(self@.body_neg[i as int] == self.body_neg@[i as int]@);
            let found = self.body_neg[i].validate(rule, query, group, self.vars, true);
            if found.is_some() {
                return found;
            }
            i += 1;
        }
        None
    }
}

/// Looks for a string that stands twice in the pool.
fn check_pool(strings: &Vec<String>) -> (r: Option<ValidationError>)
    ensures
        r is None <==> pool_distinct(strings_view(strings@)),
        r is Some ==> r->0.rule() == Rule::Strings && r->0.sound(),
        r is Some ==> r->0 is BadString && r->0->handle < strings.len() && exists|i: int|
            0 <= i < r->0->handle && #[trigger] strings_view(strings@)[i] == strings_view(
                strings@,
            )[r->0->handle as int],
{
    let ghost pool = strings_view(strings@);
    let mut j: usize = 0;
    while j < strings.len()
        invariant
            j <= strings.len(),
            pool == strings_view(strings@),
            forall|a: int, b: int| 0 <= a < b < j ==> pool[a] != pool[b],
        decreases strings.len() - j,
    {
        let mut i: usize = 0;
        while i < j
            invariant
                i <= j < strings.len(),
                pool == strings_view(strings@),
                forall|a: int| 0 <= a < i ==> pool[a] != pool[j as int],
            decreases j - i,
        {
            if strings[i] == strings[j] {
                assert(pool[i as int] == pool[j as int]);
                return Some(ValidationError::BadString { handle: j });
            }
            i += 1;
        }
        j += 1;
    }
    None
}

impl NamelessQuery {
    /// The goal read as a clause: its head lists the goal's variables in order, and
    /// its body is the goal alone.
    pub fn goal_clause(&self) -> (c: NamelessClause)
        ensures
            c@ == self@.goal_clause(),
    {
        let mut head: Vec<NamelessValue> = Vec::new();
        let mut v: u32 = 0;
        while v < self.goal_vars
            invariant
                v <= self.goal_vars,
                head@ =~= Seq::new(v as nat, |i: int| NamelessValue::Var(i as u32)),
            decreases self.goal_vars - v,
        {
            head.push(NamelessValue::Var(v));
            v += 1;
        }
        let mut args: Vec<NamelessValue> = Vec::new();
        let mut j: usize = 0;
        while j < self.goal.args.len()
            invariant
                j <= self.goal.args.len(),
                args@ =~= self.goal.args@.subrange(0, j as int),
            decreases self.goal.args.len() - j,
        {
            args.push(self.goal.args[j]);
            j += 1;
        }
        assert(args@ =~= self.goal.args@);
        let mut body_pos: Vec<NamelessPredicate> = Vec::new();
        body_pos.push(NamelessPredicate { name: self.goal.name, args });
        let c = NamelessClause { vars: self.goal_vars, head, body_pos, body_neg: Vec::new() };
        assert(c@.body_pos =~= seq![self@.goal]);
        assert(c@.body_neg =~= Seq::empty());
        c
    }

    /// Holds the whole query to one rule.
    fn check(&self, rule: Rule) -> (r: Option<ValidationError>)
        requires
            rule == Rule::Arity ==> self@.meets(Rule::Existence),
        ensures
            r is None <==> self@.meets(rule),
            r is Some ==> r->0.rule() == rule && r->0.sound(),
            r is Some ==> explains(r->0, self@),
    {
        match rule {
            Rule::Strings => {
                let found = check_pool(&self.strings);
                if found.is_some() {
                    return found;
                }
            },
            _ => {},
        }
        let mut g: usize = 0;
        while g < self.clauses.len()
            invariant
                g <= self.clauses.len(),
                rule == Rule::Arity ==> self@.meets(Rule::Existence),
                forall|a: int, b: int|
                    0 <= a < g && 0 <= b < self@.clauses[a].len()
                        ==> #[trigger] self@.clause_at_meets(rule, a, b),
            decreases self.clauses.len() - g,
        {
            let group = &self.clauses[g];
            assert(self@.clauses[g as int] == group_view(*group));
            let mut i: usize = 0;
            while i < group.len()
                invariant
                    i <= group.len(),
                    g < self.clauses.len(),
                    group == &self.clauses[g as int],
                    self@.clauses[g as int] == group_view(*group),
                    rule == Rule::Arity ==> self@.meets(Rule::Existence),
                    forall|b: int| 0 <= b < i ==> #[trigger] self@.clause_at_meets(rule, g as int, b),
                decreases group.len() - i,
            {
                assert(self@.clauses[g as int][i as int] == group@[i as int]@);
                assert(self@.clauses[g as int][0] == group@[0]@);
                assert(rule == Rule::Arity ==> self@.clause_at_meets(
                    Rule::Existence,
                    g as int,
                    i as int,
                ));
                let found = group[i].validate(rule, self, g, Some(group[0].head.len()));
                if found.is_some() {
                    assert(!self@.clause_at_meets(rule, g as int, i as int));
                    return found;
                }
                assert(self@.clause_at_meets(rule, g as int, i as int));
                i += 1;
            }
            g += 1;
        }
        let goal = self.goal_clause();
        goal.validate(rule, self, self.clauses.len(), None)
    }

    /// Ensures the query is valid, returning an error for the first rule that it
    /// breaks if it is not; the error tells what is wrong with the pool, with a
    /// clause or with the goal.
    pub fn validate(&self) -> (r: Result<(), ValidationError>)
        ensures
            match r {
                Ok(()) => self@.valid(),
                Err(e) => self@.first_broken() == Some(e.rule()) && e.sound() && explains(e, self@),
            },
    {
        match self.check(Rule::Strings) {
            Some(e) => {
                return Err(e);
            },
            None => {},
        }
        match self.check(Rule::Variables) {
            Some(e) => {
                return Err(e);
            },
            None => {},
        }
        match self.check(Rule::Existence) {
            Some(e) => {
                return Err(e);
            },
            None => {},
        }
        match self.check(Rule::Arity) {
            Some(e) => {
                return Err(e);
            },
            None => {},
        }
        match self.check(Rule::Stratification) {
            Some(e) => {
                return Err(e);
            },
            None => {},
        }
        match self.check(Rule::Positivity) {
            Some(e) => {
                return Err(e);
            },
            None => {},
        }
        Ok(())
    }
}

/// Equal strings share one handle: in a query that meets the rule on strings, two
/// handles of the pool under which the same string stands are the same handle.
pub proof fn lemma_equal_strings_share_handle(q: QueryModel, a: u32, b: u32)
    requires
        q.meets(Rule::Strings),
        a < q.strings.len(),
        b < q.strings.len(),
        q.strings[a as int] == q.strings[b as int],
    ensures
        a == b,
{
    if a < b {
        assert(q.strings[a as int] != q.strings[b as int]);
    } else if b < a {
        assert(q.strings[b as int] != q.strings[a as int]);
    }
}

/// Whether the variable `v` is among the arguments of some positive literal of the clause.
pub open spec fn occurs_positively(c: ClauseModel, v: u32) -> bool {
    exists|i: int|
        0 <= i < c.body_pos.len() && (#[trigger] c.body_pos[i]).args.contains(NamelessValue::Var(v))
}

/// A variable that is not among the arguments of any positive literal is bound by none.
pub proof fn lemma_unused_is_unbound(c: ClauseModel, v: u32)
    requires
        !occurs_positively(c, v),
    ensures
        !bound_in(c, v),
{
    if bound_in(c, v) {
        let i = choose|i: int| 0 <= i < c.body_pos.len() && binds(#[trigger] c.body_pos[i], v);
        let p = c.body_pos[i];
        if p.name == EQUALS {
            if p.args[0] == NamelessValue::Var(v) {
                assert(p.args.contains(NamelessValue::Var(v)));
            } else {
                assert(p.args[1] == NamelessValue::Var(v));
                assert(p.args.contains(NamelessValue::Var(v)));
            }
        }
        assert(occurs_positively(c, v));
    }
}

/// A query with a clause that has a variable which occurs in no positive literal
/// of that clause, be it in the head only or in negated literals only, is not
/// valid; where the query meets the rules before the one on positivity, that
/// rule is the one it breaks.
pub proof fn lemma_positivity_enforced(q: QueryModel, g: int, i: int, v: u32)
    requires
        0 <= g < q.clauses.len(),
        0 <= i < q.clauses[g].len(),
        v < q.clauses[g][i].vars,
        !occurs_positively(q.clauses[g][i], v),
    ensures
        !q.valid(),
        q.meets(Rule::Strings) && q.meets(Rule::Variables) && q.meets(Rule::Existence) && q.meets(
            Rule::Arity,
        ) && q.meets(Rule::Stratification) ==> q.first_broken() == Some(Rule::Positivity),
{
    lemma_unused_is_unbound(q.clauses[g][i], v);
    assert(!q.clause_at_meets(Rule::Positivity, g, i));
    assert(!q.meets(Rule::Positivity));
}

/// A query is valid or breaks exactly one first rule: the rule that an error of
/// validation names is fixed by the query.
pub proof fn lemma_one_error_class(q: QueryModel, a: ValidationError, b: ValidationError)
    requires
        q.first_broken() == Some(a.rule()),
        q.first_broken() == Some(b.rule()),
    ensures
        a.rule() == b.rule(),
        !q.valid(),
{
}

/// Whether no argument of the list is a metavariable.
fn ground_args(args: &Vec<NamelessValue>) -> (r: bool)
    ensures
        r == args_ground(args@),
{
    let mut j: usize = 0;
    while j < args.len()
        invariant
            j <= args.len(),
            forall|k: int| 0 <= k < j ==> !(#[trigger] args@[k] is MetaVar),
        decreases args.len() - j,
    {
        match args[j] {
            NamelessValue::MetaVar(_) => {
                return false;
            },
            _ => {},
        }
        j += 1;
    }
    true
}

/// Whether no argument of the literals is a metavariable.
fn ground_literals(body: &Vec<NamelessPredicate>) -> (r: bool)
    ensures
        r == forall|i: int| 0 <= i < body.len() ==> args_ground((#[trigger] body@[i])@.args),
{
    let mut i: usize = 0;
    while i < body.len()
        invariant
            i <= body.len(),
            forall|k: int| 0 <= k < i ==> args_ground((#[trigger] body@[k])@.args),
        decreases body.len() - i,
    {
        if !ground_args(&body[i].args) {
            return false;
        }
        i += 1;
    }
    true
}

impl NamelessClause {
    /// Whether no metavariable is left in the clause.
    pub fn is_ground(&self) -> (r: bool)
        ensures
            r == clause_ground(self@),
    {
        let head = ground_args(&self.head);
        let pos = ground_literals(&self.body_pos);
        let neg = ground_literals(&self.body_neg);
        proof {
            assert forall|i: int| 0 <= i < self@.body_pos.len() implies (
            #[trigger] self@.body_pos[i]) == self.body_pos@[i]@ by {}
            assert forall|i: int| 0 <= i < self@.body_neg.len() implies (
            #[trigger] self@.body_neg[i]) == self.body_neg@[i]@ by {}
            if pos {
                assert forall|i: int| 0 <= i < self@.body_pos.len() implies args_ground(
                    (#[trigger] self@.body_pos[i]).args,
                ) by {
                    assert(args_ground(self.body_pos@[i]@.args));
                }
            } else {
                let i = choose|i: int|
                    0 <= i < self.body_pos.len() && !args_ground((#[trigger] self.body_pos@[i])@.args);
                assert(self@.body_pos[i] == self.body_pos@[i]@);
            }
            if neg {
                assert forall|i: int| 0 <= i < self@.body_neg.len() implies args_ground(
                    (#[trigger] self@.body_neg[i]).args,
                ) by {
                    assert(args_ground(self.body_neg@[i]@.args));
                }
            } else {
                let i = choose|i: int|
                    0 <= i < self.body_neg.len() && !args_ground((#[trigger] self.body_neg@[i])@.args);
                assert(self@.body_neg[i] == self.body_neg@[i]@);
            }
        }
        head && pos && neg
    }
}

impl NamelessQuery {
    /// Whether no metavariable is left in the query, as solving asks.
    pub fn is_ground(&self) -> (r: bool)
        ensures
            r == self@.ground(),
    {
        let mut g: usize = 0;
        while g < self.clauses.len()
            invariant
                g <= self.clauses.len(),
                forall|a: int, b: int|
                    0 <= a < g && 0 <= b < self@.clauses[a].len() ==> clause_ground(
                        #[trigger] self@.clauses[a][b],
                    ),
            decreases self.clauses.len() - g,
        {
            let group = &self.clauses[g];
            assert(self@.clauses[g as int] == group_view(*group));
            let mut i: usize = 0;
            while i < group.len()
                invariant
                    i <= group.len(),
                    g < self.clauses.len(),
                    self@.clauses[g as int] == group_view(*group),
                    forall|b: int| 0 <= b < i ==> clause_ground(#[trigger] self@.clauses[g as int][b]),
                decreases group.len() - i,
            {
                assert(self@.clauses[g as int][i as int] == group@[i as int]@);
                if !group[i].is_ground() {
                    return false;
                }
                i += 1;
            }
            g += 1;
        }
        ground_args(&self.goal.args)
    }
}

impl ValidationError {
    /// The message of the error.
    pub open spec fn message(self) -> Seq<char> {
        match self {
            ValidationError::BadArgn { expected, found } => "cannot call a clause that expects "@
                + decimal(expected as nat) + " args with "@ + decimal(found as nat),
            ValidationError::BadStratification { group, callee, negated } => "a clause of group "@
                + decimal(group as nat) + (if negated {
                " cannot call !"@
            } else {
                " cannot call "@
            }) + decimal(callee as nat),
            ValidationError::BadString { handle } => "no string, or not the first of its kind, under the handle "@
                + decimal(handle as nat),
            ValidationError::BadVariableIndex { max_vars, var } => "cannot use variable #"@
                + decimal(var as nat) + " in a clause with "@ + decimal(max_vars as nat) + " vars"@,
            ValidationError::NeverUsedPositively { var } => "variable #"@ + decimal(var as nat)
                + " was never used positively"@,
            ValidationError::NoSuchClause { argn, name } => "no such clause "@ + decimal(
                name as nat,
            ) + "/"@ + decimal(argn as nat),
        }
    }

    /// The message of the error.
    pub fn to_string(&self) -> (s: String)
        ensures
            s@ == self.message(),
    {
        let mut out: Vec<char> = Vec::new();
        match self {
            ValidationError::BadArgn { expected, found } => {
                push_str(&mut out, "cannot call a clause that expects ");
                push_decimal(&mut out, *expected);
                push_str(&mut out, " args with ");
                push_decimal(&mut out, *found);
            },
            ValidationError::BadStratification { group, callee, negated } => {
                push_str(&mut out, "a clause of group ");
                push_decimal(&mut out, *group);
                if *negated {
                    push_str(&mut out, " cannot call !");
                } else {
                    push_str(&mut out, " cannot call ");
                }
                push_decimal(&mut out, *callee as usize);
            },
            ValidationError::BadString { handle } => {
                push_str(&mut out, "no string, or not the first of its kind, under the handle ");
                push_decimal(&mut out, *handle);
            },
            ValidationError::BadVariableIndex { max_vars, var } => {
                push_str(&mut out, "cannot use variable #");
                push_decimal(&mut out, *var as usize);
                push_str(&mut out, " in a clause with ");
                push_decimal(&mut out, *max_vars as usize);
                push_str(&mut out, " vars");
            },
            ValidationError::NeverUsedPositively { var } => {
                push_str(&mut out, "variable #");
                push_decimal(&mut out, *var as usize);
                push_str(&mut out, " was never used positively");
            },
            ValidationError::NoSuchClause { argn, name } => {
                push_str(&mut out, "no such clause ");
                push_decimal(&mut out, *name as usize);
                push_str(&mut out, "/");
                push_decimal(&mut out, *argn);
            },
        }
        assert(out@ =~= self.message());
        string_of(&out)
    }
}

/// Whether every string handle in the clause is below `n`.
pub open spec fn clause_handles_below(c: ClauseModel, n: nat) -> bool {
    &&& args_meet(Rule::Strings, c.head, 0, n)
    &&& forall|i: int|
        0 <= i < c.body_pos.len() ==> args_meet(Rule::Strings, (#[trigger] c.body_pos[i]).args, 0, n)
    &&& forall|i: int|
        0 <= i < c.body_neg.len() ==> args_meet(Rule::Strings, (#[trigger] c.body_neg[i]).args, 0, n)
}

/// Whether every string handle in the literals is below `n`.
pub open spec fn literals_handles_below(body: Seq<PredicateModel>, n: nat) -> bool {
    forall|i: int| 0 <= i < body.len() ==> args_meet(Rule::Strings, (#[trigger] body[i]).args, 0, n)
}

/// A query whose pool holds no string twice and whose handles are all below the
/// length of the pool meets the rule on strings.
pub proof fn lemma_strings_met(q: QueryModel)
    requires
        pool_distinct(q.strings),
        forall|g: int, i: int|
            0 <= g < q.clauses.len() && 0 <= i < q.clauses[g].len() ==> clause_handles_below(
                #[trigger] q.clauses[g][i],
                q.strings.len(),
            ),
        args_meet(Rule::Strings, q.goal.args, 0, q.strings.len()),
    ensures
        q.meets(Rule::Strings),
{
    let n = q.strings.len();
    assert forall|g: int, i: int|
        0 <= g < q.clauses.len() && 0 <= i < q.clauses[g].len() implies #[trigger] q.clause_at_meets(
        Rule::Strings,
        g,
        i,
    ) by {
        let c = q.clauses[g][i];
        assert(clause_handles_below(c, n));
        assert forall|j: int| 0 <= j < c.head.len() implies value_meets(
            Rule::Strings,
            #[trigger] c.head[j],
            c.vars,
            n,
        ) by {
            assert(value_meets(Rule::Strings, c.head[j], 0, n));
        }
        assert forall|k: int| 0 <= k < c.body_pos.len() implies literal_meets(
            Rule::Strings,
            q,
            (BUILTINS + g) as nat,
            c.vars,
            #[trigger] c.body_pos[k],
            false,
        ) by {
            let p = c.body_pos[k];
            assert(args_meet(Rule::Strings, p.args, 0, n));
            assert forall|j: int| 0 <= j < p.args.len() implies value_meets(
                Rule::Strings,
                #[trigger] p.args[j],
                c.vars,
                n,
            ) by {
                assert(value_meets(Rule::Strings, p.args[j], 0, n));
            }
        }
        assert forall|k: int| 0 <= k < c.body_neg.len() implies literal_meets(
            Rule::Strings,
            q,
            (BUILTINS + g) as nat,
            c.vars,
            #[trigger] c.body_neg[k],
            true,
        ) by {
            let p = c.body_neg[k];
            assert(args_meet(Rule::Strings, p.args, 0, n));
            assert forall|j: int| 0 <= j < p.args.len() implies value_meets(
                Rule::Strings,
                #[trigger] p.args[j],
                c.vars,
                n,
            ) by {
                assert(value_meets(Rule::Strings, p.args[j], 0, n));
            }
        }
    }
    let c = q.goal_clause();
    assert forall|j: int| 0 <= j < c.head.len() implies value_meets(
        Rule::Strings,
        #[trigger] c.head[j],
        c.vars,
        n,
    ) by {}
    assert forall|k: int| 0 <= k < c.body_pos.len() implies literal_meets(
        Rule::Strings,
        q,
        q.goal_index(),
        c.vars,
        #[trigger] c.body_pos[k],
        false,
    ) by {
        assert(c.body_pos[k] == q.goal);
        assert forall|j: int| 0 <= j < q.goal.args.len() implies value_meets(
            Rule::Strings,
            #[trigger] q.goal.args[j],
            c.vars,
            n,
        ) by {
            assert(value_meets(Rule::Strings, q.goal.args[j], 0, n));
        }
    }
}

} // verus!
