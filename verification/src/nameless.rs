//! A nameless representation of queries: predicates are numbered, strings are
//! handles into a pool owned by the query, variables are numbered per clause,
//! and clauses are grouped by predicate in stratified order.

use vstd::prelude::*;

verus! {

/// The name of `atom/1`.
pub const ATOM: u32 = 0;

/// The name of `name/3`.
pub const NAME: u32 = 1;

/// The name of `edge/3`.
pub const EDGE: u32 = 2;

/// The name of `tag/3`.
pub const TAG: u32 = 3;

/// The name of `blob/4`.
pub const BLOB: u32 = 4;

/// The name of the first predicate that a query defines: clause group `g` defines
/// the predicate `USER + g`.
pub const USER: u32 = 5;

/// The name of `=/2`: the last number, so that it takes no place among the others.
pub const EQ: u32 = 4294967295;

/// The index of the relation of `=/2` among the relations.
pub const EQUALS: u32 = 5;

/// The number of relations of built-in predicates; the relation of clause group
/// `g` has the index `BUILTINS + g`.
pub const BUILTINS: u32 = 6;

/// The index of the relation that a predicate name stands for. The relations are
/// laid out as the predicates are solved: those of the five stored built-ins,
/// that of `=/2`, then those of the clause groups in their order.
pub open spec fn index_of(name: u32) -> nat {
    if name == EQ {
        EQUALS as nat
    } else if name < USER {
        name as nat
    } else {
        (name + 1) as nat
    }
}

/// The predicate name whose relation has the given index.
pub open spec fn name_at(index: nat) -> u32 {
    if index == EQUALS {
        EQ
    } else if index < EQUALS {
        index as u32
    } else {
        (index - 1) as u32
    }
}

/// The index of the relation of a predicate.
pub fn relation_index(name: u32) -> (r: u32)
    ensures
        r == index_of(name),
        name_at(r as nat) == name,
{
    if name == EQ {
        EQUALS
    } else if name < USER {
        name
    } else {
        name + 1
    }
}

/// The name of the predicate whose relation has the given index.
pub fn predicate_name(index: u32) -> (r: u32)
    ensures
        r == name_at(index as nat),
        index_of(r) == index,
{
    if index == EQUALS {
        EQ
    } else if index < EQUALS {
        index
    } else {
        index - 1
    }
}

/// A nameless representation of values.
#[derive(Clone, Copy, Debug, PartialEq, Eq, Structural, Hash)]
pub enum NamelessValue {
    /// A metavariable; the handle is that of its name in the string pool.
    MetaVar(u32),
    /// A string, by its handle in the string pool.
    Str(u32),
    /// A variable of the enclosing clause or goal.
    Var(u32),
}

/// A nameless representation of predicates.
#[derive(Clone, Debug, PartialEq, Eq)]
pub struct NamelessPredicate {
    /// The name of the predicate: `0` to `4` for `atom/1`, `name/3`, `edge/3`,
    /// `tag/3` and `blob/4`, `5 + g` for the predicate of clause group `g`, and
    /// the last number for `=/2`.
    pub name: u32,
    /// The arguments to the predicate.
    pub args: Vec<NamelessValue>,
}

/// What a `NamelessPredicate` stands for. The predicate is given by the index of
/// its relation (see [`index_of`]): in this one order a predicate stands after
/// those that it may call.
pub struct PredicateModel {
    pub name: nat,
    pub args: Seq<NamelessValue>,
}

impl View for NamelessPredicate {
    type V = PredicateModel;

    open spec fn view(&self) -> PredicateModel {
        PredicateModel { name: index_of(self.name), args: self.args@ }
    }
}

/// A nameless representation of clauses.
#[derive(Clone, Debug, PartialEq, Eq)]
pub struct NamelessClause {
    /// The number of variables used in the clause.
    pub vars: u32,
    /// The arguments to the head predicate of the clause.
    pub head: Vec<NamelessValue>,
    /// The positive predicates in the body of the clause.
    pub body_pos: Vec<NamelessPredicate>,
    /// The negated predicates in the body of the clause.
    pub body_neg: Vec<NamelessPredicate>,
}

/// What a `NamelessClause` stands for.
pub struct ClauseModel {
    pub vars: nat,
    pub head: Seq<NamelessValue>,
    pub body_pos: Seq<PredicateModel>,
    pub body_neg: Seq<PredicateModel>,
}

impl View for NamelessClause {
    type V = ClauseModel;

    open spec fn view(&self) -> ClauseModel {
        ClauseModel {
            vars: self.vars as nat,
            head: self.head@,
            body_pos: self.body_pos@.map_values(|p: NamelessPredicate| p@),
            body_neg: self.body_neg@.map_values(|p: NamelessPredicate| p@),
        }
    }
}

/// A nameless representation of queries.
#[derive(Clone, Debug, PartialEq, Eq)]
pub struct NamelessQuery {
    /// The string pool: every string of the query once, found by its handle.
    pub strings: Vec<String>,
    /// The clauses to be used by the query, grouped by predicate, in stratified order.
    pub clauses: Vec<Vec<NamelessClause>>,
    /// The number of variables used in the predicate to solve for.
    pub goal_vars: u32,
    /// The predicate to solve for.
    pub goal: NamelessPredicate,
}

/// What a `NamelessQuery` stands for.
pub struct QueryModel {
    pub strings: Seq<Seq<char>>,
    pub clauses: Seq<Seq<ClauseModel>>,
    pub goal_vars: nat,
    pub goal: PredicateModel,
}

/// The clauses of one group, each as what it stands for.
pub open spec fn group_view(group: Vec<NamelessClause>) -> Seq<ClauseModel> {
    group@.map_values(|c: NamelessClause| c@)
}

/// The strings of a pool, each as its characters.
pub open spec fn strings_view(strings: Seq<String>) -> Seq<Seq<char>> {
    strings.map_values(|s: String| s@)
}

impl View for NamelessQuery {
    type V = QueryModel;

    open spec fn view(&self) -> QueryModel {
        QueryModel {
            strings: strings_view(self.strings@),
            clauses: self.clauses@.map_values(|g: Vec<NamelessClause>| group_view(g)),
            goal_vars: self.goal_vars as nat,
            goal: self.goal@,
        }
    }
}

impl QueryModel {
    /// The goal read as a clause: its head lists the goal's variables in order, and
    /// its body is the goal alone.
    pub open spec fn goal_clause(self) -> ClauseModel {
        ClauseModel {
            vars: self.goal_vars,
            head: Seq::new(self.goal_vars, |i: int| NamelessValue::Var(i as u32)),
            body_pos: seq![self.goal],
            body_neg: Seq::empty(),
        }
    }

    /// The index that the goal clause is checked and solved under: one above every
    /// predicate of the query.
    pub open spec fn goal_index(self) -> nat {
        BUILTINS as nat + self.clauses.len()
    }
}

} // verus!
