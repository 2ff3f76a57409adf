//! Visitors used to convert frontend implementations of the query language to the `ValidatedQuery`
//! IR.
//!
//! A front-end walks its query and tells a visitor what it meets: each clause with
//! its head and the arguments of the head, each literal of the body with its
//! arguments, at last the goal. Variables are numbered as they are met, per
//! clause; the predicates get their names when the goal is finished.

use crate::lowering::{complete, find_functor, find_number, is_complete, position, table_view};
use crate::pool::{lookup, Pool};
use crate::stratify::{strata, strata_of};
use crate::validated::{
    args_view, literals_view, rules_view, CallModel, InnerModel, ProgramModel, RuleModel, Span,
    ValidatedClause, ValidatedPredicate, ValidatedQuery, ValidatedValue, ValidatedValueInner,
    ValidationError, ValueModel,
};
use vstd::prelude::*;

verus! {

/// A visitor that can be visited by a value.
pub trait ValueVisitor<S: Span + Copy> {
    /// The arguments that the visitor has been visited with.
    spec fn seen(&self) -> Seq<ValueModel<S>>;

    /// The names of the variables met so far in the clause or goal, with their indices.
    spec fn names(&self) -> Seq<(Seq<char>, u32)>;

    /// The index that the next new variable or hole gets.
    spec fn next(&self) -> u32;

    /// What the visitor holds besides the arguments and the variables: a visit
    /// with a value leaves it as it is.
    spec fn around(&self) -> Around<S>;

    /// Whether another variable or hole can get an index.
    fn has_room(&self) -> (r: bool)
        ensures
            r == (self.next() < u32::MAX),
    ;

    /// Visits with a hole.
    fn visit_arg_hole(&mut self, span: S)
        requires
            old(self).next() < u32::MAX,
        ensures
            final(self).seen() == old(self).seen().push(
                ValueModel { inner: InnerModel::Var(old(self).next()), span },
            ),
            final(self).names() == old(self).names(),
            final(self).next() == old(self).next() + 1,
            final(self).around() == old(self).around(),
    ;

    /// Visits with a string literal.
    fn visit_arg_string(&mut self, string: &str, span: S)
        ensures
            final(self).seen() == old(self).seen().push(
                ValueModel { inner: InnerModel::Str(string@), span },
            ),
            final(self).names() == old(self).names(),
            final(self).next() == old(self).next(),
            final(self).around() == old(self).around(),
    ;

    /// Visits with a variable.
    fn visit_arg_var(&mut self, var: &str, span: S)
        requires
            old(self).next() < u32::MAX,
        ensures
            match lookup(old(self).names(), var@) {
                Some(n) => final(self).seen() == old(self).seen().push(
                    ValueModel { inner: InnerModel::Var(n), span },
                ) && final(self).names() == old(self).names() && final(self).next() == old(
                    self,
                ).next(),
                None => final(self).seen() == old(self).seen().push(
                    ValueModel { inner: InnerModel::Var(old(self).next()), span },
                ) && final(self).names() == old(self).names().push((var@, old(self).next()))
                    && final(self).next() == old(self).next() + 1,
            },
            final(self).around() == old(self).around(),
    ;
}

/// What a visitor holds besides the arguments that it is visited with and the
/// variables met: the clauses finished, the clause in the making without the
/// arguments of its head and the number of its variables, and the literal or goal
/// in the making without its arguments.
pub struct Around<S> {
    pub drafts: Seq<ClauseDraft<S>>,
    pub clause: Option<ClauseDraft<S>>,
    pub literal: Option<LiteralDraft<S>>,
}

/// A literal of a half-built clause: its predicate still by name.
pub struct TemporaryLiteral<S: Span> {
    negated: bool,
    name: String,
    args: Vec<ValidatedValue<S>>,
    span: S,
}

/// What a `TemporaryLiteral` stands for.
pub struct LiteralDraft<S> {
    pub negated: bool,
    pub name: Seq<char>,
    pub args: Seq<ValueModel<S>>,
    pub span: S,
}

impl<S: Span> View for TemporaryLiteral<S> {
    type V = LiteralDraft<S>;

    closed spec fn view(&self) -> LiteralDraft<S> {
        LiteralDraft {
            negated: self.negated,
            name: self.name@,
            args: args_view(self.args@),
            span: self.span,
        }
    }
}

/// A half-built clause: its predicates still by name.
pub struct TemporaryClause<S: Span> {
    name: String,
    args: Vec<ValidatedValue<S>>,
    head_span: S,
    body: Vec<TemporaryLiteral<S>>,
    vars: u32,
    span: S,
}

/// What a `TemporaryClause` stands for.
pub struct ClauseDraft<S> {
    pub name: Seq<char>,
    pub args: Seq<ValueModel<S>>,
    pub head_span: S,
    pub body: Seq<LiteralDraft<S>>,
    pub vars: u32,
    pub span: S,
}

/// The literals of a list, each as what it stands for.
pub closed spec fn literal_drafts<S: Span>(body: Seq<TemporaryLiteral<S>>) -> Seq<LiteralDraft<S>> {
    body.map_values(|l: TemporaryLiteral<S>| l@)
}

impl<S: Span> View for TemporaryClause<S> {
    type V = ClauseDraft<S>;

    closed spec fn view(&self) -> ClauseDraft<S> {
        ClauseDraft {
            name: self.name@,
            args: args_view(self.args@),
            head_span: self.head_span,
            body: literal_drafts(self.body@),
            vars: self.vars,
            span: self.span,
        }
    }
}

/// The clauses of a list, each as what it stands for.
pub closed spec fn clause_drafts<S: Span>(clauses: Seq<TemporaryClause<S>>) -> Seq<ClauseDraft<S>> {
    clauses.map_values(|c: TemporaryClause<S>| c@)
}

/// A visitor provided to frontend IR types in order to build a `ValidatedQuery`.
pub struct QueryVisitor<S: Span> {
    clauses: Vec<TemporaryClause<S>>,
}

impl<S: Span + Copy> QueryVisitor<S> {
    /// The clauses that have been finished.
    pub closed spec fn drafts(&self) -> Seq<ClauseDraft<S>> {
        clause_drafts(self.clauses@)
    }

    /// Creates a new `QueryVisitor`, without any clauses.
    pub fn new() -> (visitor: QueryVisitor<S>)
        ensures
            visitor.drafts() == Seq::<ClauseDraft<S>>::empty(),
    {
        let visitor = QueryVisitor { clauses: Vec::new() };
        assert(visitor.drafts() =~= Seq::empty());
        visitor
    }

    /// A method used to attach a `Clause` to a `ValidatedQuery`.
    pub fn visit_clause(self, name: &str, head_span: S, span: S) -> (visitor: ClauseVisitor<S>)
        ensures
            visitor.drafts() == self.drafts(),
            visitor.draft() == (ClauseDraft {
                name: name@,
                args: Seq::empty(),
                head_span,
                body: Seq::empty(),
                vars: 0,
                span,
            }),
            visitor.names() == Seq::<(Seq<char>, u32)>::empty(),
            visitor.seen() == Seq::<ValueModel<S>>::empty(),
            visitor.next() == 0,
    {
        let visitor = ClauseVisitor {
            name: name.to_owned(),
            args: Vec::new(),
            body: Vec::new(),
            head_span,
            span,
            var_pool: Pool::new(),
            query_visitor: self,
        };
        assert(visitor.draft().args =~= Seq::empty());
        assert(visitor.draft().body =~= Seq::empty());
        visitor
    }

    /// A method used to finish building the `ValidatedQuery` by filling in the `goal` field.
    pub fn visit_goal(self, name: &str, span: S) -> (visitor: GoalVisitor<S>)
        ensures
            visitor.drafts() == self.drafts(),
            visitor.goal() == (LiteralDraft {
                negated: false,
                name: name@,
                args: Seq::empty(),
                span,
            }),
            visitor.names() == Seq::<(Seq<char>, u32)>::empty(),
            visitor.seen() == Seq::<ValueModel<S>>::empty(),
            visitor.next() == 0,
    {
        let visitor = GoalVisitor {
            name: name.to_owned(),
            args: Vec::new(),
            span,
            var_pool: Pool::new(),
            query_visitor: self,
        };
        assert(visitor.goal().args =~= Seq::empty());
        visitor
    }
}

/// A visitor provided to frontend IR types in order to attach `Clause`s to a `ValidatedQuery`.
pub struct ClauseVisitor<S: Span> {
    name: String,
    args: Vec<ValidatedValue<S>>,
    body: Vec<TemporaryLiteral<S>>,
    head_span: S,
    span: S,
    var_pool: Pool,
    query_visitor: QueryVisitor<S>,
}

impl<S: Span + Copy> ClauseVisitor<S> {
    /// The clauses that have been finished before this one.
    pub closed spec fn drafts(&self) -> Seq<ClauseDraft<S>> {
        self.query_visitor.drafts()
    }

    /// The clause as far as it has been built.
    pub closed spec fn draft(&self) -> ClauseDraft<S> {
        ClauseDraft {
            name: self.name@,
            args: args_view(self.args@),
            head_span: self.head_span,
            body: literal_drafts(self.body@),
            vars: self.var_pool.next_index,
            span: self.span,
        }
    }

    /// Adds a possibly-negated predicate to the body of the clause.
    pub fn visit_body(self, negated: bool, name: &str, span: S) -> (visitor: PredicateVisitor<S>)
        ensures
            visitor.drafts() == self.drafts(),
            visitor.draft() == self.draft(),
            visitor.literal() == (LiteralDraft { negated, name: name@, args: Seq::empty(), span }),
            visitor.names() == self.names(),
            visitor.next() == self.next(),
            visitor.seen() == Seq::<ValueModel<S>>::empty(),
    {
        let visitor = PredicateVisitor {
            negated,
            name: name.to_owned(),
            args: Vec::new(),
            span,
            clause_visitor: self,
        };
        assert(visitor.literal().args =~= Seq::empty());
        visitor
    }

    /// Finishes the clause.
    pub fn finish(self) -> (visitor: QueryVisitor<S>)
        ensures
            visitor.drafts() == self.drafts().push(self.draft()),
    {
        let ghost before = self.query_visitor.drafts();
        let ghost draft = self.draft();
        let mut visitor = self.query_visitor;
        let clause = TemporaryClause {
            name: self.name,
            args: self.args,
            head_span: self.head_span,
            body: self.body,
            vars: self.var_pool.next_index,
            span: self.span,
        };
        assert(clause@ == draft);
        visitor.clauses.push(clause);
        assert(visitor.drafts() =~= before.push(draft));
        visitor
    }
}

impl<S: Span + Copy> ValueVisitor<S> for ClauseVisitor<S> {
    closed spec fn seen(&self) -> Seq<ValueModel<S>> {
        args_view(self.args@)
    }

    closed spec fn around(&self) -> Around<S> {
        Around {
            drafts: self.drafts(),
            clause: Some(ClauseDraft { args: Seq::empty(), vars: 0, ..self.draft() }),
            literal: None,
        }
    }

    closed spec fn names(&self) -> Seq<(Seq<char>, u32)> {
        self.var_pool.entries()
    }

    closed spec fn next(&self) -> u32 {
        self.var_pool.next_index
    }

    fn has_room(&self) -> (r: bool) {
        self.var_pool.next_index < u32::MAX
    }

    /// Adds a hole as an argument to the head of the clause. This will always cause an error when
    /// validating the `ValidatedClause`.
    fn visit_arg_hole(&mut self, span: S)
        ensures
            final(self).drafts() == old(self).drafts(),
            final(self).draft() == (ClauseDraft {
                args: final(self).seen(),
                vars: final(self).next(),
                ..old(self).draft()
            }),
    {
        let ghost before = args_view(self.args@);
        let var = self.var_pool.intern_dummy();
        let value = ValidatedValue { inner: ValidatedValueInner::Var(var), span };
        self.args.push(value);
        assert(args_view(self.args@) =~= before.push(value@));
    }

    /// Adds an string literal as an argument to the head of the clause.
    fn visit_arg_string(&mut self, string: &str, span: S)
        ensures
            final(self).drafts() == old(self).drafts(),
            final(self).draft() == (ClauseDraft {
                args: final(self).seen(),
                vars: final(self).next(),
                ..old(self).draft()
            }),
    {
        let ghost before = args_view(self.args@);
        let value = ValidatedValue { inner: ValidatedValueInner::Str(string.to_owned()), span };
        self.args.push(value);
        assert(args_view(self.args@) =~= before.push(value@));
    }

    /// Adds a variable as an argument to the head of the clause.
    fn visit_arg_var(&mut self, var: &str, span: S)
        ensures
            final(self).drafts() == old(self).drafts(),
            final(self).draft() == (ClauseDraft {
                args: final(self).seen(),
                vars: final(self).next(),
                ..old(self).draft()
            }),
    {
        let ghost before = args_view(self.args@);
        let var = self.var_pool.intern(var.to_owned());
        let value = ValidatedValue { inner: ValidatedValueInner::Var(var), span };
        self.args.push(value);
        assert(args_view(self.args@) =~= before.push(value@));
    }
}

/// A visitor provided to frontend IR types in order to attach arguments to a predicates in the
/// body of a clause.
pub struct PredicateVisitor<S: Span> {
    negated: bool,
    name: String,
    args: Vec<ValidatedValue<S>>,
    span: S,
    clause_visitor: ClauseVisitor<S>,
}

impl<S: Span + Copy> PredicateVisitor<S> {
    /// The clauses that have been finished before the clause of this literal.
    pub closed spec fn drafts(&self) -> Seq<ClauseDraft<S>> {
        self.clause_visitor.drafts()
    }

    /// The clause of this literal, as far as it had been built before the literal,
    /// with the variables met up to now.
    pub closed spec fn draft(&self) -> ClauseDraft<S> {
        self.clause_visitor.draft()
    }

    /// The literal as far as it has been built.
    pub closed spec fn literal(&self) -> LiteralDraft<S> {
        LiteralDraft {
            negated: self.negated,
            name: self.name@,
            args: args_view(self.args@),
            span: self.span,
        }
    }

    /// Finishes adding variables.
    pub fn finish(self) -> (visitor: ClauseVisitor<S>)
        ensures
            visitor.drafts() == self.drafts(),
            visitor.draft() == (ClauseDraft {
                body: self.draft().body.push(self.literal()),
                ..self.draft()
            }),
            visitor.names() == self.names(),
            visitor.next() == self.next(),
            visitor.seen() == self.draft().args,
    {
        let ghost before = literal_drafts(self.clause_visitor.body@);
        let ghost added = self.literal();
        let mut visitor = self.clause_visitor;
        let literal = TemporaryLiteral {
            negated: self.negated,
            name: self.name,
            args: self.args,
            span: self.span,
        };
        assert(literal@ == added);
        visitor.body.push(literal);
        assert(literal_drafts(visitor.body@) =~= before.push(added));
        visitor
    }
}

impl<S: Span + Copy> ValueVisitor<S> for PredicateVisitor<S> {
    closed spec fn seen(&self) -> Seq<ValueModel<S>> {
        args_view(self.args@)
    }

    closed spec fn around(&self) -> Around<S> {
        Around {
            drafts: self.drafts(),
            clause: Some(ClauseDraft { vars: 0, ..self.draft() }),
            literal: Some(LiteralDraft { args: Seq::empty(), ..self.literal() }),
        }
    }

    closed spec fn names(&self) -> Seq<(Seq<char>, u32)> {
        self.clause_visitor.var_pool.entries()
    }

    closed spec fn next(&self) -> u32 {
        self.clause_visitor.var_pool.next_index
    }

    fn has_room(&self) -> (r: bool) {
        self.clause_visitor.var_pool.next_index < u32::MAX
    }

    /// Adds a hole as an argument to the predicate.
    fn visit_arg_hole(&mut self, span: S)
        ensures
            final(self).drafts() == old(self).drafts(),
            final(self).draft() == (ClauseDraft { vars: final(self).next(), ..old(self).draft() }),
            final(self).literal() == (LiteralDraft {
                args: final(self).seen(),
                ..old(self).literal()
            }),
    {
        let ghost before = args_view(self.args@);
        let var = self.clause_visitor.var_pool.intern_dummy();
        let value = ValidatedValue { inner: ValidatedValueInner::Var(var), span };
        self.args.push(value);
        assert(args_view(self.args@) =~= before.push(value@));
    }

    /// Adds an string literal as an argument to the predicate.
    fn visit_arg_string(&mut self, string: &str, span: S)
        ensures
            final(self).drafts() == old(self).drafts(),
            final(self).draft() == (ClauseDraft { vars: final(self).next(), ..old(self).draft() }),
            final(self).literal() == (LiteralDraft {
                args: final(self).seen(),
                ..old(self).literal()
            }),
    {
        let ghost before = args_view(self.args@);
        let value = ValidatedValue { inner: ValidatedValueInner::Str(string.to_owned()), span };
        self.args.push(value);
        assert(args_view(self.args@) =~= before.push(value@));
    }

    /// Adds a variable as an argument to the predicate.
    fn visit_arg_var(&mut self, var: &str, span: S)
        ensures
            final(self).drafts() == old(self).drafts(),
            final(self).draft() == (ClauseDraft { vars: final(self).next(), ..old(self).draft() }),
            final(self).literal() == (LiteralDraft {
                args: final(self).seen(),
                ..old(self).literal()
            }),
    {
        let ghost before = args_view(self.args@);
        let var = self.clause_visitor.var_pool.intern(var.to_owned());
        let value = ValidatedValue { inner: ValidatedValueInner::Var(var), span };
        self.args.push(value);
        assert(args_view(self.args@) =~= before.push(value@));
    }
}

/// A visitor provided to frontend IR types in order to fill in the `goal` field of a
/// `ValidatedQuery`.
pub struct GoalVisitor<S: Span> {
    name: String,
    args: Vec<ValidatedValue<S>>,
    span: S,
    var_pool: Pool,
    query_visitor: QueryVisitor<S>,
}

impl<S: Span + Copy> GoalVisitor<S> {
    /// The clauses of the query.
    pub closed spec fn drafts(&self) -> Seq<ClauseDraft<S>> {
        self.query_visitor.drafts()
    }

    /// The goal as far as it has been built.
    pub closed spec fn goal(&self) -> LiteralDraft<S> {
        LiteralDraft { negated: false, name: self.name@, args: args_view(self.args@), span: self.span }
    }
}

impl<S: Span + Copy> ValueVisitor<S> for GoalVisitor<S> {
    closed spec fn seen(&self) -> Seq<ValueModel<S>> {
        args_view(self.args@)
    }

    closed spec fn around(&self) -> Around<S> {
        Around {
            drafts: self.drafts(),
            clause: None,
            literal: Some(LiteralDraft { args: Seq::empty(), ..self.goal() }),
        }
    }

    closed spec fn names(&self) -> Seq<(Seq<char>, u32)> {
        self.var_pool.entries()
    }

    closed spec fn next(&self) -> u32 {
        self.var_pool.next_index
    }

    fn has_room(&self) -> (r: bool) {
        self.var_pool.next_index < u32::MAX
    }

    /// Adds a hole as an argument to the goal.
    fn visit_arg_hole(&mut self, span: S)
        ensures
            final(self).drafts() == old(self).drafts(),
            final(self).goal() == (LiteralDraft { args: final(self).seen(), ..old(self).goal() }),
    {
        let ghost before = args_view(self.args@);
        let var = self.var_pool.intern_dummy();
        let value = ValidatedValue { inner: ValidatedValueInner::Var(var), span };
        self.args.push(value);
        assert(args_view(self.args@) =~= before.push(value@));
    }

    /// Adds an string literal as an argument to the goal.
    fn visit_arg_string(&mut self, string: &str, span: S)
        ensures
            final(self).drafts() == old(self).drafts(),
            final(self).goal() == (LiteralDraft { args: final(self).seen(), ..old(self).goal() }),
    {
        let ghost before = args_view(self.args@);
        let value = ValidatedValue { inner: ValidatedValueInner::Str(string.to_owned()), span };
        self.args.push(value);
        assert(args_view(self.args@) =~= before.push(value@));
    }

    /// Adds a variable as an argument to the goal.
    fn visit_arg_var(&mut self, var: &str, span: S)
        ensures
            final(self).drafts() == old(self).drafts(),
            final(self).goal() == (LiteralDraft { args: final(self).seen(), ..old(self).goal() }),
    {
        let ghost before = args_view(self.args@);
        let var = self.var_pool.intern(var.to_owned());
        let value = ValidatedValue { inner: ValidatedValueInner::Var(var), span };
        self.args.push(value);
        assert(args_view(self.args@) =~= before.push(value@));
    }
}

/// The functors of the built-in predicates, in the order of their names from -1 down.
pub open spec fn builtin_table() -> Seq<(Seq<char>, nat)> {
    seq![
        ("="@, 2nat),
        ("atom"@, 1nat),
        ("name"@, 3nat),
        ("edge"@, 3nat),
        ("tag"@, 3nat),
        ("blob"@, 4nat),
    ]
}

/// A table of functors with `f` in it: at its end, if it was missing.
pub open spec fn with_functor(table: Seq<(Seq<char>, nat)>, f: (Seq<char>, nat)) -> Seq<
    (Seq<char>, nat),
> {
    if position(table, f) < table.len() {
        table
    } else {
        table.push(f)
    }
}

/// The table with the functors that the literals of a body call, in their order.
pub open spec fn with_body<S>(table: Seq<(Seq<char>, nat)>, body: Seq<LiteralDraft<S>>) -> Seq<
    (Seq<char>, nat),
>
    decreases body.len(),
{
    if body.len() == 0 {
        table
    } else {
        with_functor(with_body(table, body.drop_last()), (body.last().name, body.last().args.len()))
    }
}

/// The table with the functors of the clauses: of each its head, then what its body calls.
pub open spec fn with_clauses<S>(table: Seq<(Seq<char>, nat)>, drafts: Seq<ClauseDraft<S>>) -> Seq<
    (Seq<char>, nat),
>
    decreases drafts.len(),
{
    if drafts.len() == 0 {
        table
    } else {
        let c = drafts.last();
        with_body(with_functor(with_clauses(table, drafts.drop_last()), (c.name, c.args.len())), c.body)
    }
}

/// The calls that the literals of a body add behind the calls `acc`: each from
/// the predicate called to `caller`, unless it calls that predicate itself.
pub open spec fn calls_of_body<S>(
    table: Seq<(Seq<char>, nat)>,
    caller: nat,
    body: Seq<LiteralDraft<S>>,
    acc: Seq<(usize, usize)>,
) -> Seq<(usize, usize)>
    decreases body.len(),
{
    if body.len() == 0 {
        acc
    } else {
        let before = calls_of_body(table, caller, body.drop_last(), acc);
        let callee = position(table, (body.last().name, body.last().args.len()));
        if callee < table.len() && caller < table.len() && callee != caller {
            before.push((callee as usize, caller as usize))
        } else {
            before
        }
    }
}

/// The calls between the predicates of the clauses.
pub open spec fn calls_of<S>(table: Seq<(Seq<char>, nat)>, drafts: Seq<ClauseDraft<S>>) -> Seq<
    (usize, usize),
>
    decreases drafts.len(),
{
    if drafts.len() == 0 {
        Seq::empty()
    } else {
        let c = drafts.last();
        calls_of_body(
            table,
            position(table, (c.name, c.args.len())),
            c.body,
            calls_of(table, drafts.drop_last()),
        )
    }
}

/// The number of predicates that are not built in among the first `upto` of the order.
pub open spec fn rank(order: Seq<usize>, upto: nat) -> nat
    decreases upto,
{
    if upto == 0 {
        0
    } else if order[upto - 1] >= 6 {
        rank(order, (upto - 1) as nat) + 1
    } else {
        rank(order, (upto - 1) as nat)
    }
}

/// The name of the predicate at `f` in the table: -1 to -6 for the six built-ins
/// at its start, else the number of predicates not built in that stand before it
/// in the order of the strata.
pub open spec fn name_at(order: Seq<usize>, f: nat) -> int {
    if f < 6 {
        -(f + 1)
    } else {
        rank(order, position(order, f as usize)) as int
    }
}

/// Why a query could not be assembled.
pub enum Failure {
    /// The calls between the predicates form a cycle through more than one predicate.
    IllegalRecursion,
    /// A call names a predicate that is not in the table of functors. `clause` is
    /// the place of its clause, or the number of clauses for the goal.
    NoSuchClause { clause: int },
    /// There are more predicates than names.
    TooMany,
}

/// What the names of the predicates are known by: the table of functors and the
/// order of the strata.
pub struct Naming {
    pub table: Seq<(Seq<char>, nat)>,
    pub order: Seq<usize>,
}

/// A call with the name of its predicate, if the table holds its functor.
pub open spec fn named_call<S>(
    naming: Naming,
    name: Seq<char>,
    args: Seq<ValueModel<S>>,
    span: S,
) -> Option<CallModel<S>> {
    let f = position(naming.table, (name, args.len()));
    if f < naming.table.len() {
        Some(CallModel { name: name_at(naming.order, f) as i32, args, span })
    } else {
        None
    }
}

/// The literals of a body with the names of their predicates, behind those of
/// `acc`, if the table holds the functor of each.
pub open spec fn named_body<S>(
    naming: Naming,
    body: Seq<LiteralDraft<S>>,
    acc: Seq<(bool, CallModel<S>)>,
) -> Option<Seq<(bool, CallModel<S>)>>
    decreases body.len(),
{
    if body.len() == 0 {
        Some(acc)
    } else {
        match named_body(naming, body.drop_last(), acc) {
            None => None,
            Some(done) => match named_call(
                naming,
                body.last().name,
                body.last().args,
                body.last().span,
            ) {
                None => None,
                Some(p) => Some(done.push((body.last().negated, p))),
            },
        }
    }
}

/// A clause with the names of its predicates, if the table holds the functor of each.
pub open spec fn named_clause<S>(naming: Naming, c: ClauseDraft<S>) -> Option<RuleModel<S>> {
    match named_call(naming, c.name, c.args, c.head_span) {
        None => None,
        Some(head) => match named_body(naming, c.body, Seq::empty()) {
            None => None,
            Some(body) => Some(RuleModel { head, body, vars: c.vars, span: c.span }),
        },
    }
}

/// The clauses with the names of their predicates, or the place of the first
/// clause with a functor that the table does not hold.
pub open spec fn named_clauses<S>(naming: Naming, drafts: Seq<ClauseDraft<S>>) -> Result<
    Seq<RuleModel<S>>,
    int,
>
    decreases drafts.len(),
{
    if drafts.len() == 0 {
        Ok(Seq::empty())
    } else {
        match named_clauses(naming, drafts.drop_last()) {
            Err(at) => Err(at),
            Ok(done) => match named_clause(naming, drafts.last()) {
                None => Err(drafts.len() - 1),
                Some(c) => Ok(done.push(c)),
            },
        }
    }
}

/// Among the first `upto` clauses, those with the head name `name`, in their order.
pub open spec fn with_name<S>(clauses: Seq<RuleModel<S>>, name: int, upto: nat) -> Seq<RuleModel<S>>
    decreases upto,
{
    if upto == 0 {
        Seq::empty()
    } else if clauses[upto - 1].head.name == name {
        with_name(clauses, name, (upto - 1) as nat).push(clauses[upto - 1])
    } else {
        with_name(clauses, name, (upto - 1) as nat)
    }
}

/// The clauses in the order of their head names, from -6 up to but not including
/// `upto`; clauses of one name stay in their order.
pub open spec fn by_name<S>(clauses: Seq<RuleModel<S>>, upto: int) -> Seq<RuleModel<S>>
    decreases upto + 6,
{
    if upto <= -6 {
        Seq::empty()
    } else {
        by_name(clauses, upto - 1) + with_name(clauses, upto - 1, clauses.len())
    }
}

/// The query that clauses and a goal make, or the reason why they make none.
///
/// The functors get their places in a table: the built-ins first, then those of
/// the clauses as they are met. The order of the strata must hold every one of
/// them. Each predicate that is not built in is named by its rank in that order,
/// and the clauses are put in the order of their head names.
pub open spec fn assemble<S>(
    drafts: Seq<ClauseDraft<S>>,
    goal: LiteralDraft<S>,
    goal_vars: u32,
    span: S,
) -> Result<ProgramModel<S>, Failure> {
    let table = with_clauses(builtin_table(), drafts);
    let order = strata(table.len(), calls_of(table, drafts).to_set());
    let naming = Naming { table, order };
    if table.len() > i32::MAX {
        Err(Failure::TooMany)
    } else if !complete(order, table.len()) {
        Err(Failure::IllegalRecursion)
    } else {
        match named_clauses(naming, drafts) {
            Err(at) => Err(Failure::NoSuchClause { clause: at }),
            Ok(clauses) => match named_call(naming, goal.name, goal.args, goal.span) {
                None => Err(Failure::NoSuchClause { clause: drafts.len() as int }),
                Some(goal) => Ok(
                    ProgramModel {
                        clauses: by_name(clauses, table.len() - 6),
                        goal,
                        goal_vars,
                        span,
                    },
                ),
            },
        }
    }
}

/// Whether the error names the call with the given name, arguments and span as
/// one whose functor the table does not hold.
pub open spec fn call_missing<S: Span>(
    e: ValidationError<S>,
    table: Seq<(Seq<char>, nat)>,
    name: Seq<char>,
    args: Seq<ValueModel<S>>,
    span: S,
) -> bool {
    match e {
        ValidationError::NoSuchClauseBuilding { argn, name: missing, span: at } => argn
            == args.len() && missing@ == name && at == span && position(table, (name, args.len()))
            >= table.len(),
        _ => false,
    }
}

/// Whether the error names the head or a literal of the clause as a call whose
/// functor the table does not hold.
pub open spec fn draft_missing<S: Span>(
    e: ValidationError<S>,
    table: Seq<(Seq<char>, nat)>,
    c: ClauseDraft<S>,
) -> bool {
    ||| call_missing(e, table, c.name, c.args, c.head_span)
    ||| exists|i: int|
        0 <= i < c.body.len() && call_missing(
            e,
            table,
            (#[trigger] c.body[i]).name,
            c.body[i].args,
            c.body[i].span,
        )
}

/// Whether an error says why a query could not be assembled: for a missing
/// functor, it names the call in the clause or the goal where it is missing.
pub open spec fn reports<S: Span>(
    e: ValidationError<S>,
    failure: Failure,
    drafts: Seq<ClauseDraft<S>>,
    goal: LiteralDraft<S>,
) -> bool {
    let table = with_clauses(builtin_table(), drafts);
    match failure {
        Failure::IllegalRecursion => e is IllegalRecursion,
        Failure::NoSuchClause { clause } => if 0 <= clause < drafts.len() {
            draft_missing(e, table, drafts[clause])
        } else {
            call_missing(e, table, goal.name, goal.args, goal.span)
        },
        Failure::TooMany => e is TooMany,
    }
}

/// The functors of the built-in predicates.
fn builtins() -> (table: Vec<(String, usize)>)
    ensures
        table_view(table@) == builtin_table(),
{
    let mut table: Vec<(String, usize)> = Vec::new();
    table.push(("=".to_owned(), 2));
    table.push(("atom".to_owned(), 1));
    table.push(("name".to_owned(), 3));
    table.push(("edge".to_owned(), 3));
    table.push(("tag".to_owned(), 3));
    table.push(("blob".to_owned(), 4));
    assert(table_view(table@) =~= builtin_table());
    table
}

/// Puts a functor at the end of the table unless the table holds it.
fn add_functor(table: &mut Vec<(String, usize)>, name: &String, argn: usize)
    ensures
        table_view(final(table)@) == with_functor(table_view(old(table)@), (name@, argn as nat)),
{
    let at = find_functor(table, name, argn);
    if at == table.len() {
        let ghost before = table_view(table@);
        table.push((name.clone(), argn));
        assert(table_view(table@) =~= before.push((name@, argn as nat)));
    }
}

/// The table of the functors of the built-ins and of the clauses.
fn table_for<S: Span + Copy>(clauses: &Vec<TemporaryClause<S>>) -> (table: Vec<(String, usize)>)
    ensures
        table_view(table@) == with_clauses(builtin_table(), clause_drafts(clauses@)),
{
    let ghost drafts = clause_drafts(clauses@);
    let mut table = builtins();
    let mut k: usize = 0;
    assert(drafts.subrange(0, 0) =~= Seq::empty());
    while k < clauses.len()
        invariant
            k <= clauses.len(),
            drafts == clause_drafts(clauses@),
            table_view(table@) == with_clauses(builtin_table(), drafts.subrange(0, k as int)),
        decreases clauses.len() - k,
    {
        let c = &clauses[k];
        let ghost upto = drafts.subrange(0, k + 1);
        proof {
            assert(upto.drop_last() =~= drafts.subrange(0, k as int));
            assert(upto.last() == c@);
        }
        add_functor(&mut table, &c.name, c.args.len());
        let ghost start = table_view(table@);
        let ghost body = c@.body;
        let mut l: usize = 0;
        assert(body.subrange(0, 0) =~= Seq::empty());
        while l < c.body.len()
            invariant
                l <= c.body.len(),
                body == c@.body,
                body == literal_drafts(c.body@),
                table_view(table@) == with_body(start, body.subrange(0, l as int)),
            decreases c.body.len() - l,
        {
            let p = &c.body[l];
            proof {
                let part = body.subrange(0, l + 1);
                assert(part.drop_last() =~= body.subrange(0, l as int));
                assert(part.last() == p@);
            }
            add_functor(&mut table, &p.name, p.args.len());
            l += 1;
        }
        assert(body.subrange(0, c.body.len() as int) =~= body);
        k += 1;
    }
    assert(drafts.subrange(0, clauses.len() as int) =~= drafts);
    table
}

/// The calls between the predicates of the clauses.
fn calls_for<S: Span + Copy>(clauses: &Vec<TemporaryClause<S>>, table: &Vec<(String, usize)>) -> (edges:
    Vec<(usize, usize)>)
    ensures
        edges@ == calls_of(table_view(table@), clause_drafts(clauses@)),
        forall|k: int|
            0 <= k < edges.len() ==> (#[trigger] edges@[k]).0 < table.len() && edges@[k].1
                < table.len(),
{
    let ghost drafts = clause_drafts(clauses@);
    let ghost tv = table_view(table@);
    let mut edges: Vec<(usize, usize)> = Vec::new();
    let mut k: usize = 0;
    assert(drafts.subrange(0, 0) =~= Seq::empty());
    while k < clauses.len()
        invariant
            k <= clauses.len(),
            drafts == clause_drafts(clauses@),
            tv == table_view(table@),
            edges@ == calls_of(tv, drafts.subrange(0, k as int)),
            forall|m: int|
                0 <= m < edges.len() ==> (#[trigger] edges@[m]).0 < table.len() && edges@[m].1
                    < table.len(),
        decreases clauses.len() - k,
    {
        let c = &clauses[k];
        let ghost upto = drafts.subrange(0, k + 1);
        let ghost before = edges@;
        proof {
            assert(upto.drop_last() =~= drafts.subrange(0, k as int));
            assert(upto.last() == c@);
        }
        let caller = find_functor(table, &c.name, c.args.len());
        let ghost body = c@.body;
        let mut l: usize = 0;
        assert(body.subrange(0, 0) =~= Seq::empty());
        while l < c.body.len()
            invariant
                l <= c.body.len(),
                body == c@.body,
                body == literal_drafts(c.body@),
                tv == table_view(table@),
                caller == position(tv, (c@.name, c@.args.len())),
                edges@ == calls_of_body(tv, caller as nat, body.subrange(0, l as int), before),
                forall|m: int|
                    0 <= m < edges.len() ==> (#[trigger] edges@[m]).0 < table.len() && edges@[m].1
                        < table.len(),
            decreases c.body.len() - l,
        {
            let p = &c.body[l];
            proof {
                let part = body.subrange(0, l + 1);
                assert(part.drop_last() =~= body.subrange(0, l as int));
                assert(part.last() == p@);
            }
            let callee = find_functor(table, &p.name, p.args.len());
            if callee < table.len() && caller < table.len() && callee != caller {
                edges.push((callee, caller));
            }
            l += 1;
        }
        assert(body.subrange(0, c.body.len() as int) =~= body);
        k += 1;
    }
    assert(drafts.subrange(0, clauses.len() as int) =~= drafts);
    edges
}

/// The number of predicates that are not built in among the first `upto` of the order.
fn rank_in(order: &Vec<usize>, upto: usize) -> (r: usize)
    requires
        upto <= order.len(),
    ensures
        r == rank(order@, upto as nat),
        r <= upto,
{
    let mut r: usize = 0;
    let mut i: usize = 0;
    while i < upto
        invariant
            i <= upto <= order.len(),
            r == rank(order@, i as nat),
            r <= i,
        decreases upto - i,
    {
        if order[i] >= 6 {
            r += 1;
        }
        i += 1;
    }
    r
}

/// The name of the predicate at `f` in the table.
fn name_for(order: &Vec<usize>, f: usize) -> (r: i32)
    requires
        order.len() <= i32::MAX,
    ensures
        r == name_at(order@, f as nat),
{
    if f < 6 {
        let low: i32 = f as i32;
        0 - (low + 1)
    } else {
        let at = find_number(order, f);
        rank_in(order, at) as i32
    }
}

/// A copy of a list of values.
fn copy_values<S: Span + Copy>(args: &Vec<ValidatedValue<S>>) -> (r: Vec<ValidatedValue<S>>)
    ensures
        args_view(r@) == args_view(args@),
{
    let mut out: Vec<ValidatedValue<S>> = Vec::new();
    let mut i: usize = 0;
    while i < args.len()
        invariant
            i <= args.len(),
            out.len() == i,
            forall|k: int| 0 <= k < i ==> out@[k]@ == args@[k]@,
        decreases args.len() - i,
    {
        out.push(args[i].duplicate());
        i += 1;
    }
    assert(args_view(out@) =~= args_view(args@));
    out
}

/// The naming that a table and an order of the strata make.
pub open spec fn naming_of(table: Vec<(String, usize)>, order: Vec<usize>) -> Naming {
    Naming { table: table_view(table@), order: order@ }
}

/// A call with the name of its predicate, or the error that the table does not
/// hold its functor.
fn name_call<S: Span + Copy>(
    table: &Vec<(String, usize)>,
    order: &Vec<usize>,
    name: &String,
    args: &Vec<ValidatedValue<S>>,
    span: S,
) -> (r: Result<ValidatedPredicate<S>, ValidationError<S>>)
    requires
        order.len() <= i32::MAX,
    ensures
        match named_call(naming_of(*table, *order), name@, args_view(args@), span) {
            Some(p) => r is Ok && r->Ok_0@ == p,
            None => r is Err && call_missing(
                r->Err_0,
                table_view(table@),
                name@,
                args_view(args@),
                span,
            ),
        },
{
    let f = find_functor(table, name, args.len());
    if f == table.len() {
        return Err(
            ValidationError::NoSuchClauseBuilding { argn: args.len(), name: name.clone(), span },
        );
    }
    Ok(ValidatedPredicate { name: name_for(order, f), args: copy_values(args), span })
}

/// A clause with the names of its predicates, or the error that the table does
/// not hold one of its functors.
fn name_clause<S: Span + Copy>(
    table: &Vec<(String, usize)>,
    order: &Vec<usize>,
    c: &TemporaryClause<S>,
) -> (r: Result<ValidatedClause<S>, ValidationError<S>>)
    requires
        order.len() <= i32::MAX,
    ensures
        match named_clause(naming_of(*table, *order), c@) {
            Some(m) => r is Ok && r->Ok_0@ == m,
            None => r is Err && draft_missing(r->Err_0, table_view(table@), c@),
        },
{
    let ghost naming = naming_of(*table, *order);
    let head = match name_call(table, order, &c.name, &c.args, c.head_span) {
        Ok(head) => head,
        Err(e) => {
            return Err(e);
        },
    };
    let ghost drafts = c@.body;
    let mut body: Vec<(bool, ValidatedPredicate<S>)> = Vec::new();
    let mut l: usize = 0;
    assert(drafts.subrange(0, 0) =~= Seq::empty());
    assert(literals_view(body@) =~= Seq::empty());
    while l < c.body.len()
        invariant
            l <= c.body.len(),
            order.len() <= i32::MAX,
            naming == naming_of(*table, *order),
            drafts == c@.body,
            drafts == literal_drafts(c.body@),
            named_body(naming, drafts.subrange(0, l as int), Seq::empty()) == Some(
                literals_view(body@),
            ),
        decreases c.body.len() - l,
    {
        let p = &c.body[l];
        proof {
            let part = drafts.subrange(0, l + 1);
            assert(part.drop_last() =~= drafts.subrange(0, l as int));
            assert(part.last() == p@);
        }
        match name_call(table, order, &p.name, &p.args, p.span) {
            Ok(call) => {
                let ghost before = literals_view(body@);
                let ghost cv = call@;
                body.push((p.negated, call));
                assert(literals_view(body@) =~= before.push((p.negated, cv)));
            },
            Err(e) => {
                proof {
                    assert(named_body(naming, drafts.subrange(0, l + 1), Seq::empty()) is None);
                    lemma_named_body_none(naming, drafts, l + 1);
                }
                return Err(e);
            },
        }
        l += 1;
    }
    assert(drafts.subrange(0, c.body.len() as int) =~= drafts);
    Ok(ValidatedClause { head, body, vars: c.vars, span: c.span })
}

/// Once a functor of the first `j` literals is missing, the body has no names.
proof fn lemma_named_body_none<S>(naming: Naming, body: Seq<LiteralDraft<S>>, j: int)
    requires
        0 <= j <= body.len(),
        named_body(naming, body.subrange(0, j), Seq::empty()) is None,
    ensures
        named_body(naming, body, Seq::empty()) is None,
    decreases body.len() - j,
{
    if j < body.len() {
        assert(body.subrange(0, j + 1).drop_last() =~= body.subrange(0, j));
        lemma_named_body_none(naming, body, j + 1);
    } else {
        assert(body.subrange(0, j) =~= body);
    }
}

/// Once naming fails among the first `j` clauses, it fails at the same place among all.
proof fn lemma_named_clauses_err<S>(naming: Naming, drafts: Seq<ClauseDraft<S>>, j: int)
    requires
        0 <= j <= drafts.len(),
        named_clauses(naming, drafts.subrange(0, j)) is Err,
    ensures
        named_clauses(naming, drafts) == named_clauses(naming, drafts.subrange(0, j)),
    decreases drafts.len() - j,
{
    if j < drafts.len() {
        assert(drafts.subrange(0, j + 1).drop_last() =~= drafts.subrange(0, j));
        lemma_named_clauses_err(naming, drafts, j + 1);
    } else {
        assert(drafts.subrange(0, j) =~= drafts);
    }
}

/// The clauses with the names of their predicates.
fn name_clauses<S: Span + Copy>(
    table: &Vec<(String, usize)>,
    order: &Vec<usize>,
    clauses: &Vec<TemporaryClause<S>>,
) -> (r: Result<Vec<ValidatedClause<S>>, ValidationError<S>>)
    requires
        order.len() <= i32::MAX,
    ensures
        match named_clauses(naming_of(*table, *order), clause_drafts(clauses@)) {
            Ok(m) => r is Ok && rules_view(r->Ok_0@) == m,
            Err(at) => r is Err && 0 <= at < clauses.len() && draft_missing(
                r->Err_0,
                table_view(table@),
                clause_drafts(clauses@)[at],
            ),
        },
{
    let ghost naming = naming_of(*table, *order);
    let ghost drafts = clause_drafts(clauses@);
    let mut out: Vec<ValidatedClause<S>> = Vec::new();
    let mut k: usize = 0;
    assert(drafts.subrange(0, 0) =~= Seq::empty());
    assert(rules_view(out@) =~= Seq::empty());
    while k < clauses.len()
        invariant
            k <= clauses.len(),
            order.len() <= i32::MAX,
            naming == naming_of(*table, *order),
            drafts == clause_drafts(clauses@),
            named_clauses(naming, drafts.subrange(0, k as int)) == Ok::<Seq<RuleModel<S>>, int>(
                rules_view(out@),
            ),
        decreases clauses.len() - k,
    {
        proof {
            let upto = drafts.subrange(0, k + 1);
            assert(upto.drop_last() =~= drafts.subrange(0, k as int));
            assert(upto.last() == clauses@[k as int]@);
        }
        match name_clause(table, order, &clauses[k]) {
            Ok(c) => {
                let ghost before = rules_view(out@);
                let ghost cv = c@;
                out.push(c);
                assert(rules_view(out@) =~= before.push(cv));
            },
            Err(e) => {
                proof {
                    assert(named_clauses(naming, drafts.subrange(0, k + 1)) is Err);
                    lemma_named_clauses_err(naming, drafts, k + 1);
                }
                return Err(e);
            },
        }
        k += 1;
    }
    assert(drafts.subrange(0, clauses.len() as int) =~= drafts);
    Ok(out)
}

/// The clauses in the order of their head names, from -6 up to but not including `upto`.
fn sort_by_name<S: Span + Copy>(clauses: &Vec<ValidatedClause<S>>, upto: i32) -> (r: Vec<
    ValidatedClause<S>,
>)
    requires
        upto >= -6,
    ensures
        rules_view(r@) == by_name(rules_view(clauses@), upto as int),
{
    let ghost all = rules_view(clauses@);
    let mut out: Vec<ValidatedClause<S>> = Vec::new();
    let mut name: i32 = -6;
    assert(rules_view(out@) =~= by_name(all, -6));
    while name < upto
        invariant
            -6 <= name <= upto,
            all == rules_view(clauses@),
            rules_view(out@) == by_name(all, name as int),
        decreases upto - name,
    {
        let ghost start = rules_view(out@);
        let mut k: usize = 0;
        assert(rules_view(out@) =~= start + with_name(all, name as int, 0));
        while k < clauses.len()
            invariant
                k <= clauses.len(),
                all == rules_view(clauses@),
                rules_view(out@) == start + with_name(all, name as int, k as nat),
            decreases clauses.len() - k,
        {
            assert(all[k as int] == clauses@[k as int]@);
            if clauses[k].head.name == name {
                let ghost before = rules_view(out@);
                let c = clauses[k].duplicate();
                let ghost cv = c@;
                out.push(c);
                assert(rules_view(out@) =~= before.push(cv));
                assert(rules_view(out@) =~= start + with_name(all, name as int, (k + 1) as nat));
            }
            k += 1;
        }
        name += 1;
    }
    out
}

impl<S: Span + Copy> GoalVisitor<S> {
    /// Finishes visiting, returning the completed `ValidatedQuery`.
    pub fn finish(self, span: S) -> (r: Result<ValidatedQuery<S>, ValidationError<S>>)
        ensures
            match assemble(self.drafts(), self.goal(), self.next(), span) {
                Ok(m) => r is Ok && r->Ok_0@ == m,
                Err(failure) => r is Err && reports(r->Err_0, failure, self.drafts(), self.goal()),
            },
    {
        let table = table_for(&self.query_visitor.clauses);
        let edges = calls_for(&self.query_visitor.clauses, &table);
        let order = strata_of(table.len(), &edges);
        if table.len() > i32::MAX as usize {
            return Err(ValidationError::TooMany);
        }
        if !is_complete(&order, table.len()) {
            return Err(ValidationError::IllegalRecursion);
        }
        let clauses = match name_clauses(&table, &order, &self.query_visitor.clauses) {
            Ok(clauses) => clauses,
            Err(e) => {
                return Err(e);
            },
        };
        let goal = match name_call(&table, &order, &self.name, &self.args, self.span) {
            Ok(goal) => goal,
            Err(e) => {
                return Err(e);
            },
        };
        proof {
            lemma_with_clauses_grows(builtin_table(), self.drafts());
        }
        let users: i32 = (table.len() - 6) as i32;
        let sorted = sort_by_name(&clauses, users);
        Ok(ValidatedQuery { clauses: sorted, goal, goal_vars: self.var_pool.next_index, span })
    }
}

/// A table of functors is no shorter with a functor, with the functors of a
/// body, or with those of clauses put into it.
pub proof fn lemma_with_body_grows<S>(table: Seq<(Seq<char>, nat)>, body: Seq<LiteralDraft<S>>)
    ensures
        with_body(table, body).len() >= table.len(),
    decreases body.len(),
{
    if body.len() > 0 {
        lemma_with_body_grows(table, body.drop_last());
    }
}

/// A table of functors is no shorter with the functors of clauses put into it.
pub proof fn lemma_with_clauses_grows<S>(table: Seq<(Seq<char>, nat)>, drafts: Seq<ClauseDraft<S>>)
    ensures
        with_clauses(table, drafts).len() >= table.len(),
    decreases drafts.len(),
{
    if drafts.len() > 0 {
        let c = drafts.last();
        lemma_with_clauses_grows(table, drafts.drop_last());
        lemma_with_body_grows(
            with_functor(with_clauses(table, drafts.drop_last()), (c.name, c.args.len())),
            c.body,
        );
    }
}

/// What visits with values change in a visitor: the arguments seen, the names of
/// the variables met with their indices, and the next index.
pub struct Visited<S> {
    pub seen: Seq<ValueModel<S>>,
    pub names: Seq<(Seq<char>, u32)>,
    pub next: u32,
}

/// The state of a visitor as far as visits with values change it.
pub open spec fn visited<S: Span + Copy, T: ValueVisitor<S>>(visitor: &T) -> Visited<S> {
    Visited { seen: visitor.seen(), names: visitor.names(), next: visitor.next() }
}

/// The state after a visit with a value of the written language, or `None` where
/// no index is left. A hole is a variable of its own; a metavariable that is still
/// in place is a string, its name.
pub open spec fn visit_value(
    v: crate::lang::ValueAst,
    at: Visited<crate::lexer::Span>,
) -> Option<Visited<crate::lexer::Span>> {
    match v.inner {
        crate::query::ValueSpec::Hole => if at.next < u32::MAX {
            Some(
                Visited {
                    seen: at.seen.push(ValueModel { inner: InnerModel::Var(at.next), span: v.span }),
                    names: at.names,
                    next: (at.next + 1) as u32,
                },
            )
        } else {
            None
        },
        crate::query::ValueSpec::Var(x) => if at.next < u32::MAX {
            match lookup(at.names, x) {
                Some(n) => Some(
                    Visited {
                        seen: at.seen.push(ValueModel { inner: InnerModel::Var(n), span: v.span }),
                        names: at.names,
                        next: at.next,
                    },
                ),
                None => Some(
                    Visited {
                        seen: at.seen.push(
                            ValueModel { inner: InnerModel::Var(at.next), span: v.span },
                        ),
                        names: at.names.push((x, at.next)),
                        next: (at.next + 1) as u32,
                    },
                ),
            }
        } else {
            None
        },
        crate::query::ValueSpec::Str(s) => Some(
            Visited {
                seen: at.seen.push(ValueModel { inner: InnerModel::Str(s), span: v.span }),
                names: at.names,
                next: at.next,
            },
        ),
        crate::query::ValueSpec::MetaVar(s) => Some(
            Visited {
                seen: at.seen.push(ValueModel { inner: InnerModel::Str(s), span: v.span }),
                names: at.names,
                next: at.next,
            },
        ),
    }
}

/// The state after visits with the values of a list, from left to right.
pub open spec fn visit_values(
    values: Seq<crate::lang::ValueAst>,
    at: Visited<crate::lexer::Span>,
) -> Option<Visited<crate::lexer::Span>>
    decreases values.len(),
{
    if values.len() == 0 {
        Some(at)
    } else {
        match visit_values(values.drop_last(), at) {
            None => None,
            Some(mid) => visit_value(values.last(), mid),
        }
    }
}

/// Once the first `j` values leave no index, neither does the whole list.
proof fn lemma_visit_none(
    values: Seq<crate::lang::ValueAst>,
    at: Visited<crate::lexer::Span>,
    j: int,
)
    requires
        0 <= j <= values.len(),
        visit_values(values.subrange(0, j), at) is None,
    ensures
        visit_values(values, at) is None,
    decreases values.len() - j,
{
    if j < values.len() {
        assert(values.subrange(0, j + 1).drop_last() =~= values.subrange(0, j));
        lemma_visit_none(values, at, j + 1);
    } else {
        assert(values.subrange(0, j) =~= values);
    }
}

/// Visits a visitor with the values of a list, from left to right. The result is
/// `false`, and the visits stop, where a variable or hole can get no index.
pub fn build_on<T: ValueVisitor<crate::lexer::Span>>(
    values: &Vec<crate::lang::Value>,
    visitor: &mut T,
) -> (ok: bool)
    ensures
        match visit_values(crate::lang::values_ast(values@), visited(old(visitor))) {
            Some(after) => ok && visited(final(visitor)) == after,
            None => !ok,
        },
        final(visitor).around() == old(visitor).around(),
{
    let ghost all = crate::lang::values_ast(values@);
    let ghost start = visited(visitor);
    let mut j: usize = 0;
    assert(all.subrange(0, 0) =~= Seq::empty());
    while j < values.len()
        invariant
            j <= values.len(),
            all == crate::lang::values_ast(values@),
            start == visited(old(visitor)),
            visitor.around() == old(visitor).around(),
            visit_values(all.subrange(0, j as int), start) == Some(visited(visitor)),
        decreases values.len() - j,
    {
        let v = &values[j];
        proof {
            let upto = all.subrange(0, j + 1);
            assert(upto.drop_last() =~= all.subrange(0, j as int));
            assert(upto.last() == v@);
        }
        match &v.inner {
            crate::lang::ValueInner::Hole => {
                if !visitor.has_room() {
                    proof {
                        lemma_visit_none(all, start, j + 1);
                    }
                    return false;
                }
                visitor.visit_arg_hole(v.span);
            },
            crate::lang::ValueInner::Var(x) => {
                if !visitor.has_room() {
                    proof {
                        lemma_visit_none(all, start, j + 1);
                    }
                    return false;
                }
                visitor.visit_arg_var(x.as_str(), v.span);
            },
            crate::lang::ValueInner::Str(s) => {
                visitor.visit_arg_string(s.as_str(), v.span);
            },
            crate::lang::ValueInner::MetaVar(s) => {
                visitor.visit_arg_string(s.as_str(), v.span);
            },
        }
        j += 1;
    }
    assert(all.subrange(0, values.len() as int) =~= all);
    true
}

/// A clause in the making: what has been drafted of it, the names of the
/// variables met with their indices, and the next index.
pub struct Making {
    pub body: Seq<LiteralDraft<crate::lexer::Span>>,
    pub names: Seq<(Seq<char>, u32)>,
    pub next: u32,
}

/// The body of a clause drafted literal by literal, or `None` where no index is left.
pub open spec fn draft_body(body: Seq<(bool, crate::lang::PredicateAst)>, at: Making) -> Option<Making>
    decreases body.len(),
{
    if body.len() == 0 {
        Some(at)
    } else {
        match draft_body(body.drop_last(), at) {
            None => None,
            Some(mid) => match visit_values(
                body.last().1.args,
                Visited { seen: Seq::empty(), names: mid.names, next: mid.next },
            ) {
                None => None,
                Some(after) => Some(
                    Making {
                        body: mid.body.push(
                            LiteralDraft {
                                negated: body.last().0,
                                name: body.last().1.name,
                                args: after.seen,
                                span: body.last().1.span,
                            },
                        ),
                        names: after.names,
                        next: after.next,
                    },
                ),
            },
        }
    }
}

/// A clause drafted: the variables numbered from the head on, as they are met.
pub open spec fn draft_clause(c: crate::lang::ClauseAst) -> Option<ClauseDraft<crate::lexer::Span>> {
    match visit_values(c.head.args, Visited { seen: Seq::empty(), names: Seq::empty(), next: 0 }) {
        None => None,
        Some(head) => match draft_body(
            c.body,
            Making { body: Seq::empty(), names: head.names, next: head.next },
        ) {
            None => None,
            Some(done) => Some(
                ClauseDraft {
                    name: c.head.name,
                    args: head.seen,
                    head_span: c.head.span,
                    body: done.body,
                    vars: done.next,
                    span: c.span,
                },
            ),
        },
    }
}

/// The clauses drafted, or `None` where one of them has more variables than indices.
pub open spec fn draft_clauses(clauses: Seq<crate::lang::ClauseAst>) -> Option<
    Seq<ClauseDraft<crate::lexer::Span>>,
>
    decreases clauses.len(),
{
    if clauses.len() == 0 {
        Some(Seq::empty())
    } else {
        match draft_clauses(clauses.drop_last()) {
            None => None,
            Some(done) => match draft_clause(clauses.last()) {
                None => None,
                Some(c) => Some(done.push(c)),
            },
        }
    }
}

/// The goal of a query drafted: its variables numbered as they are met.
pub open spec fn draft_goal(q: crate::lang::QueryAst) -> LiteralDraft<crate::lexer::Span> {
    LiteralDraft {
        negated: false,
        name: q.goal.name,
        args: visit_values(
            q.goal.args,
            Visited { seen: Seq::empty(), names: Seq::empty(), next: 0 },
        )->0.seen,
        span: q.goal.span,
    }
}

/// The validated form that a query of the written language is built into, or
/// the reason why there is none.
pub open spec fn validated_of(q: crate::lang::QueryAst) -> Result<
    ProgramModel<crate::lexer::Span>,
    Failure,
> {
    match draft_clauses(q.clauses) {
        None => Err(Failure::TooMany),
        Some(drafts) => match visit_values(
            q.goal.args,
            Visited { seen: Seq::empty(), names: Seq::empty(), next: 0 },
        ) {
            None => Err(Failure::TooMany),
            Some(goal) => assemble(drafts, draft_goal(q), goal.next, q.span),
        },
    }
}

/// Once drafting fails within the first `j` literals, it fails for the body.
proof fn lemma_draft_body_none(body: Seq<(bool, crate::lang::PredicateAst)>, at: Making, j: int)
    requires
        0 <= j <= body.len(),
        draft_body(body.subrange(0, j), at) is None,
    ensures
        draft_body(body, at) is None,
    decreases body.len() - j,
{
    if j < body.len() {
        assert(body.subrange(0, j + 1).drop_last() =~= body.subrange(0, j));
        lemma_draft_body_none(body, at, j + 1);
    } else {
        assert(body.subrange(0, j) =~= body);
    }
}

/// Once drafting fails within the first `j` clauses, it fails for all.
proof fn lemma_draft_clauses_none(clauses: Seq<crate::lang::ClauseAst>, j: int)
    requires
        0 <= j <= clauses.len(),
        draft_clauses(clauses.subrange(0, j)) is None,
    ensures
        draft_clauses(clauses) is None,
    decreases clauses.len() - j,
{
    if j < clauses.len() {
        assert(clauses.subrange(0, j + 1).drop_last() =~= clauses.subrange(0, j));
        lemma_draft_clauses_none(clauses, j + 1);
    } else {
        assert(clauses.subrange(0, j) =~= clauses);
    }
}

impl crate::lang::Query {
    /// Converts a query to a `ValidatedQuery`. Note that this does not actually perform
    /// validation.
    pub fn to_validated(&self) -> (r: Result<
        ValidatedQuery<crate::lexer::Span>,
        ValidationError<crate::lexer::Span>,
    >)
        ensures
            match validated_of(self@) {
                Ok(m) => r is Ok && r->Ok_0@ == m,
                Err(failure) => r is Err && reports(
                    r->Err_0,
                    failure,
                    draft_clauses(self@.clauses)->0,
                    draft_goal(self@),
                ),
            },
    {
        let ghost all = self@.clauses;
        let mut visitor: QueryVisitor<crate::lexer::Span> = QueryVisitor::new();
        let mut k: usize = 0;
        assert(all.subrange(0, 0) =~= Seq::empty());
        while k < self.clauses.len()
            invariant
                k <= self.clauses.len(),
                all == self@.clauses,
                draft_clauses(all.subrange(0, k as int)) == Some(visitor.drafts()),
            decreases self.clauses.len() - k,
        {
            let clause = &self.clauses[k];
            let ghost cv = clause@;
            let ghost before = visitor.drafts();
            proof {
                let upto = all.subrange(0, k + 1);
                assert(upto.drop_last() =~= all.subrange(0, k as int));
                assert(upto.last() == cv);
            }
            let mut head = visitor.visit_clause(
                clause.head.name.as_str(),
                clause.head.span,
                clause.span,
            );
            if !build_on(&clause.head.args, &mut head) {
                proof {
                    assert(draft_clause(cv) is None);
                    lemma_draft_clauses_none(all, k + 1);
                }
                return Err(ValidationError::TooMany);
            }
            let ghost headed = visited(&head);
            let ghost start = Making { body: Seq::empty(), names: headed.names, next: headed.next };
            let ghost body = cv.body;
            let mut l: usize = 0;
            assert(body.subrange(0, 0) =~= Seq::empty());
            while l < clause.body.len()
                invariant
                    l <= clause.body.len(),
                    k < self.clauses.len(),
                    all == self@.clauses,
                    all[k as int] == cv,
                    draft_clauses(all.subrange(0, k as int)) == Some(before),
                    visit_values(
                        cv.head.args,
                        Visited { seen: Seq::empty(), names: Seq::empty(), next: 0 },
                    ) == Some(headed),
                    start == (Making { body: Seq::empty(), names: headed.names, next: headed.next }),
                    cv == clause@,
                    body == cv.body,
                    head.drafts() == before,
                    head.draft().name == cv.head.name,
                    head.draft().args == headed.seen,
                    head.draft().head_span == cv.head.span,
                    head.draft().span == cv.span,
                    draft_body(body.subrange(0, l as int), start) == Some(
                        Making {
                            body: head.draft().body,
                            names: head.names(),
                            next: head.draft().vars,
                        },
                    ),
                decreases clause.body.len() - l,
            {
                let literal = &clause.body[l];
                proof {
                    let part = body.subrange(0, l + 1);
                    assert(part.drop_last() =~= body.subrange(0, l as int));
                    assert(part.last() == (literal.0, literal.1@));
                }
                let mut call = head.visit_body(literal.0, literal.1.name.as_str(), literal.1.span);
                if !build_on(&literal.1.args, &mut call) {
                    proof {
                        assert(draft_body(body.subrange(0, l + 1), start) is None);
                        lemma_draft_body_none(body, start, l + 1);
                        assert(draft_clause(cv) is None);
                        let upto = all.subrange(0, k + 1);
                        assert(upto.drop_last() =~= all.subrange(0, k as int));
                        assert(upto.last() == cv);
                        lemma_draft_clauses_none(all, k + 1);
                    }
                    return Err(ValidationError::TooMany);
                }
                head = call.finish();
                l += 1;
            }
            assert(body.subrange(0, clause.body.len() as int) =~= body);
            visitor = head.finish();
            k += 1;
        }
        assert(all.subrange(0, self.clauses.len() as int) =~= all);
        let mut goal = visitor.visit_goal(self.goal.name.as_str(), self.goal.span);
        if !build_on(&self.goal.args, &mut goal) {
            return Err(ValidationError::TooMany);
        }
        goal.finish(self.span)
    }
}

} // verus!
