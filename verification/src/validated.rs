//! A type for queries that allows for validation of the queries.
//!
//! Predicates are numbered: the built-ins have the names -1 to -6 (`=/2`,
//! `atom/1`, `name/3`, `edge/3`, `tag/3`, `blob/4`), the predicates that a query defines
//! the names from 0 on, in the order of the strata. Every part carries a span.

use crate::lowering::{lemma_position, lemma_position_hit, lemma_position_miss, position};
use crate::query::{escape, push_escaped};
use crate::text::{chars_of, decimal, push_decimal, push_str, string_of};
use vstd::prelude::*;

verus! {

/// A span.
pub trait Span {
    /// What an error message about the span starts with.
    spec fn prefix(&self) -> Seq<char>;

    /// Formats a span as the start of an error message.
    fn fmt_span(&self) -> (s: String)
        ensures
            s@ == self.prefix(),
    ;
}

impl Span for () {
    open spec fn prefix(&self) -> Seq<char> {
        Seq::empty()
    }

    fn fmt_span(&self) -> (s: String) {
        String::new()
    }
}

impl Span for crate::lexer::Span {
    /// The line and the column where the span starts, with a colon between them
    /// and a colon and a blank behind them.
    open spec fn prefix(&self) -> Seq<char> {
        decimal(self.0.0 as nat) + seq![':'] + decimal(self.0.1 as nat) + seq![':', ' ']
    }

    fn fmt_span(&self) -> (s: String) {
        let mut out: Vec<char> = Vec::new();
        push_decimal(&mut out, self.0.0);
        out.push(':');
        push_decimal(&mut out, self.0.1);
        out.push(':');
        out.push(' ');
        assert(out@ =~= self.prefix());
        string_of(&out)
    }
}

/// The kind of a value.
#[derive(Clone, Debug, PartialEq, Eq)]
pub enum ValidatedValueInner {
    /// A string.
    Str(String),
    /// A variable.
    Var(u32),
}

/// What a `ValidatedValueInner` stands for.
pub enum InnerModel {
    Str(Seq<char>),
    Var(u32),
}

impl View for ValidatedValueInner {
    type V = InnerModel;

    open spec fn view(&self) -> InnerModel {
        match self {
            ValidatedValueInner::Str(s) => InnerModel::Str(s@),
            ValidatedValueInner::Var(n) => InnerModel::Var(*n),
        }
    }
}

/// A data value.
#[derive(Clone, Debug, PartialEq, Eq)]
pub struct ValidatedValue<S: Span> {
    /// The data.
    pub inner: ValidatedValueInner,
    /// The source span of the value.
    pub span: S,
}

/// What a `ValidatedValue` stands for.
pub struct ValueModel<S> {
    pub inner: InnerModel,
    pub span: S,
}

impl<S: Span> View for ValidatedValue<S> {
    type V = ValueModel<S>;

    open spec fn view(&self) -> ValueModel<S> {
        ValueModel { inner: self.inner@, span: self.span }
    }
}

/// A call to a rule.
#[derive(Clone, Debug, PartialEq, Eq)]
pub struct ValidatedPredicate<S: Span> {
    /// The name of the predicate.
    pub name: i32,
    /// The arguments to the predicate.
    pub args: Vec<ValidatedValue<S>>,
    /// The source span of the predicate.
    pub span: S,
}

/// What a `ValidatedPredicate` stands for.
pub struct CallModel<S> {
    pub name: i32,
    pub args: Seq<ValueModel<S>>,
    pub span: S,
}

/// The values of a list, each as what it stands for.
pub open spec fn args_view<S: Span>(args: Seq<ValidatedValue<S>>) -> Seq<ValueModel<S>> {
    args.map_values(|v: ValidatedValue<S>| v@)
}

impl<S: Span> View for ValidatedPredicate<S> {
    type V = CallModel<S>;

    open spec fn view(&self) -> CallModel<S> {
        CallModel { name: self.name, args: args_view(self.args@), span: self.span }
    }
}

/// A single clause, used for deduction.
#[derive(Clone, Debug, PartialEq, Eq)]
pub struct ValidatedClause<S: Span> {
    /// The head of the clause.
    pub head: ValidatedPredicate<S>,
    /// The body of the clause.
    ///
    /// The boolean corresponds to whether the predicate is negated; it is negated when the boolean
    /// is `true`.
    pub body: Vec<(bool, ValidatedPredicate<S>)>,
    /// The number of variables in the clause.
    pub vars: u32,
    /// The source span of the clause.
    pub span: S,
}

/// What a `ValidatedClause` stands for.
pub struct RuleModel<S> {
    pub head: CallModel<S>,
    pub body: Seq<(bool, CallModel<S>)>,
    pub vars: u32,
    pub span: S,
}

/// The literals of a body, each as what it stands for.
pub open spec fn literals_view<S: Span>(body: Seq<(bool, ValidatedPredicate<S>)>) -> Seq<
    (bool, CallModel<S>),
> {
    body.map_values(|l: (bool, ValidatedPredicate<S>)| (l.0, l.1@))
}

impl<S: Span> View for ValidatedClause<S> {
    type V = RuleModel<S>;

    open spec fn view(&self) -> RuleModel<S> {
        RuleModel {
            head: self.head@,
            body: literals_view(self.body@),
            vars: self.vars,
            span: self.span,
        }
    }
}

/// A complete query to the database.
#[derive(Clone, Debug, PartialEq, Eq)]
pub struct ValidatedQuery<S: Span> {
    /// The clauses to be used by the query.
    pub clauses: Vec<ValidatedClause<S>>,
    /// The predicate to solve for.
    pub goal: ValidatedPredicate<S>,
    /// The number of variables in the goal.
    pub goal_vars: u32,
    /// The source span of the query.
    pub span: S,
}

/// What a `ValidatedQuery` stands for.
pub struct ProgramModel<S> {
    pub clauses: Seq<RuleModel<S>>,
    pub goal: CallModel<S>,
    pub goal_vars: u32,
    pub span: S,
}

/// The clauses of a list, each as what it stands for.
pub open spec fn rules_view<S: Span>(clauses: Seq<ValidatedClause<S>>) -> Seq<RuleModel<S>> {
    clauses.map_values(|c: ValidatedClause<S>| c@)
}

impl<S: Span> View for ValidatedQuery<S> {
    type V = ProgramModel<S>;

    open spec fn view(&self) -> ProgramModel<S> {
        ProgramModel {
            clauses: rules_view(self.clauses@),
            goal: self.goal@,
            goal_vars: self.goal_vars,
            span: self.span,
        }
    }
}

impl<S: Span + Copy> ValidatedValue<S> {
    /// A copy of the value.
    pub fn duplicate(&self) -> (r: ValidatedValue<S>)
        ensures
            r@ == self@,
    {
        let inner = match &self.inner {
            ValidatedValueInner::Str(s) => ValidatedValueInner::Str(s.clone()),
            ValidatedValueInner::Var(n) => ValidatedValueInner::Var(*n),
        };
        ValidatedValue { inner, span: self.span }
    }
}

impl<S: Span + Copy> ValidatedPredicate<S> {
    /// A copy of the call.
    pub fn duplicate(&self) -> (r: ValidatedPredicate<S>)
        ensures
            r@ == self@,
    {
        let mut args: Vec<ValidatedValue<S>> = Vec::new();
        let mut i: usize = 0;
        while i < self.args.len()
            invariant
                i <= self.args.len(),
                args.len() == i,
                forall|k: int| 0 <= k < i ==> args@[k]@ == self.args@[k]@,
            decreases self.args.len() - i,
        {
            args.push(self.args[i].duplicate());
            i += 1;
        }
        assert(args_view(args@) =~= args_view(self.args@));
        ValidatedPredicate { name: self.name, args, span: self.span }
    }
}

impl<S: Span + Copy> ValidatedClause<S> {
    /// A copy of the clause.
    pub fn duplicate(&self) -> (r: ValidatedClause<S>)
        ensures
            r@ == self@,
    {
        let mut body: Vec<(bool, ValidatedPredicate<S>)> = Vec::new();
        let mut i: usize = 0;
        while i < self.body.len()
            invariant
                i <= self.body.len(),
                body.len() == i,
                forall|k: int|
                    0 <= k < i ==> body@[k].0 == self.body@[k].0 && body@[k].1@ == self.body@[k].1@,
            decreases self.body.len() - i,
        {
            body.push((self.body[i].0, self.body[i].1.duplicate()));
            i += 1;
        }
        assert(literals_view(body@) =~= literals_view(self.body@));
        ValidatedClause { head: self.head.duplicate(), body, vars: self.vars, span: self.span }
    }
}

/// The name of `=/2`.
pub const EQUALS: i32 = -1;

/// An error during validation.
#[derive(Debug)]
#[allow(inconsistent_fields)]
pub enum ValidationError<S: Span> {
    /// An invalid number of arguments were used in a call.
    BadArgn {
        /// The number of arguments the call should have.
        expected: usize,
        /// The number of arguments the call actually had.
        found: usize,
        /// The span of the call.
        span: S,
    },
    /// Ill-formed recursion was detected.
    BadRecursion {
        /// The head of the clause doing the calling.
        caller: ValidatedPredicate<S>,
        /// The predicate being called.
        callee: ValidatedPredicate<S>,
        /// Whether the clause was being called negatively.
        negated: bool,
    },
    /// A variable with a bad index was found.
    BadVariable {
        /// The number of variables declared in the clause or goal.
        max_vars: u32,
        /// The span of the variable.
        span: S,
        /// The invalid index.
        var: u32,
    },
    /// Ill-formed recursion was detected while building the `ValidatedQuery`.
    IllegalRecursion,
    /// A variable was never used in a positive position.
    NeverUsedPositively {
        /// The clause in which the variable is not used.
        clause: ValidatedClause<S>,
        /// The variable.
        var: u32,
    },
    /// No clause with the given functor existed.
    NoSuchClause {
        /// The number of arguments.
        argn: usize,
        /// The name part of the functor.
        name: i32,
        /// The span of the call.
        span: S,
    },
    /// No clause with the given functor existed while building the `ValidatedQuery`.
    NoSuchClauseBuilding {
        /// The number of arguments.
        argn: usize,
        /// The name part of the functor.
        name: String,
        /// The span of the call.
        span: S,
    },
    /// A clause was given for a built-in predicate.
    RedefinedBuiltin {
        /// The name of the built-in predicate.
        name: i32,
        /// The span of the head of the clause.
        span: S,
    },
    /// A clause or the goal has more variables than indices, or the query more
    /// predicates than names.
    TooMany,
}

/// What a `ValidationError` stands for.
pub enum Fault<S> {
    BadArgn { expected: nat, found: nat, span: S },
    BadRecursion { caller: CallModel<S>, callee: CallModel<S>, negated: bool },
    BadVariable { max_vars: u32, span: S, var: u32 },
    IllegalRecursion,
    NeverUsedPositively { clause: RuleModel<S>, var: u32 },
    NoSuchClause { argn: nat, name: i32, span: S },
    NoSuchClauseBuilding { argn: nat, name: Seq<char>, span: S },
    RedefinedBuiltin { name: i32, span: S },
    TooMany,
}

impl<S: Span> View for ValidationError<S> {
    type V = Fault<S>;

    open spec fn view(&self) -> Fault<S> {
        match *self {
            ValidationError::BadArgn { expected, found, span } => Fault::BadArgn {
                expected: expected as nat,
                found: found as nat,
                span,
            },
            ValidationError::BadRecursion { caller, callee, negated } => Fault::BadRecursion {
                caller: caller@,
                callee: callee@,
                negated,
            },
            ValidationError::BadVariable { max_vars, span, var } => Fault::BadVariable {
                max_vars,
                span,
                var,
            },
            ValidationError::IllegalRecursion => Fault::IllegalRecursion,
            ValidationError::NeverUsedPositively { clause, var } => Fault::NeverUsedPositively {
                clause: clause@,
                var,
            },
            ValidationError::NoSuchClause { argn, name, span } => Fault::NoSuchClause {
                argn: argn as nat,
                name,
                span,
            },
            ValidationError::NoSuchClauseBuilding { argn, name, span } => Fault::NoSuchClauseBuilding {
                argn: argn as nat,
                name: name@,
                span,
            },
            ValidationError::RedefinedBuiltin { name, span } => Fault::RedefinedBuiltin {
                name,
                span,
            },
            ValidationError::TooMany => Fault::TooMany,
        }
    }
}

/// The number of arguments that a built-in predicate takes.
pub open spec fn builtin_argn(name: i32) -> Option<nat> {
    if name == -1 {
        Some(2)
    } else if name == -2 {
        Some(1)
    } else if name == -3 || name == -4 || name == -5 {
        Some(3)
    } else if name == -6 {
        Some(4)
    } else {
        None
    }
}

/// Whether the argument is the variable `v`.
pub open spec fn is_var<S>(a: ValueModel<S>, v: u32) -> bool {
    a.inner == InnerModel::Var(v)
}

/// Whether a positive literal binds the variable `v`: it does when `v` is among
/// its arguments. A call of `=/2` binds like any other: both of its sides.
pub open spec fn call_binds<S>(p: CallModel<S>, v: u32) -> bool {
    exists|j: int| 0 <= j < p.args.len() && is_var(#[trigger] p.args[j], v)
}

/// Whether some positive literal of the body binds the variable `v`.
pub open spec fn body_binds<S>(body: Seq<(bool, CallModel<S>)>, v: u32) -> bool {
    exists|i: int| 0 <= i < body.len() && !(#[trigger] body[i]).0 && call_binds(body[i].1, v)
}

/// The names of the heads of the clauses, in order.
pub open spec fn head_names<S>(clauses: Seq<RuleModel<S>>) -> Seq<i32> {
    clauses.map_values(|c: RuleModel<S>| c.head.name)
}

impl<S> ProgramModel<S> {
    /// Whether `name` is a built-in or the head of a clause.
    pub open spec fn defines(self, name: i32) -> bool {
        builtin_argn(name) is Some || head_names(self.clauses).contains(name)
    }

    /// The number of arguments that the predicate `name` takes: fixed for a
    /// built-in, else the number in the head of its first clause.
    pub open spec fn arity_of(self, name: i32) -> nat {
        match builtin_argn(name) {
            Some(n) => n,
            None => self.clauses[position(head_names(self.clauses), name) as int].head.args.len(),
        }
    }
}

/// The first argument from `j` on that is a variable not below `vars`, as the
/// error that names it.
pub open spec fn bad_variable_from<S>(args: Seq<ValueModel<S>>, vars: u32, j: int) -> Option<
    Fault<S>,
>
    decreases args.len() - j,
{
    if j < 0 || j >= args.len() {
        None
    } else if args[j].inner is Var && args[j].inner->Var_0 >= vars {
        Some(Fault::BadVariable { max_vars: vars, span: args[j].span, var: args[j].inner->Var_0 })
    } else {
        bad_variable_from(args, vars, j + 1)
    }
}

/// The first variable not below `vars` in the literals from `i` on, each literal
/// read from its first argument.
pub open spec fn bad_variable_in<S>(body: Seq<(bool, CallModel<S>)>, vars: u32, i: int) -> Option<
    Fault<S>,
>
    decreases body.len() - i,
{
    if i < 0 || i >= body.len() {
        None
    } else {
        match bad_variable_from(body[i].1.args, vars, 0) {
            Some(f) => Some(f),
            None => bad_variable_in(body, vars, i + 1),
        }
    }
}

/// The first literal from `i` on that calls `=/2` without two arguments, as the
/// error that names it.
pub open spec fn bad_equals_from<S>(body: Seq<(bool, CallModel<S>)>, i: int) -> Option<Fault<S>>
    decreases body.len() - i,
{
    if i < 0 || i >= body.len() {
        None
    } else if body[i].1.name == EQUALS && body[i].1.args.len() != 2 {
        Some(Fault::BadArgn { expected: 2, found: body[i].1.args.len(), span: body[i].1.span })
    } else {
        bad_equals_from(body, i + 1)
    }
}

/// The smallest variable from `v` on that no positive literal of the clause
/// binds, as the error that names it.
pub open spec fn unbound_from<S>(c: RuleModel<S>, v: int) -> Option<Fault<S>>
    decreases c.vars - v,
{
    if v < 0 || v >= c.vars {
        None
    } else if !body_binds(c.body, v as u32) {
        Some(Fault::NeverUsedPositively { clause: c, var: v as u32 })
    } else {
        unbound_from(c, v + 1)
    }
}

/// What is wrong with a clause taken by itself, if anything: the first variable
/// out of bounds, in the head and then in the body; else the first call of `=/2`
/// without two arguments; else the smallest variable that no positive literal binds.
pub open spec fn rule_fault<S>(c: RuleModel<S>) -> Option<Fault<S>> {
    match bad_variable_from(c.head.args, c.vars, 0) {
        Some(f) => Some(f),
        None => match bad_variable_in(c.body, c.vars, 0) {
            Some(f) => Some(f),
            None => match bad_equals_from(c.body, 0) {
                Some(f) => Some(f),
                None => unbound_from(c, 0),
            },
        },
    }
}

/// What is wrong with the first clause from `k` on that is wrong by itself.
pub open spec fn rules_fault<S>(clauses: Seq<RuleModel<S>>, k: int) -> Option<Fault<S>>
    decreases clauses.len() - k,
{
    if k < 0 || k >= clauses.len() {
        None
    } else {
        match rule_fault(clauses[k]) {
            Some(f) => Some(f),
            None => rules_fault(clauses, k + 1),
        }
    }
}

/// The first literal of the clause from `i` on that calls against the strata: a
/// negated call of a predicate not below the head's, or a positive call of one
/// above it.
pub open spec fn bad_recursion_from<S>(c: RuleModel<S>, i: int) -> Option<Fault<S>>
    decreases c.body.len() - i,
{
    if i < 0 || i >= c.body.len() {
        None
    } else if (c.body[i].0 && c.body[i].1.name >= c.head.name) || (!c.body[i].0
        && c.body[i].1.name > c.head.name) {
        Some(Fault::BadRecursion { caller: c.head, callee: c.body[i].1, negated: c.body[i].0 })
    } else {
        bad_recursion_from(c, i + 1)
    }
}

/// The first call against the strata in the clauses from `k` on.
pub open spec fn recursion_fault<S>(clauses: Seq<RuleModel<S>>, k: int) -> Option<Fault<S>>
    decreases clauses.len() - k,
{
    if k < 0 || k >= clauses.len() {
        None
    } else {
        match bad_recursion_from(clauses[k], 0) {
            Some(f) => Some(f),
            None => recursion_fault(clauses, k + 1),
        }
    }
}

impl<S> ProgramModel<S> {
    /// The first clause from `k` on whose head has another number of arguments
    /// than its predicate takes.
    pub open spec fn head_fault(self, k: int) -> Option<Fault<S>>
        decreases self.clauses.len() - k,
    {
        if k < 0 || k >= self.clauses.len() {
            None
        } else if self.clauses[k].head.args.len() != self.arity_of(self.clauses[k].head.name) {
            Some(
                Fault::BadArgn {
                    expected: self.arity_of(self.clauses[k].head.name),
                    found: self.clauses[k].head.args.len(),
                    span: self.clauses[k].head.span,
                },
            )
        } else {
            self.head_fault(k + 1)
        }
    }

    /// What is wrong with a call, if anything: its predicate is not defined, or
    /// it has another number of arguments than the predicate takes.
    pub open spec fn call_fault(self, p: CallModel<S>) -> Option<Fault<S>> {
        if !self.defines(p.name) {
            Some(Fault::NoSuchClause { argn: p.args.len(), name: p.name, span: p.span })
        } else if p.args.len() != self.arity_of(p.name) {
            Some(
                Fault::BadArgn {
                    expected: self.arity_of(p.name),
                    found: p.args.len(),
                    span: p.span,
                },
            )
        } else {
            None
        }
    }

    /// What is wrong with the first call that is wrong among the literals from `i` on.
    pub open spec fn body_fault(self, body: Seq<(bool, CallModel<S>)>, i: int) -> Option<Fault<S>>
        decreases body.len() - i,
    {
        if i < 0 || i >= body.len() {
            None
        } else {
            match self.call_fault(body[i].1) {
                Some(f) => Some(f),
                None => self.body_fault(body, i + 1),
            }
        }
    }

    /// What is wrong with the first call that is wrong in the bodies of the
    /// clauses from `k` on.
    pub open spec fn bodies_fault(self, k: int) -> Option<Fault<S>>
        decreases self.clauses.len() - k,
    {
        if k < 0 || k >= self.clauses.len() {
            None
        } else {
            match self.body_fault(self.clauses[k].body, 0) {
                Some(f) => Some(f),
                None => self.bodies_fault(k + 1),
            }
        }
    }

    /// The first clause from `k` on whose head does not name a predicate of the
    /// query: the names below zero are those of the built-ins.
    pub open spec fn builtin_fault(self, k: int) -> Option<Fault<S>>
        decreases self.clauses.len() - k,
    {
        if k < 0 || k >= self.clauses.len() {
            None
        } else if self.clauses[k].head.name < 0 {
            Some(
                Fault::RedefinedBuiltin {
                    name: self.clauses[k].head.name,
                    span: self.clauses[k].head.span,
                },
            )
        } else {
            self.builtin_fault(k + 1)
        }
    }

    /// The goal read as a clause without a body.
    pub open spec fn goal_rule(self) -> RuleModel<S> {
        RuleModel { head: self.goal, body: Seq::empty(), vars: self.goal_vars, span: self.goal.span }
    }

    /// The smallest variable of the goal from `v` on that is not among the
    /// arguments of the goal.
    pub open spec fn goal_unbound_from(self, v: int) -> Option<Fault<S>>
        decreases self.goal_vars - v,
    {
        if v < 0 || v >= self.goal_vars {
            None
        } else if !call_binds(self.goal, v as u32) {
            Some(Fault::NeverUsedPositively { clause: self.goal_rule(), var: v as u32 })
        } else {
            self.goal_unbound_from(v + 1)
        }
    }

    /// What is wrong with the query, if anything. The checks come in this order,
    /// and the first that fails gives the error:
    ///
    /// 1. each clause by itself, clause by clause (see `rule_fault`);
    /// 2. the strata: the first call against them, clause by clause and literal by literal;
    /// 3. the heads: the first whose length is not that of its predicate;
    /// 4. the calls in the bodies: the first of a predicate that is not defined,
    ///    or with another number of arguments than the predicate takes;
    /// 5. the variables of the goal: the first out of bounds;
    /// 6. the first clause for a built-in predicate;
    /// 7. the goal as a call: its predicate and the number of its arguments;
    /// 8. the smallest variable of the goal that is not among its arguments.
    pub open spec fn fault(self) -> Option<Fault<S>> {
        match rules_fault(self.clauses, 0) {
            Some(f) => Some(f),
            None => match recursion_fault(self.clauses, 0) {
                Some(f) => Some(f),
                None => match self.head_fault(0) {
                    Some(f) => Some(f),
                    None => match self.bodies_fault(0) {
                        Some(f) => Some(f),
                        None => match bad_variable_from(self.goal.args, self.goal_vars, 0) {
                            Some(f) => Some(f),
                            None => match self.builtin_fault(0) {
                                Some(f) => Some(f),
                                None => match self.call_fault(self.goal) {
                                    Some(f) => Some(f),
                                    None => self.goal_unbound_from(0),
                                },
                            },
                        },
                    },
                },
            },
        }
    }

    /// Nothing is wrong with the query.
    pub open spec fn valid(self) -> bool {
        self.fault() is None
    }
}

/// Whether a result of validation is the one that `fault` asks for.
pub open spec fn reported<S: Span>(r: Option<ValidationError<S>>, fault: Option<Fault<S>>) -> bool {
    match fault {
        None => r is None,
        Some(f) => r is Some && r->0@ == f,
    }
}

/// The number of arguments that a built-in predicate takes.
fn builtin_arity(name: i32) -> (r: Option<usize>)
    ensures
        match r {
            Some(n) => builtin_argn(name) == Some(n as nat),
            None => builtin_argn(name) is None,
        },
{
    if name == -1 {
        Some(2)
    } else if name == -2 {
        Some(1)
    } else if name == -3 || name == -4 || name == -5 {
        Some(3)
    } else if name == -6 {
        Some(4)
    } else {
        None
    }
}

impl<S: Span + Copy> ValidatedPredicate<S> {
    /// Looks for the first variable among the arguments that is not below `vars`.
    fn bad_variable(&self, vars: u32) -> (r: Option<ValidationError<S>>)
        ensures
            reported(r, bad_variable_from(self@.args, vars, 0)),
    {
        let mut j: usize = 0;
        while j < self.args.len()
            invariant
                j <= self.args.len(),
                bad_variable_from(self@.args, vars, 0) == bad_variable_from(
                    self@.args,
                    vars,
                    j as int,
                ),
            decreases self.args.len() - j,
        {
            assert(self@.args[j as int] == self.args@[j as int]@);
            match &self.args[j].inner {
                ValidatedValueInner::Var(n) => {
                    if *n >= vars {
                        return Some(
                            ValidationError::BadVariable {
                                max_vars: vars,
                                span: self.args[j].span,
                                var: *n,
                            },
                        );
                    }
                },
                _ => {},
            }
            j += 1;
        }
        None
    }

    /// Whether the argument at `j` is the variable `v`.
    fn is_var_at(&self, j: usize, v: u32) -> (r: bool)
        requires
            j < self.args.len(),
        ensures
            r == is_var(self@.args[j as int], v),
    {
        assert(self@.args[j as int] == self.args@[j as int]@);
        match &self.args[j].inner {
            ValidatedValueInner::Var(n) => *n == v,
            _ => false,
        }
    }

    /// Whether the literal, read as positive, binds the variable `v`.
    pub fn binds(&self, v: u32) -> (r: bool)
        ensures
            r == call_binds(self@, v),
    {
        let mut j: usize = 0;
        while j < self.args.len()
            invariant
                j <= self.args.len(),
                forall|k: int| 0 <= k < j ==> !is_var(#[trigger] self@.args[k], v),
            decreases self.args.len() - j,
        {
            if self.is_var_at(j, v) {
                return true;
            }
            j += 1;
        }
        false
    }

    /// What is wrong with the call as a literal of a clause with the head
    /// `caller`, by the strata.
    fn against_strata(&self, negated: bool, caller: &ValidatedPredicate<S>) -> (r: bool)
        ensures
            r == ((negated && self@.name >= caller@.name) || (!negated && self@.name
                > caller@.name)),
    {
        (negated && self.name >= caller.name) || (!negated && self.name > caller.name)
    }
}

impl<S: Span + Copy> ValidatedClause<S> {
    /// Whether some positive literal of the clause binds the variable `v`.
    pub fn binds(&self, v: u32) -> (r: bool)
        ensures
            r == body_binds(self@.body, v),
    {
        let mut i: usize = 0;
        while i < self.body.len()
            invariant
                i <= self.body.len(),
                forall|k: int|
                    0 <= k < i ==> (#[trigger] self@.body[k]).0 || !call_binds(self@.body[k].1, v),
            decreases self.body.len() - i,
        {
            assert(self@.body[i as int] == (self.body@[i as int].0, self.body@[i as int].1@));
            if !self.body[i].0 && self.body[i].1.binds(v) {
                return true;
            }
            i += 1;
        }
        false
    }

    /// Looks for the smallest variable of the clause that no positive literal binds.
    fn unbound_variable(&self) -> (r: Option<ValidationError<S>>)
        ensures
            reported(r, unbound_from(self@, 0)),
    {
        let mut v: u32 = 0;
        while v < self.vars
            invariant
                v <= self.vars,
                unbound_from(self@, 0) == unbound_from(self@, v as int),
            decreases self.vars - v,
        {
            if !self.binds(v) {
                return Some(
                    ValidationError::NeverUsedPositively { clause: self.duplicate(), var: v },
                );
            }
            v += 1;
        }
        None
    }

    /// Looks for the first variable out of bounds in the body.
    fn bad_variable_in_body(&self) -> (r: Option<ValidationError<S>>)
        ensures
            reported(r, bad_variable_in(self@.body, self@.vars, 0)),
    {
        let mut i: usize = 0;
        while i < self.body.len()
            invariant
                i <= self.body.len(),
                bad_variable_in(self@.body, self@.vars, 0) == bad_variable_in(
                    self@.body,
                    self@.vars,
                    i as int,
                ),
            decreases self.body.len() - i,
        {
            assert(self@.body[i as int] == (self.body@[i as int].0, self.body@[i as int].1@));
            match self.body[i].1.bad_variable(self.vars) {
                Some(e) => {
                    return Some(e);
                },
                None => {},
            }
            i += 1;
        }
        None
    }

    /// Looks for the first call of `=/2` without two arguments.
    fn bad_equals(&self) -> (r: Option<ValidationError<S>>)
        ensures
            reported(r, bad_equals_from(self@.body, 0)),
    {
        let mut i: usize = 0;
        while i < self.body.len()
            invariant
                i <= self.body.len(),
                bad_equals_from(self@.body, 0) == bad_equals_from(self@.body, i as int),
            decreases self.body.len() - i,
        {
            assert(self@.body[i as int] == (self.body@[i as int].0, self.body@[i as int].1@));
            let p = &self.body[i].1;
            if p.name == EQUALS && p.args.len() != 2 {
                return Some(
                    ValidationError::BadArgn { expected: 2, found: p.args.len(), span: p.span },
                );
            }
            i += 1;
        }
        None
    }

    /// Looks for the first call against the strata.
    fn bad_recursion(&self) -> (r: Option<ValidationError<S>>)
        ensures
            reported(r, bad_recursion_from(self@, 0)),
    {
        let mut i: usize = 0;
        while i < self.body.len()
            invariant
                i <= self.body.len(),
                bad_recursion_from(self@, 0) == bad_recursion_from(self@, i as int),
            decreases self.body.len() - i,
        {
            assert(self@.body[i as int] == (self.body@[i as int].0, self.body@[i as int].1@));
            if self.body[i].1.against_strata(self.body[i].0, &self.head) {
                return Some(
                    ValidationError::BadRecursion {
                        caller: self.head.duplicate(),
                        callee: self.body[i].1.duplicate(),
                        negated: self.body[i].0,
                    },
                );
            }
            i += 1;
        }
        None
    }

    /// Validates the clause for positivity and variable count.
    ///
    /// The variables of the head are looked at first, then those of the body, then
    /// the number of arguments of every call of `=/2`, then whether each variable
    /// is bound. The error is that of the first place that is wrong: it names the
    /// first variable out of bounds with its span, or the first call of `=/2`
    /// without two arguments, or the smallest variable that nothing binds.
    pub fn validate(&self) -> (r: Result<(), ValidationError<S>>)
        ensures
            match rule_fault(self@) {
                None => r is Ok,
                Some(f) => r is Err && r->Err_0@ == f,
            },
    {
        match self.head.bad_variable(self.vars) {
            Some(e) => {
                return Err(e);
            },
            None => {},
        }
        match self.bad_variable_in_body() {
            Some(e) => {
                return Err(e);
            },
            None => {},
        }
        match self.bad_equals() {
            Some(e) => {
                return Err(e);
            },
            None => {},
        }
        match self.unbound_variable() {
            Some(e) => Err(e),
            None => Ok(()),
        }
    }
}

impl<S: Span + Copy> ValidatedQuery<S> {
    /// The index of the first clause with the head name `name`, or the number of
    /// clauses if there is none.
    fn find_head(&self, name: i32) -> (r: usize)
        ensures
            r == position(head_names(self@.clauses), name),
            r <= self.clauses.len(),
    {
        let ghost names = head_names(self@.clauses);
        let mut i: usize = 0;
        assert(names.subrange(0, names.len() as int) =~= names);
        while i < self.clauses.len()
            invariant
                i <= self.clauses.len(),
                names == head_names(self@.clauses),
                position(names, name) == i + position(names.subrange(i as int, names.len() as int), name),
            decreases self.clauses.len() - i,
        {
            assert(names[i as int] == self.clauses@[i as int]@.head.name);
            if self.clauses[i].head.name == name {
                proof {
                    lemma_position_hit(names, name, i as int);
                }
                return i;
            }
            proof {
                lemma_position_miss(names, name, i as int);
            }
            i += 1;
        }
        i
    }

    /// The number of arguments that a predicate takes, if the query defines it.
    fn argn(&self, name: i32) -> (r: Option<usize>)
        ensures
            match r {
                Some(n) => self@.defines(name) && n == self@.arity_of(name),
                None => !self@.defines(name),
            },
    {
        proof {
            lemma_position(head_names(self@.clauses), name);
        }
        match builtin_arity(name) {
            Some(n) => Some(n),
            None => {
                let at = self.find_head(name);
                if at < self.clauses.len() {
                    assert(self@.clauses[at as int] == self.clauses@[at as int]@);
                    Some(self.clauses[at].head.args.len())
                } else {
                    None
                }
            },
        }
    }

    /// What is wrong with a call, by the predicates of the query.
    fn check_call(&self, p: &ValidatedPredicate<S>) -> (r: Option<ValidationError<S>>)
        ensures
            reported(r, self@.call_fault(p@)),
    {
        match self.argn(p.name) {
            Some(expected) => {
                if p.args.len() == expected {
                    None
                } else {
                    Some(ValidationError::BadArgn { expected, found: p.args.len(), span: p.span })
                }
            },
            None => Some(
                ValidationError::NoSuchClause { argn: p.args.len(), name: p.name, span: p.span },
            ),
        }
    }

    /// Looks for the first call that is wrong in the body of a clause.
    fn check_body(&self, c: &ValidatedClause<S>) -> (r: Option<ValidationError<S>>)
        ensures
            reported(r, self@.body_fault(c@.body, 0)),
    {
        let mut i: usize = 0;
        while i < c.body.len()
            invariant
                i <= c.body.len(),
                self@.body_fault(c@.body, 0) == self@.body_fault(c@.body, i as int),
            decreases c.body.len() - i,
        {
            assert(c@.body[i as int] == (c.body@[i as int].0, c.body@[i as int].1@));
            match self.check_call(&c.body[i].1) {
                Some(e) => {
                    return Some(e);
                },
                None => {},
            }
            i += 1;
        }
        None
    }

    /// Looks for the first clause that is wrong by itself.
    fn check_rules(&self) -> (r: Option<ValidationError<S>>)
        ensures
            reported(r, rules_fault(self@.clauses, 0)),
    {
        let mut k: usize = 0;
        while k < self.clauses.len()
            invariant
                k <= self.clauses.len(),
                rules_fault(self@.clauses, 0) == rules_fault(self@.clauses, k as int),
            decreases self.clauses.len() - k,
        {
            assert(self@.clauses[k as int] == self.clauses@[k as int]@);
            match self.clauses[k].validate() {
                Err(e) => {
                    return Some(e);
                },
                Ok(()) => {},
            }
            k += 1;
        }
        None
    }

    /// Looks for the first call against the strata.
    fn check_recursion(&self) -> (r: Option<ValidationError<S>>)
        ensures
            reported(r, recursion_fault(self@.clauses, 0)),
    {
        let mut k: usize = 0;
        while k < self.clauses.len()
            invariant
                k <= self.clauses.len(),
                recursion_fault(self@.clauses, 0) == recursion_fault(self@.clauses, k as int),
            decreases self.clauses.len() - k,
        {
            assert(self@.clauses[k as int] == self.clauses@[k as int]@);
            match self.clauses[k].bad_recursion() {
                Some(e) => {
                    return Some(e);
                },
                None => {},
            }
            k += 1;
        }
        None
    }

    /// Looks for the first head whose length is not that of its predicate.
    fn check_heads(&self) -> (r: Option<ValidationError<S>>)
        ensures
            reported(r, self@.head_fault(0)),
    {
        let mut k: usize = 0;
        while k < self.clauses.len()
            invariant
                k <= self.clauses.len(),
                self@.head_fault(0) == self@.head_fault(k as int),
            decreases self.clauses.len() - k,
        {
            assert(self@.clauses[k as int] == self.clauses@[k as int]@);
            proof {
                let names = head_names(self@.clauses);
                assert(names[k as int] == self@.clauses[k as int].head.name);
                assert(names.contains(self@.clauses[k as int].head.name));
            }
            let head = &self.clauses[k].head;
            match self.argn(head.name) {
                Some(expected) => {
                    if head.args.len() != expected {
                        return Some(
                            ValidationError::BadArgn {
                                expected,
                                found: head.args.len(),
                                span: head.span,
                            },
                        );
                    }
                },
                None => {},
            }
            k += 1;
        }
        None
    }

    /// Looks for the first call that is wrong in the bodies of the clauses.
    fn check_bodies(&self) -> (r: Option<ValidationError<S>>)
        ensures
            reported(r, self@.bodies_fault(0)),
    {
        let mut k: usize = 0;
        while k < self.clauses.len()
            invariant
                k <= self.clauses.len(),
                self@.bodies_fault(0) == self@.bodies_fault(k as int),
            decreases self.clauses.len() - k,
        {
            assert(self@.clauses[k as int] == self.clauses@[k as int]@);
            match self.check_body(&self.clauses[k]) {
                Some(e) => {
                    return Some(e);
                },
                None => {},
            }
            k += 1;
        }
        None
    }

    /// Looks for the first clause for a built-in predicate.
    fn check_builtins(&self) -> (r: Option<ValidationError<S>>)
        ensures
            reported(r, self@.builtin_fault(0)),
    {
        let mut k: usize = 0;
        while k < self.clauses.len()
            invariant
                k <= self.clauses.len(),
                self@.builtin_fault(0) == self@.builtin_fault(k as int),
            decreases self.clauses.len() - k,
        {
            assert(self@.clauses[k as int] == self.clauses@[k as int]@);
            let head = &self.clauses[k].head;
            if head.name < 0 {
                return Some(ValidationError::RedefinedBuiltin { name: head.name, span: head.span });
            }
            k += 1;
        }
        None
    }

    /// Looks for the smallest variable of the goal that is not among its arguments.
    fn unbound_in_goal(&self) -> (r: Option<ValidationError<S>>)
        ensures
            reported(r, self@.goal_unbound_from(0)),
    {
        let mut v: u32 = 0;
        while v < self.goal_vars
            invariant
                v <= self.goal_vars,
                self@.goal_unbound_from(0) == self@.goal_unbound_from(v as int),
            decreases self.goal_vars - v,
        {
            if !self.goal.binds(v) {
                let clause = ValidatedClause {
                    head: self.goal.duplicate(),
                    body: Vec::new(),
                    vars: self.goal_vars,
                    span: self.goal.span,
                };
                assert(clause@.body =~= Seq::empty());
                assert(clause@ == self@.goal_rule());
                return Some(ValidationError::NeverUsedPositively { clause, var: v });
            }
            v += 1;
        }
        None
    }

    /// Validates the query.
    ///
    /// Each clause is validated by itself; then the strata, the lengths of the
    /// heads and the calls in the bodies are looked at, then the variables of the
    /// goal; last come the clauses for built-in predicates and the goal as a call.
    /// The first place that is wrong gives the error: see `ProgramModel::fault`.
    pub fn validate(&self) -> (r: Result<(), ValidationError<S>>)
        ensures
            match self@.fault() {
                None => r is Ok,
                Some(f) => r is Err && r->Err_0@ == f,
            },
    {
        match self.check_rules() {
            Some(e) => {
                return Err(e);
            },
            None => {},
        }
        match self.check_recursion() {
            Some(e) => {
                return Err(e);
            },
            None => {},
        }
        match self.check_heads() {
            Some(e) => {
                return Err(e);
            },
            None => {},
        }
        match self.check_bodies() {
            Some(e) => {
                return Err(e);
            },
            None => {},
        }
        match self.goal.bad_variable(self.goal_vars) {
            Some(e) => {
                return Err(e);
            },
            None => {},
        }
        match self.check_builtins() {
            Some(e) => {
                return Err(e);
            },
            None => {},
        }
        match self.check_call(&self.goal) {
            Some(e) => {
                return Err(e);
            },
            None => {},
        }
        match self.unbound_in_goal() {
            Some(e) => Err(e),
            None => Ok(()),
        }
    }
}

/// A name written in decimal, with a `-` before it where it is below zero.
pub open spec fn signed(n: int) -> Seq<char> {
    if n < 0 {
        seq!['-'] + decimal((-n) as nat)
    } else {
        decimal(n as nat)
    }
}

/// A value as an error message shows it: a string between double quotes, a
/// variable as its number behind `#`.
pub open spec fn show_arg<S>(a: ValueModel<S>) -> Seq<char> {
    match a.inner {
        InnerModel::Str(s) => seq!['"'] + escape(s) + seq!['"'],
        InnerModel::Var(n) => seq!['#'] + decimal(n as nat),
    }
}

/// The values of a list as an error message shows them, with `, ` between them.
pub open spec fn show_args<S>(args: Seq<ValueModel<S>>) -> Seq<char>
    decreases args.len(),
{
    if args.len() == 0 {
        Seq::empty()
    } else if args.len() == 1 {
        show_arg(args[0])
    } else {
        show_args(args.drop_last()) + seq![',', ' '] + show_arg(args.last())
    }
}

/// A call as an error message shows it.
pub open spec fn show_call<S>(p: CallModel<S>) -> Seq<char> {
    signed(p.name as int) + seq!['('] + show_args(p.args) + seq![')']
}

/// Appends a name in decimal.
fn push_signed(out: &mut Vec<char>, n: i32)
    ensures
        final(out)@ == old(out)@ + signed(n as int),
{
    let ghost before = out@;
    if n < 0 {
        out.push('-');
        let wide: i64 = 0 - (n as i64);
        push_decimal(out, wide as usize);
        assert(out@ =~= before + signed(n as int));
    } else {
        push_decimal(out, n as usize);
    }
}

/// Appends a text between double quotes, as it is written there.
fn push_quoted(out: &mut Vec<char>, s: &String)
    ensures
        final(out)@ == old(out)@ + seq!['"'] + escape(s@) + seq!['"'],
{
    let ghost before = out@;
    let chars = chars_of(s.as_str());
    out.push('"');
    push_escaped(out, &chars);
    out.push('"');
    assert(out@ =~= before + seq!['"'] + escape(s@) + seq!['"']);
}

impl<S: Span + Copy> ValidatedPredicate<S> {
    /// Appends the call as an error message shows it.
    fn write(&self, out: &mut Vec<char>)
        ensures
            final(out)@ == old(out)@ + show_call(self@),
    {
        let ghost before = out@;
        let ghost args = self@.args;
        push_signed(out, self.name);
        out.push('(');
        let ghost start = out@;
        let mut i: usize = 0;
        assert(args.subrange(0, 0) =~= Seq::empty());
        assert(out@ =~= start + show_args(args.subrange(0, 0)));
        while i < self.args.len()
            invariant
                i <= self.args.len(),
                args == self@.args,
                out@ == start + show_args(args.subrange(0, i as int)),
            decreases self.args.len() - i,
        {
            let ghost mid = out@;
            if i > 0 {
                out.push(',');
                out.push(' ');
            }
            let ghost sep = out@;
            match &self.args[i].inner {
                ValidatedValueInner::Str(s) => {
                    push_quoted(out, s);
                },
                ValidatedValueInner::Var(n) => {
                    out.push('#');
                    push_decimal(out, *n as usize);
                },
            }
            proof {
                let upto = args.subrange(0, i + 1);
                assert(upto.drop_last() =~= args.subrange(0, i as int));
                assert(upto.last() == self.args@[i as int]@);
                assert(out@ =~= sep + show_arg(upto.last()));
                if i == 0 {
                    assert(upto[0] == upto.last());
                    assert(out@ =~= start + show_args(upto));
                } else {
                    assert(out@ =~= mid + seq![',', ' '] + show_arg(upto.last()));
                    assert(out@ =~= start + show_args(upto));
                }
            }
            i += 1;
        }
        assert(args.subrange(0, self.args.len() as int) =~= args);
        out.push(')');
        assert(out@ =~= before + show_call(self@));
    }

    /// The call as an error message shows it.
    pub fn to_string(&self) -> (s: String)
        ensures
            s@ == show_call(self@),
    {
        let mut out: Vec<char> = Vec::new();
        self.write(&mut out);
        assert(out@ =~= show_call(self@));
        string_of(&out)
    }
}

impl<S: Span + Copy> ValidationError<S> {
    /// The message of the error: what the span of its place starts a message
    /// with, then what went wrong.
    pub open spec fn message(self) -> Seq<char> {
        match self {
            ValidationError::BadArgn { expected, found, span } => span.prefix()
                + "cannot call a clause that expects "@ + decimal(expected as nat) + " args with "@
                + decimal(found as nat),
            ValidationError::BadRecursion { caller, callee, negated } => caller.span.prefix()
                + show_call(caller@) + (if negated {
                " cannot call !"@
            } else {
                " cannot call "@
            }) + show_call(callee@),
            ValidationError::BadVariable { max_vars, span, var } => span.prefix()
                + "cannot use variable #"@ + decimal(var as nat) + " in a clause with "@ + decimal(
                max_vars as nat,
            ) + " vars"@,
            ValidationError::IllegalRecursion => "invalid recursion detected"@,
            ValidationError::NeverUsedPositively { clause, var } => clause.span.prefix()
                + "variable #"@ + decimal(var as nat) + " was never used positively"@,
            ValidationError::NoSuchClause { argn, name, span } => span.prefix()
                + "no such clause "@ + signed(name as int) + "/"@ + decimal(argn as nat),
            ValidationError::NoSuchClauseBuilding { argn, name, span } => span.prefix()
                + "no such clause "@ + name@ + "/"@ + decimal(argn as nat),
            ValidationError::RedefinedBuiltin { name, span } => span.prefix()
                + "cannot give a clause to the built-in predicate "@ + signed(name as int),
            ValidationError::TooMany => "too many variables or predicates"@,
        }
    }

    /// The message of the error.
    pub fn to_string(&self) -> (s: String)
        ensures
            s@ == self.message(),
    {
        let mut out: Vec<char> = Vec::new();
        match self {
            ValidationError::BadArgn { expected, found, span } => {
                push_str(&mut out, span.fmt_span().as_str());
                push_str(&mut out, "cannot call a clause that expects ");
                push_decimal(&mut out, *expected);
                push_str(&mut out, " args with ");
                push_decimal(&mut out, *found);
            },
            ValidationError::BadRecursion { caller, callee, negated } => {
                push_str(&mut out, caller.span.fmt_span().as_str());
                caller.write(&mut out);
                if *negated {
                    push_str(&mut out, " cannot call !");
                } else {
                    push_str(&mut out, " cannot call ");
                }
                callee.write(&mut out);
            },
            ValidationError::BadVariable { max_vars, span, var } => {
                push_str(&mut out, span.fmt_span().as_str());
                push_str(&mut out, "cannot use variable #");
                push_decimal(&mut out, *var as usize);
                push_str(&mut out, " in a clause with ");
                push_decimal(&mut out, *max_vars as usize);
                push_str(&mut out, " vars");
            },
            ValidationError::IllegalRecursion => {
                push_str(&mut out, "invalid recursion detected");
            },
            ValidationError::NeverUsedPositively { clause, var } => {
                push_str(&mut out, clause.span.fmt_span().as_str());
                push_str(&mut out, "variable #");
                push_decimal(&mut out, *var as usize);
                push_str(&mut out, " was never used positively");
            },
            ValidationError::NoSuchClause { argn, name, span } => {
                push_str(&mut out, span.fmt_span().as_str());
                push_str(&mut out, "no such clause ");
                push_signed(&mut out, *name);
                push_str(&mut out, "/");
                push_decimal(&mut out, *argn);
            },
            ValidationError::NoSuchClauseBuilding { argn, name, span } => {
                push_str(&mut out, span.fmt_span().as_str());
                push_str(&mut out, "no such clause ");
                push_str(&mut out, name.as_str());
                push_str(&mut out, "/");
                push_decimal(&mut out, *argn);
            },
            ValidationError::RedefinedBuiltin { name, span } => {
                push_str(&mut out, span.fmt_span().as_str());
                push_str(&mut out, "cannot give a clause to the built-in predicate ");
                push_signed(&mut out, *name);
            },
            ValidationError::TooMany => {
                push_str(&mut out, "too many variables or predicates");
            },
        }
        assert(out@ =~= self.message());
        string_of(&out)
    }
}

/// The literals of a body as they are shown: each on a line of its own behind a
/// tab, a negated one behind `! `, with a comma behind every one but the last.
pub open spec fn show_literals<S>(body: Seq<(bool, CallModel<S>)>) -> Seq<char>
    decreases body.len(),
{
    if body.len() == 0 {
        Seq::empty()
    } else {
        (if body.len() == 1 {
            Seq::empty()
        } else {
            show_literals(body.drop_last()) + seq![',', '\n']
        }) + seq!['\t'] + (if body.last().0 {
            seq!['!', ' ']
        } else {
            Seq::empty()
        }) + show_call(body.last().1)
    }
}

/// A clause as it is shown, with a line feed at its end.
pub open spec fn show_rule<S>(c: RuleModel<S>) -> Seq<char> {
    if c.body.len() == 0 {
        show_call(c.head) + seq!['.', '\n']
    } else {
        show_call(c.head) + seq![' ', ':', '-', '\n'] + show_literals(c.body) + seq!['.', '\n']
    }
}

/// The clauses of a list as they are shown.
pub open spec fn show_rules<S>(clauses: Seq<RuleModel<S>>) -> Seq<char>
    decreases clauses.len(),
{
    if clauses.len() == 0 {
        Seq::empty()
    } else {
        show_rules(clauses.drop_last()) + show_rule(clauses.last())
    }
}

/// A query as it is shown: its clauses, then the goal behind `?- `.
pub open spec fn show_program<S>(q: ProgramModel<S>) -> Seq<char> {
    show_rules(q.clauses) + seq!['?', '-', ' '] + show_call(q.goal) + seq!['.', '\n']
}

impl<S: Span + Copy> ValidatedClause<S> {
    /// Appends the clause as it is shown.
    fn write(&self, out: &mut Vec<char>)
        ensures
            final(out)@ == old(out)@ + show_rule(self@),
    {
        let ghost before = out@;
        let ghost body = self@.body;
        self.head.write(out);
        if self.body.len() == 0 {
            out.push('.');
            out.push('\n');
            assert(out@ =~= before + show_rule(self@));
            return ;
        }
        out.push(' ');
        out.push(':');
        out.push('-');
        out.push('\n');
        let ghost start = out@;
        let mut i: usize = 0;
        assert(body.subrange(0, 0) =~= Seq::empty());
        assert(out@ =~= start + show_literals(body.subrange(0, 0)));
        while i < self.body.len()
            invariant
                i <= self.body.len(),
                body == self@.body,
                out@ == start + show_literals(body.subrange(0, i as int)),
            decreases self.body.len() - i,
        {
            let ghost mid = out@;
            if i > 0 {
                out.push(',');
                out.push('\n');
            }
            out.push('\t');
            if self.body[i].0 {
                out.push('!');
                out.push(' ');
            }
            let ghost sep = out@;
            self.body[i].1.write(out);
            proof {
                let upto = body.subrange(0, i + 1);
                assert(upto.drop_last() =~= body.subrange(0, i as int));
                assert(upto.last() == (self.body@[i as int].0, self.body@[i as int].1@));
                assert(out@ =~= sep + show_call(upto.last().1));
                assert(out@ =~= start + show_literals(upto));
            }
            i += 1;
        }
        assert(body.subrange(0, self.body.len() as int) =~= body);
        out.push('.');
        out.push('\n');
        assert(out@ =~= before + show_rule(self@));
    }

    /// The clause as it is shown.
    pub fn to_string(&self) -> (s: String)
        ensures
            s@ == show_rule(self@),
    {
        let mut out: Vec<char> = Vec::new();
        self.write(&mut out);
        assert(out@ =~= show_rule(self@));
        string_of(&out)
    }
}

impl<S: Span + Copy> ValidatedQuery<S> {
    /// The query as it is shown.
    pub fn to_string(&self) -> (s: String)
        ensures
            s@ == show_program(self@),
    {
        let ghost clauses = self@.clauses;
        let mut out: Vec<char> = Vec::new();
        let mut i: usize = 0;
        assert(clauses.subrange(0, 0) =~= Seq::empty());
        assert(out@ =~= show_rules(clauses.subrange(0, 0)));
        while i < self.clauses.len()
            invariant
                i <= self.clauses.len(),
                clauses == self@.clauses,
                out@ == show_rules(clauses.subrange(0, i as int)),
            decreases self.clauses.len() - i,
        {
            self.clauses[i].write(&mut out);
            proof {
                let upto = clauses.subrange(0, i + 1);
                assert(upto.drop_last() =~= clauses.subrange(0, i as int));
                assert(upto.last() == self.clauses@[i as int]@);
            }
            i += 1;
        }
        assert(clauses.subrange(0, self.clauses.len() as int) =~= clauses);
        out.push('?');
        out.push('-');
        out.push(' ');
        self.goal.write(&mut out);
        out.push('.');
        out.push('\n');
        assert(out@ =~= show_program(self@));
        string_of(&out)
    }
}

} // verus!
