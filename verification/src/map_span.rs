//! Changing the spans of a validated query, for a front-end that has spans of its own.

use crate::validated::{
    CallModel, RuleModel, Span, ValidatedClause, ValidatedPredicate, ValidatedQuery,
    ValidatedValue, ValidatedValueInner,
};
use vstd::prelude::*;

verus! {

/// Whether `to` is the call `from` with each span changed as `f` may change it.
pub open spec fn call_mapped<S, S2, F: Fn(S) -> S2>(f: &F, from: CallModel<S>, to: CallModel<S2>) -> bool {
    &&& to.name == from.name
    &&& f.ensures((from.span,), to.span)
    &&& to.args.len() == from.args.len()
    &&& forall|j: int|
        0 <= j < from.args.len() ==> (#[trigger] to.args[j]).inner == from.args[j].inner
            && f.ensures((from.args[j].span,), to.args[j].span)
}

/// Whether `to` is the clause `from` with each span changed as `f` may change it.
pub open spec fn rule_mapped<S, S2, F: Fn(S) -> S2>(f: &F, from: RuleModel<S>, to: RuleModel<S2>) -> bool {
    &&& to.vars == from.vars
    &&& f.ensures((from.span,), to.span)
    &&& call_mapped(f, from.head, to.head)
    &&& to.body.len() == from.body.len()
    &&& forall|i: int|
        0 <= i < from.body.len() ==> (#[trigger] to.body[i]).0 == from.body[i].0 && call_mapped(
            f,
            from.body[i].1,
            to.body[i].1,
        )
}

impl<S: Span + Copy> ValidatedValue<S> {
    /// Changes the `Span` type inside the `ValidatedValue`.
    pub fn map_span<S2: Span + Copy, F: Fn(S) -> S2>(&self, f: &F) -> (r: ValidatedValue<S2>)
        requires
            f.requires((self.span,)),
        ensures
            r@.inner == self@.inner,
            f.ensures((self.span,), r.span),
    {
        let inner = match &self.inner {
            ValidatedValueInner::Str(s) => ValidatedValueInner::Str(s.clone()),
            ValidatedValueInner::Var(n) => ValidatedValueInner::Var(*n),
        };
        ValidatedValue { inner, span: f(self.span) }
    }
}

impl<S: Span + Copy> ValidatedPredicate<S> {
    /// Changes the `Span` type inside the `ValidatedPredicate`.
    pub fn map_span<S2: Span + Copy, F: Fn(S) -> S2>(&self, f: &F) -> (r: ValidatedPredicate<S2>)
        requires
            forall|s: S| f.requires((s,)),
        ensures
            call_mapped(f, self@, r@),
    {
        let mut args: Vec<ValidatedValue<S2>> = Vec::new();
        let mut j: usize = 0;
        while j < self.args.len()
            invariant
                j <= self.args.len(),
                args.len() == j,
                forall|s: S| f.requires((s,)),
                forall|k: int|
                    0 <= k < j ==> (#[trigger] args@[k])@.inner == self.args@[k]@.inner
                        && f.ensures((self.args@[k].span,), args@[k].span),
            decreases self.args.len() - j,
        {
            args.push(self.args[j].map_span(f));
            j += 1;
        }
        let r = ValidatedPredicate { name: self.name, args, span: f(self.span) };
        assert forall|k: int| 0 <= k < self@.args.len() implies (#[trigger] r@.args[k]).inner
            == self@.args[k].inner && f.ensures((self@.args[k].span,), r@.args[k].span) by {
            assert(r@.args[k] == r.args@[k]@);
            assert(self@.args[k] == self.args@[k]@);
        }
        r
    }
}

impl<S: Span + Copy> ValidatedClause<S> {
    /// Changes the `Span` type inside the `ValidatedClause`.
    pub fn map_span<S2: Span + Copy, F: Fn(S) -> S2>(&self, f: &F) -> (r: ValidatedClause<S2>)
        requires
            forall|s: S| f.requires((s,)),
        ensures
            rule_mapped(f, self@, r@),
    {
        let head = self.head.map_span(f);
        let mut body: Vec<(bool, ValidatedPredicate<S2>)> = Vec::new();
        let mut i: usize = 0;
        while i < self.body.len()
            invariant
                i <= self.body.len(),
                body.len() == i,
                forall|s: S| f.requires((s,)),
                forall|k: int|
                    0 <= k < i ==> (#[trigger] body@[k]).0 == self.body@[k].0 && call_mapped(
                        f,
                        self.body@[k].1@,
                        body@[k].1@,
                    ),
            decreases self.body.len() - i,
        {
            body.push((self.body[i].0, self.body[i].1.map_span(f)));
            i += 1;
        }
        let r = ValidatedClause { head, body, vars: self.vars, span: f(self.span) };
        assert forall|k: int| 0 <= k < self@.body.len() implies (#[trigger] r@.body[k]).0
            == self@.body[k].0 && call_mapped(f, self@.body[k].1, r@.body[k].1) by {
            assert(r@.body[k] == (r.body@[k].0, r.body@[k].1@));
            assert(self@.body[k] == (self.body@[k].0, self.body@[k].1@));
        }
        r
    }
}

impl<S: Span + Copy> ValidatedQuery<S> {
    /// Changes the `Span` type inside the `ValidatedQuery`.
    pub fn map_span<S2: Span + Copy, F: Fn(S) -> S2>(&self, f: &F) -> (r: ValidatedQuery<S2>)
        requires
            forall|s: S| f.requires((s,)),
        ensures
            r@.goal_vars == self@.goal_vars,
            f.ensures((self.span,), r.span),
            call_mapped(f, self@.goal, r@.goal),
            r@.clauses.len() == self@.clauses.len(),
            forall|k: int|
                0 <= k < self@.clauses.len() ==> rule_mapped(
                    f,
                    self@.clauses[k],
                    #[trigger] r@.clauses[k],
                ),
    {
        let mut clauses: Vec<ValidatedClause<S2>> = Vec::new();
        let mut i: usize = 0;
        while i < self.clauses.len()
            invariant
                i <= self.clauses.len(),
                clauses.len() == i,
                forall|s: S| f.requires((s,)),
                forall|k: int| 0 <= k < i ==> rule_mapped(f, self.clauses@[k]@, (#[trigger] clauses@[k])@),
            decreases self.clauses.len() - i,
        {
            clauses.push(self.clauses[i].map_span(f));
            i += 1;
        }
        let r = ValidatedQuery {
            clauses,
            goal: self.goal.map_span(f),
            goal_vars: self.goal_vars,
            span: f(self.span),
        };
        assert forall|k: int| 0 <= k < self@.clauses.len() implies rule_mapped(
            f,
            self@.clauses[k],
            #[trigger] r@.clauses[k],
        ) by {
            assert(r@.clauses[k] == r.clauses@[k]@);
            assert(self@.clauses[k] == self.clauses@[k]@);
        }
        r
    }
}

} // verus!
