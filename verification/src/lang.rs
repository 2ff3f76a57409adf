//! The query language as it is written: queries with the places in the source of
//! everything in them, and the parser that reads them.
//!
//! ```text
//! query     := clause* "?-" predicate "."
//! clause    := predicate ("." | ":-" body ".")
//! body      := literal ("," literal)*
//! literal   := "!"? predicate
//! predicate := name "(" (value ("," value)*)? ")"
//! value     := "_" | string | name | metavariable
//! ```

pub use crate::lexer::{Point, Span, Token};
use crate::lexer::{scan, tokenize, tokens_view, LexError, Located, TokenSpec};
use crate::query::{ClauseSpec, PredicateSpec, QuerySpec, ValueSpec};
use crate::text::{push_str, string_of};
use vstd::prelude::*;

verus! {

/// The actual data inside the `Value` type.
#[derive(Clone, Debug, PartialEq, Eq)]
pub enum ValueInner {
    /// A hole.
    Hole,
    /// A string.
    Str(String),
    /// A variable.
    Var(String),
    /// A metavariable.
    MetaVar(String),
}

impl View for ValueInner {
    type V = ValueSpec;

    open spec fn view(&self) -> ValueSpec {
        match self {
            ValueInner::Hole => ValueSpec::Hole,
            ValueInner::Str(s) => ValueSpec::Str(s@),
            ValueInner::Var(s) => ValueSpec::Var(s@),
            ValueInner::MetaVar(s) => ValueSpec::MetaVar(s@),
        }
    }
}

/// A data value.
#[derive(Clone, Debug, PartialEq, Eq)]
pub struct Value {
    /// The data.
    pub inner: ValueInner,
    /// The source span of the value.
    pub span: Span,
}

/// What a `Value` stands for.
pub struct ValueAst {
    pub inner: ValueSpec,
    pub span: Span,
}

impl View for Value {
    type V = ValueAst;

    open spec fn view(&self) -> ValueAst {
        ValueAst { inner: self.inner@, span: self.span }
    }
}

/// A call to a rule.
#[derive(Clone, Debug, PartialEq, Eq)]
pub struct Predicate {
    /// The name of the predicate.
    pub name: String,
    /// The arguments to the predicate.
    pub args: Vec<Value>,
    /// The source span of the predicate.
    pub span: Span,
}

/// What a `Predicate` stands for.
pub struct PredicateAst {
    pub name: Seq<char>,
    pub args: Seq<ValueAst>,
    pub span: Span,
}

/// The values of a list, each as what it stands for.
pub open spec fn values_ast(args: Seq<Value>) -> Seq<ValueAst> {
    args.map_values(|v: Value| v@)
}

impl View for Predicate {
    type V = PredicateAst;

    open spec fn view(&self) -> PredicateAst {
        PredicateAst { name: self.name@, args: values_ast(self.args@), span: self.span }
    }
}

/// A single clause, used for deduction.
#[derive(Clone, Debug, PartialEq, Eq)]
pub struct Clause {
    /// The head of the clause.
    pub head: Predicate,
    /// The body of the clause.
    ///
    /// The boolean corresponds to whether the predicate is negated; it is negated when the boolean
    /// is `true`.
    pub body: Vec<(bool, Predicate)>,
    /// The source span of the clause.
    pub span: Span,
}

/// What a `Clause` stands for.
pub struct ClauseAst {
    pub head: PredicateAst,
    pub body: Seq<(bool, PredicateAst)>,
    pub span: Span,
}

/// The literals of a body, each as what it stands for.
pub open spec fn body_ast(body: Seq<(bool, Predicate)>) -> Seq<(bool, PredicateAst)> {
    body.map_values(|l: (bool, Predicate)| (l.0, l.1@))
}

impl View for Clause {
    type V = ClauseAst;

    open spec fn view(&self) -> ClauseAst {
        ClauseAst { head: self.head@, body: body_ast(self.body@), span: self.span }
    }
}

/// A complete query to the database.
#[derive(Clone, Debug, PartialEq, Eq)]
pub struct Query {
    /// The clauses to be used by the query.
    pub clauses: Vec<Clause>,
    /// The predicate to solve for.
    pub goal: Predicate,
    /// The source span of the query.
    pub span: Span,
}

/// What a `Query` stands for.
pub struct QueryAst {
    pub clauses: Seq<ClauseAst>,
    pub goal: PredicateAst,
    pub span: Span,
}

/// The clauses of a list, each as what it stands for.
pub open spec fn clauses_ast(clauses: Seq<Clause>) -> Seq<ClauseAst> {
    clauses.map_values(|c: Clause| c@)
}

impl View for Query {
    type V = QueryAst;

    open spec fn view(&self) -> QueryAst {
        QueryAst { clauses: clauses_ast(self.clauses@), goal: self.goal@, span: self.span }
    }
}

/// What the parser could have gone on with at the place of an error.
#[derive(Clone, Copy, Debug, PartialEq, Eq, Structural)]
pub enum Expected {
    /// The name of a predicate, or `?-`.
    ClauseOrGoal,
    /// The name of a command.
    Command,
    /// `,` or `)`.
    CommaOrParenClose,
    /// `,` or `.`.
    CommaOrPeriod,
    /// The end of the text.
    End,
    /// The name of a predicate, or `!`.
    Literal,
    /// The name of a predicate.
    Name,
    /// A number in decimal, below 2^32.
    Number,
    /// `(`.
    ParenOpen,
    /// `.`.
    Period,
    /// `.` or `:-`.
    PeriodOrTurnstile,
    /// A string or a name.
    Text,
    /// `_`, a string, a name or a metavariable.
    Value,
    /// A value, or `)`.
    ValueOrParenClose,
}

/// Why a text is no query.
#[derive(Clone, Copy, Debug, PartialEq, Eq, Structural)]
pub enum ParseError {
    /// A text that is no token starts at `location`.
    InvalidToken { location: Point },
    /// The text takes too many bytes for its places to be counted.
    TooLong,
    /// The text ends at `location`, where more had to follow.
    UnrecognizedEof { location: Point, expected: Expected },
    /// The token between `start` and `end` cannot stand where it does.
    UnrecognizedToken { start: Point, end: Point, expected: Expected },
}

/// The error for the token at `i`, or for the end of the tokens if there is none.
pub open spec fn unexpected(ts: Seq<Located>, i: int, expected: Expected) -> ParseError {
    if 0 <= i < ts.len() {
        ParseError::UnrecognizedToken { start: ts[i].start, end: ts[i].end, expected }
    } else if ts.len() == 0 {
        ParseError::UnrecognizedEof { location: Point(1, 0), expected }
    } else {
        ParseError::UnrecognizedEof { location: ts.last().end, expected }
    }
}

/// The value that the token at `i` is.
pub open spec fn parse_value(ts: Seq<Located>, i: int, expected: Expected) -> Result<
    ValueAst,
    ParseError,
> {
    if 0 <= i < ts.len() {
        let span = Span(ts[i].start, ts[i].end);
        match ts[i].token {
            TokenSpec::Underscore => Ok(ValueAst { inner: ValueSpec::Hole, span }),
            TokenSpec::String(s) => Ok(ValueAst { inner: ValueSpec::Str(s), span }),
            TokenSpec::Var(s) => Ok(ValueAst { inner: ValueSpec::Var(s), span }),
            TokenSpec::MetaVar(s) => Ok(ValueAst { inner: ValueSpec::MetaVar(s), span }),
            _ => Err(unexpected(ts, i, expected)),
        }
    } else {
        Err(unexpected(ts, i, expected))
    }
}

/// Whether the token at `i` is the token `t`, which holds no text.
pub open spec fn is_at(ts: Seq<Located>, i: int, t: TokenSpec) -> bool {
    0 <= i < ts.len() && ts[i].token == t
}

/// The values from the token at `i` on, behind the values `acc`, up to the closing
/// parenthesis; with them, the index behind that parenthesis.
pub open spec fn parse_values(ts: Seq<Located>, i: int, acc: Seq<ValueAst>) -> Result<
    (Seq<ValueAst>, int),
    ParseError,
>
    decreases ts.len() - i,
{
    match parse_value(ts, i, if acc.len() == 0 {
        Expected::ValueOrParenClose
    } else {
        Expected::Value
    }) {
        Err(e) => Err(e),
        Ok(v) => if is_at(ts, i + 1, TokenSpec::Comma) {
            parse_values(ts, i + 2, acc.push(v))
        } else if is_at(ts, i + 1, TokenSpec::ParenClose) {
            Ok((acc.push(v), i + 2))
        } else {
            Err(unexpected(ts, i + 1, Expected::CommaOrParenClose))
        },
    }
}

/// The call that starts with the token at `i`, and the index behind it.
pub open spec fn parse_predicate(ts: Seq<Located>, i: int, expected: Expected) -> Result<
    (PredicateAst, int),
    ParseError,
> {
    if 0 <= i < ts.len() && ts[i].token is Var {
        if is_at(ts, i + 1, TokenSpec::ParenOpen) {
            if is_at(ts, i + 2, TokenSpec::ParenClose) {
                Ok(
                    (
                        PredicateAst {
                            name: ts[i].token->Var_0,
                            args: Seq::empty(),
                            span: Span(ts[i].start, ts[i + 2].end),
                        },
                        i + 3,
                    ),
                )
            } else {
                match parse_values(ts, i + 2, Seq::empty()) {
                    Err(e) => Err(e),
                    Ok((args, after)) => Ok(
                        (
                            PredicateAst {
                                name: ts[i].token->Var_0,
                                args,
                                span: Span(ts[i].start, ts[after - 1].end),
                            },
                            after,
                        ),
                    ),
                }
            }
        } else {
            Err(unexpected(ts, i + 1, Expected::ParenOpen))
        }
    } else {
        Err(unexpected(ts, i, expected))
    }
}

/// The literal that starts with the token at `i`, and the index behind it.
pub open spec fn parse_literal(ts: Seq<Located>, i: int) -> Result<
    ((bool, PredicateAst), int),
    ParseError,
> {
    if is_at(ts, i, TokenSpec::Not) {
        match parse_predicate(ts, i + 1, Expected::Name) {
            Err(e) => Err(e),
            Ok((p, after)) => Ok(((true, p), after)),
        }
    } else {
        match parse_predicate(ts, i, Expected::Literal) {
            Err(e) => Err(e),
            Ok((p, after)) => Ok(((false, p), after)),
        }
    }
}

/// A list of values ends behind the place where it starts, and within the tokens.
pub proof fn lemma_values_advance(ts: Seq<Located>, i: int, acc: Seq<ValueAst>)
    requires
        0 <= i,
    ensures
        parse_values(ts, i, acc) is Ok ==> i < parse_values(ts, i, acc)->Ok_0.1 <= ts.len(),
    decreases ts.len() - i,
{
    match parse_value(ts, i, if acc.len() == 0 {
        Expected::ValueOrParenClose
    } else {
        Expected::Value
    }) {
        Err(e) => {},
        Ok(v) => if is_at(ts, i + 1, TokenSpec::Comma) {
            lemma_values_advance(ts, i + 2, acc.push(v));
        },
    }
}

/// A call ends behind the place where it starts, and within the tokens.
pub proof fn lemma_predicate_advances(ts: Seq<Located>, i: int, expected: Expected)
    requires
        0 <= i,
    ensures
        parse_predicate(ts, i, expected) is Ok ==> i < parse_predicate(ts, i, expected)->Ok_0.1
            <= ts.len(),
{
    lemma_values_advance(ts, i + 2, Seq::empty());
}

/// A literal ends behind the place where it starts, and within the tokens.
pub proof fn lemma_literal_advances(ts: Seq<Located>, i: int)
    requires
        0 <= i,
    ensures
        parse_literal(ts, i) is Ok ==> i < parse_literal(ts, i)->Ok_0.1 <= ts.len(),
{
    lemma_predicate_advances(ts, i + 1, Expected::Name);
    lemma_predicate_advances(ts, i, Expected::Literal);
}

/// The literals from the token at `i` on, behind the literals `acc`, up to the
/// period; with them, the index behind that period.
pub open spec fn parse_body(ts: Seq<Located>, i: int, acc: Seq<(bool, PredicateAst)>) -> Result<
    (Seq<(bool, PredicateAst)>, int),
    ParseError,
>
    decreases ts.len() - i,
{
    if i < 0 {
        Err(unexpected(ts, i, Expected::Literal))
    } else {
        match parse_literal(ts, i) {
            Err(e) => Err(e),
            Ok((l, after)) => {
                proof {
                    lemma_literal_advances(ts, i);
                }
                if is_at(ts, after, TokenSpec::Comma) {
                    parse_body(ts, after + 1, acc.push(l))
                } else if is_at(ts, after, TokenSpec::Period) {
                    Ok((acc.push(l), after + 1))
                } else {
                    Err(unexpected(ts, after, Expected::CommaOrPeriod))
                }
            },
        }
    }
}

/// The clause that starts with the token at `i`, and the index behind it.
pub open spec fn parse_clause(ts: Seq<Located>, i: int, expected: Expected) -> Result<
    (ClauseAst, int),
    ParseError,
> {
    match parse_predicate(ts, i, expected) {
        Err(e) => Err(e),
        Ok((head, after)) => if is_at(ts, after, TokenSpec::Period) {
            Ok(
                (
                    ClauseAst { head, body: Seq::empty(), span: Span(head.span.0, ts[after].end) },
                    after + 1,
                ),
            )
        } else if is_at(ts, after, TokenSpec::Turnstile) {
            match parse_body(ts, after + 1, Seq::empty()) {
                Err(e) => Err(e),
                Ok((body, end)) => Ok(
                    (ClauseAst { head, body, span: Span(head.span.0, ts[end - 1].end) }, end),
                ),
            }
        } else {
            Err(unexpected(ts, after, Expected::PeriodOrTurnstile))
        },
    }
}

/// A body ends behind the place where it starts, and within the tokens.
pub proof fn lemma_body_advances(ts: Seq<Located>, i: int, acc: Seq<(bool, PredicateAst)>)
    requires
        0 <= i,
    ensures
        parse_body(ts, i, acc) is Ok ==> i < parse_body(ts, i, acc)->Ok_0.1 <= ts.len(),
    decreases ts.len() - i,
{
    lemma_literal_advances(ts, i);
    match parse_literal(ts, i) {
        Err(e) => {},
        Ok((l, after)) => {
            if is_at(ts, after, TokenSpec::Comma) {
                lemma_body_advances(ts, after + 1, acc.push(l));
            }
        },
    }
}

/// A clause ends behind the place where it starts, and within the tokens.
pub proof fn lemma_clause_advances(ts: Seq<Located>, i: int, expected: Expected)
    requires
        0 <= i,
    ensures
        parse_clause(ts, i, expected) is Ok ==> i < parse_clause(ts, i, expected)->Ok_0.1
            <= ts.len(),
{
    lemma_predicate_advances(ts, i, expected);
    match parse_predicate(ts, i, expected) {
        Err(e) => {},
        Ok((head, after)) => {
            lemma_body_advances(ts, after + 1, Seq::empty());
        },
    }
}

/// The query that the tokens from `i` on are, behind the clauses `acc`: more
/// clauses, then the goal behind `?-` and a period, and nothing after it. The
/// span of a query starts where the text starts and ends with its last period.
pub open spec fn parse_clauses(ts: Seq<Located>, i: int, acc: Seq<ClauseAst>) -> Result<
    QueryAst,
    ParseError,
>
    decreases ts.len() - i,
{
    if i < 0 {
        Err(unexpected(ts, i, Expected::ClauseOrGoal))
    } else if is_at(ts, i, TokenSpec::Query) {
        match parse_predicate(ts, i + 1, Expected::Name) {
            Err(e) => Err(e),
            Ok((goal, after)) => if !is_at(ts, after, TokenSpec::Period) {
                Err(unexpected(ts, after, Expected::Period))
            } else if after + 1 < ts.len() {
                Err(unexpected(ts, after + 1, Expected::End))
            } else {
                Ok(QueryAst { clauses: acc, goal, span: Span(Point(1, 0), ts[after].end) })
            },
        }
    } else {
        match parse_clause(ts, i, Expected::ClauseOrGoal) {
            Err(e) => Err(e),
            Ok((c, after)) => {
                proof {
                    lemma_clause_advances(ts, i, Expected::ClauseOrGoal);
                }
                parse_clauses(ts, after, acc.push(c))
            },
        }
    }
}

/// The query that the tokens are.
pub open spec fn parse_tokens(ts: Seq<Located>) -> Result<QueryAst, ParseError> {
    parse_clauses(ts, 0, Seq::empty())
}

/// The error of a text that has no tokens.
pub open spec fn lex_error(e: LexError) -> ParseError {
    match e {
        LexError::NoToken { at } => ParseError::InvalidToken { location: at },
        LexError::TooLong => ParseError::TooLong,
    }
}

/// The query that a text is, or the reason why it is none.
pub open spec fn parse(src: Seq<char>) -> Result<QueryAst, ParseError> {
    match scan(src) {
        Err(e) => Err(lex_error(e)),
        Ok(tokens) => parse_tokens(tokens),
    }
}

/// The error of a text that has no tokens.
pub(crate) fn from_lex_error(e: LexError) -> (r: ParseError)
    ensures
        r == lex_error(e),
{
    match e {
        LexError::NoToken { at } => ParseError::InvalidToken { location: at },
        LexError::TooLong => ParseError::TooLong,
    }
}

/// The tokens that hold no text.
#[derive(Clone, Copy, Debug, PartialEq, Eq, Structural)]
pub(crate) enum Punct {
    Comma,
    Not,
    ParenClose,
    ParenOpen,
    Period,
    Query,
    Turnstile,
}

impl Punct {
    /// The token, as what it stands for.
    pub(crate) open spec fn token(self) -> TokenSpec {
        match self {
            Punct::Comma => TokenSpec::Comma,
            Punct::Not => TokenSpec::Not,
            Punct::ParenClose => TokenSpec::ParenClose,
            Punct::ParenOpen => TokenSpec::ParenOpen,
            Punct::Period => TokenSpec::Period,
            Punct::Query => TokenSpec::Query,
            Punct::Turnstile => TokenSpec::Turnstile,
        }
    }
}

/// Whether the token at `i` is the one given.
pub(crate) fn punct_at(ts: &Vec<(Point, Token, Point)>, i: usize, p: Punct) -> (r: bool)
    ensures
        r == is_at(tokens_view(ts@), i as int, p.token()),
{
    if i >= ts.len() {
        return false;
    }
    assert(tokens_view(ts@)[i as int].token == ts@[i as int].1@);
    match (&ts[i].1, p) {
        (Token::Comma, Punct::Comma) => true,
        (Token::Not, Punct::Not) => true,
        (Token::ParenClose, Punct::ParenClose) => true,
        (Token::ParenOpen, Punct::ParenOpen) => true,
        (Token::Period, Punct::Period) => true,
        (Token::Query, Punct::Query) => true,
        (Token::Turnstile, Punct::Turnstile) => true,
        _ => false,
    }
}

/// The error for the token at `i`, or for the end of the tokens if there is none.
pub(crate) fn unexpected_at(ts: &Vec<(Point, Token, Point)>, i: usize, expected: Expected) -> (e: ParseError)
    ensures
        e == unexpected(tokens_view(ts@), i as int, expected),
{
    if i < ts.len() {
        ParseError::UnrecognizedToken { start: ts[i].0, end: ts[i].2, expected }
    } else if ts.len() == 0 {
        ParseError::UnrecognizedEof { location: Point(1, 0), expected }
    } else {
        ParseError::UnrecognizedEof { location: ts[ts.len() - 1].2, expected }
    }
}

/// The value that the token at `i` is.
fn value_at(ts: &Vec<(Point, Token, Point)>, i: usize, expected: Expected) -> (r: Result<
    Value,
    ParseError,
>)
    ensures
        match parse_value(tokens_view(ts@), i as int, expected) {
            Ok(v) => r is Ok && r->Ok_0@ == v,
            Err(e) => r == Err::<Value, ParseError>(e),
        },
{
    if i >= ts.len() {
        return Err(unexpected_at(ts, i, expected));
    }
    assert(tokens_view(ts@)[i as int].token == ts@[i as int].1@);
    let span = Span(ts[i].0, ts[i].2);
    match &ts[i].1 {
        Token::Underscore => Ok(Value { inner: ValueInner::Hole, span }),
        Token::String(s) => Ok(Value { inner: ValueInner::Str(s.clone()), span }),
        Token::Var(s) => Ok(Value { inner: ValueInner::Var(s.clone()), span }),
        Token::MetaVar(s) => Ok(Value { inner: ValueInner::MetaVar(s.clone()), span }),
        _ => Err(unexpected_at(ts, i, expected)),
    }
}

/// The values from the token at `i` on, up to the closing parenthesis, and the
/// index behind that parenthesis.
fn values_from(ts: &Vec<(Point, Token, Point)>, i: usize) -> (r: Result<
    (Vec<Value>, usize),
    ParseError,
>)
    ensures
        match parse_values(tokens_view(ts@), i as int, Seq::empty()) {
            Ok((args, after)) => r is Ok && values_ast(r->Ok_0.0@) == args && r->Ok_0.1 == after
                && i < after <= ts.len(),
            Err(e) => r == Err::<(Vec<Value>, usize), ParseError>(e),
        },
{
    let ghost tv = tokens_view(ts@);
    let ghost whole = parse_values(tv, i as int, Seq::empty());
    let mut args: Vec<Value> = Vec::new();
    let mut k: usize = i;
    assert(values_ast(args@) =~= Seq::empty());
    proof {
        lemma_values_advance(tv, i as int, Seq::empty());
    }
    loop
        invariant
            i <= k,
            tv == tokens_view(ts@),
            whole == parse_values(tv, i as int, Seq::empty()),
            whole == parse_values(tv, k as int, values_ast(args@)),
            whole is Ok ==> i < whole->Ok_0.1 <= ts.len(),
        decreases ts.len() - k,
    {
        let expected = if args.len() == 0 {
            Expected::ValueOrParenClose
        } else {
            Expected::Value
        };
        let v = match value_at(ts, k, expected) {
            Ok(v) => v,
            Err(e) => {
                return Err(e);
            },
        };
        let ghost before = values_ast(args@);
        args.push(v);
        assert(values_ast(args@) =~= before.push(v@));
        if punct_at(ts, k + 1, Punct::Comma) {
            k = k + 2;
        } else if punct_at(ts, k + 1, Punct::ParenClose) {
            return Ok((args, k + 2));
        } else {
            return Err(unexpected_at(ts, k + 1, Expected::CommaOrParenClose));
        }
    }
}

/// The call that starts with the token at `i`, and the index behind it.
pub(crate) fn predicate_at(ts: &Vec<(Point, Token, Point)>, i: usize, expected: Expected) -> (r: Result<
    (Predicate, usize),
    ParseError,
>)
    ensures
        match parse_predicate(tokens_view(ts@), i as int, expected) {
            Ok((p, after)) => r is Ok && r->Ok_0.0@ == p && r->Ok_0.1 == after && i < after
                <= ts.len(),
            Err(e) => r == Err::<(Predicate, usize), ParseError>(e),
        },
{
    let ghost tv = tokens_view(ts@);
    if i >= ts.len() {
        return Err(unexpected_at(ts, i, expected));
    }
    assert(tv[i as int].token == ts@[i as int].1@);
    let name = match &ts[i].1 {
        Token::Var(s) => s.clone(),
        _ => {
            return Err(unexpected_at(ts, i, expected));
        },
    };
    if !punct_at(ts, i + 1, Punct::ParenOpen) {
        return Err(unexpected_at(ts, i + 1, Expected::ParenOpen));
    }
    if punct_at(ts, i + 2, Punct::ParenClose) {
        let p = Predicate { name, args: Vec::new(), span: Span(ts[i].0, ts[i + 2].2) };
        assert(values_ast(p.args@) =~= Seq::empty());
        return Ok((p, i + 3));
    }
    match values_from(ts, i + 2) {
        Ok((args, after)) => {
            let p = Predicate { name, args, span: Span(ts[i].0, ts[after - 1].2) };
            Ok((p, after))
        },
        Err(e) => Err(e),
    }
}

/// The literal that starts with the token at `i`, and the index behind it.
fn literal_at(ts: &Vec<(Point, Token, Point)>, i: usize) -> (r: Result<
    ((bool, Predicate), usize),
    ParseError,
>)
    ensures
        match parse_literal(tokens_view(ts@), i as int) {
            Ok((l, after)) => r is Ok && r->Ok_0.0.0 == l.0 && r->Ok_0.0.1@ == l.1 && r->Ok_0.1
                == after && i < after <= ts.len(),
            Err(e) => r == Err::<((bool, Predicate), usize), ParseError>(e),
        },
{
    if punct_at(ts, i, Punct::Not) {
        match predicate_at(ts, i + 1, Expected::Name) {
            Ok((p, after)) => Ok(((true, p), after)),
            Err(e) => Err(e),
        }
    } else {
        match predicate_at(ts, i, Expected::Literal) {
            Ok((p, after)) => Ok(((false, p), after)),
            Err(e) => Err(e),
        }
    }
}

/// The literals from the token at `i` on, up to the period, and the index behind
/// that period.
fn body_from(ts: &Vec<(Point, Token, Point)>, i: usize) -> (r: Result<
    (Vec<(bool, Predicate)>, usize),
    ParseError,
>)
    ensures
        match parse_body(tokens_view(ts@), i as int, Seq::empty()) {
            Ok((body, after)) => r is Ok && body_ast(r->Ok_0.0@) == body && r->Ok_0.1 == after
                && i < after <= ts.len(),
            Err(e) => r == Err::<(Vec<(bool, Predicate)>, usize), ParseError>(e),
        },
{
    let ghost tv = tokens_view(ts@);
    let ghost whole = parse_body(tv, i as int, Seq::empty());
    let mut body: Vec<(bool, Predicate)> = Vec::new();
    let mut k: usize = i;
    assert(body_ast(body@) =~= Seq::empty());
    proof {
        lemma_body_advances(tv, i as int, Seq::empty());
    }
    loop
        invariant
            i <= k,
            tv == tokens_view(ts@),
            whole == parse_body(tv, i as int, Seq::empty()),
            whole == parse_body(tv, k as int, body_ast(body@)),
            whole is Ok ==> i < whole->Ok_0.1 <= ts.len(),
        decreases ts.len() - k,
    {
        let (l, after) = match literal_at(ts, k) {
            Ok(found) => found,
            Err(e) => {
                return Err(e);
            },
        };
        let ghost before = body_ast(body@);
        let ghost lv = (l.0, l.1@);
        body.push(l);
        assert(body_ast(body@) =~= before.push(lv));
        if punct_at(ts, after, Punct::Comma) {
            k = after + 1;
        } else if punct_at(ts, after, Punct::Period) {
            return Ok((body, after + 1));
        } else {
            return Err(unexpected_at(ts, after, Expected::CommaOrPeriod));
        }
    }
}

/// The clause that starts with the token at `i`, and the index behind it.
pub(crate) fn clause_at(ts: &Vec<(Point, Token, Point)>, i: usize, expected: Expected) -> (r: Result<
    (Clause, usize),
    ParseError,
>)
    ensures
        match parse_clause(tokens_view(ts@), i as int, expected) {
            Ok((c, after)) => r is Ok && r->Ok_0.0@ == c && r->Ok_0.1 == after && i < after
                <= ts.len(),
            Err(e) => r == Err::<(Clause, usize), ParseError>(e),
        },
{
    let (head, after) = match predicate_at(ts, i, expected) {
        Ok(found) => found,
        Err(e) => {
            return Err(e);
        },
    };
    if punct_at(ts, after, Punct::Period) {
        let span = Span(head.span.0, ts[after].2);
        let c = Clause { head, body: Vec::new(), span };
        assert(body_ast(c.body@) =~= Seq::empty());
        Ok((c, after + 1))
    } else if punct_at(ts, after, Punct::Turnstile) {
        match body_from(ts, after + 1) {
            Ok((body, end)) => {
                let span = Span(head.span.0, ts[end - 1].2);
                Ok((Clause { head, body, span }, end))
            },
            Err(e) => Err(e),
        }
    } else {
        Err(unexpected_at(ts, after, Expected::PeriodOrTurnstile))
    }
}

/// The query that the tokens are.
pub(crate) fn query_of(ts: &Vec<(Point, Token, Point)>) -> (r: Result<Query, ParseError>)
    ensures
        match parse_tokens(tokens_view(ts@)) {
            Ok(q) => r is Ok && r->Ok_0@ == q,
            Err(e) => r == Err::<Query, ParseError>(e),
        },
{
    let ghost tv = tokens_view(ts@);
    let mut clauses: Vec<Clause> = Vec::new();
    let mut k: usize = 0;
    assert(clauses_ast(clauses@) =~= Seq::empty());
    loop
        invariant
            tv == tokens_view(ts@),
            parse_tokens(tv) == parse_clauses(tv, k as int, clauses_ast(clauses@)),
        decreases ts.len() - k,
    {
        if punct_at(ts, k, Punct::Query) {
            let (goal, after) = match predicate_at(ts, k + 1, Expected::Name) {
                Ok(found) => found,
                Err(e) => {
                    return Err(e);
                },
            };
            if !punct_at(ts, after, Punct::Period) {
                return Err(unexpected_at(ts, after, Expected::Period));
            }
            if after + 1 < ts.len() {
                return Err(unexpected_at(ts, after + 1, Expected::End));
            }
            let span = Span(Point(1, 0), ts[after].2);
            return Ok(Query { clauses, goal, span });
        }
        let (c, after) = match clause_at(ts, k, Expected::ClauseOrGoal) {
            Ok(found) => found,
            Err(e) => {
                return Err(e);
            },
        };
        let ghost before = clauses_ast(clauses@);
        let ghost cv = c@;
        clauses.push(c);
        assert(clauses_ast(clauses@) =~= before.push(cv));
        k = after;
    }
}

impl Query {
    /// Reads a query.
    pub fn from_str(src: &str) -> (r: Result<Query, ParseError>)
        ensures
            match parse(src@) {
                Ok(q) => r is Ok && r->Ok_0@ == q,
                Err(e) => r == Err::<Query, ParseError>(e),
            },
    {
        match tokenize(src) {
            Ok(ts) => query_of(&ts),
            Err(e) => Err(from_lex_error(e)),
        }
    }
}

/// A call without the places in the source.
pub open spec fn strip_predicate(p: PredicateAst) -> PredicateSpec {
    PredicateSpec { name: p.name, args: p.args.map_values(|v: ValueAst| v.inner) }
}

/// A clause without the places in the source.
pub open spec fn strip_clause(c: ClauseAst) -> ClauseSpec {
    ClauseSpec {
        head: strip_predicate(c.head),
        body: c.body.map_values(|l: (bool, PredicateAst)| (l.0, strip_predicate(l.1))),
    }
}

/// A query without the places in the source.
pub open spec fn strip_query(q: QueryAst) -> QuerySpec {
    QuerySpec {
        clauses: q.clauses.map_values(|c: ClauseAst| strip_clause(c)),
        goal: strip_predicate(q.goal),
    }
}

impl Value {
    /// The value without its place in the source.
    pub fn strip(&self) -> (r: crate::query::Value)
        ensures
            r@ == self@.inner,
    {
        match &self.inner {
            ValueInner::Hole => crate::query::Value::Hole,
            ValueInner::Str(s) => crate::query::Value::Str(s.clone()),
            ValueInner::Var(s) => crate::query::Value::Var(s.clone()),
            ValueInner::MetaVar(s) => crate::query::Value::MetaVar(s.clone()),
        }
    }

    /// The value as it is written.
    pub fn to_string(&self) -> (s: String)
        ensures
            s@ == crate::query::show_value(self@.inner),
    {
        self.strip().to_string()
    }
}

impl Predicate {
    /// The call without the places in the source.
    pub fn strip(&self) -> (r: crate::query::Predicate)
        ensures
            r@ == strip_predicate(self@),
    {
        let mut args: Vec<crate::query::Value> = Vec::new();
        let mut i: usize = 0;
        while i < self.args.len()
            invariant
                i <= self.args.len(),
                args.len() == i,
                forall|k: int| 0 <= k < i ==> args@[k]@ == self.args@[k]@.inner,
            decreases self.args.len() - i,
        {
            args.push(self.args[i].strip());
            i += 1;
        }
        let r = crate::query::Predicate { name: self.name.clone(), args };
        assert(r@.args =~= strip_predicate(self@).args);
        r
    }

    /// The call as it is written.
    pub fn to_string(&self) -> (s: String)
        ensures
            s@ == crate::query::show_predicate(strip_predicate(self@)),
    {
        self.strip().to_string()
    }
}

impl Clause {
    /// The clause without the places in the source.
    pub fn strip(&self) -> (r: crate::query::Clause)
        ensures
            r@ == strip_clause(self@),
    {
        let mut body: Vec<(bool, crate::query::Predicate)> = Vec::new();
        let mut i: usize = 0;
        while i < self.body.len()
            invariant
                i <= self.body.len(),
                body.len() == i,
                forall|k: int|
                    0 <= k < i ==> body@[k].0 == self.body@[k].0 && body@[k].1@ == strip_predicate(
                        self.body@[k].1@,
                    ),
            decreases self.body.len() - i,
        {
            body.push((self.body[i].0, self.body[i].1.strip()));
            i += 1;
        }
        let r = crate::query::Clause { head: self.head.strip(), body };
        assert(r@.body =~= strip_clause(self@).body);
        r
    }

    /// The clause as it is written.
    pub fn to_string(&self) -> (s: String)
        ensures
            s@ == crate::query::show_clause(strip_clause(self@)),
    {
        self.strip().to_string()
    }
}

impl Query {
    /// The query without the places in the source.
    pub fn strip(&self) -> (r: crate::query::Query)
        ensures
            r@ == strip_query(self@),
    {
        let mut clauses: Vec<crate::query::Clause> = Vec::new();
        let mut i: usize = 0;
        while i < self.clauses.len()
            invariant
                i <= self.clauses.len(),
                clauses.len() == i,
                forall|k: int| 0 <= k < i ==> clauses@[k]@ == strip_clause(self.clauses@[k]@),
            decreases self.clauses.len() - i,
        {
            clauses.push(self.clauses[i].strip());
            i += 1;
        }
        let r = crate::query::Query { clauses, goal: self.goal.strip() };
        assert(r@.clauses =~= strip_query(self@).clauses);
        r
    }

    /// The query as it is written.
    pub fn to_string(&self) -> (s: String)
        ensures
            s@ == crate::query::show_query(strip_query(self@)),
    {
        self.strip().to_string()
    }
}

/// The value that the tokens are.
pub open spec fn parse_value_tokens(ts: Seq<Located>) -> Result<ValueAst, ParseError> {
    match parse_value(ts, 0, Expected::Value) {
        Err(e) => Err(e),
        Ok(v) => if ts.len() > 1 {
            Err(unexpected(ts, 1, Expected::End))
        } else {
            Ok(v)
        },
    }
}

/// The call that the tokens are.
pub open spec fn parse_predicate_tokens(ts: Seq<Located>) -> Result<PredicateAst, ParseError> {
    match parse_predicate(ts, 0, Expected::Name) {
        Err(e) => Err(e),
        Ok((p, after)) => if after < ts.len() {
            Err(unexpected(ts, after, Expected::End))
        } else {
            Ok(p)
        },
    }
}

/// The clause that the tokens are.
pub open spec fn parse_clause_tokens(ts: Seq<Located>) -> Result<ClauseAst, ParseError> {
    match parse_clause(ts, 0, Expected::Name) {
        Err(e) => Err(e),
        Ok((c, after)) => if after < ts.len() {
            Err(unexpected(ts, after, Expected::End))
        } else {
            Ok(c)
        },
    }
}

/// What a text is, read by `of` from its tokens, or the reason why it is nothing of the kind.
pub open spec fn parse_with<A>(
    src: Seq<char>,
    of: spec_fn(Seq<Located>) -> Result<A, ParseError>,
) -> Result<A, ParseError> {
    match scan(src) {
        Err(e) => Err(lex_error(e)),
        Ok(tokens) => of(tokens),
    }
}

impl Value {
    /// Reads a value.
    pub fn from_str(src: &str) -> (r: Result<Value, ParseError>)
        ensures
            match parse_with(src@, |ts: Seq<Located>| parse_value_tokens(ts)) {
                Ok(v) => r is Ok && r->Ok_0@ == v,
                Err(e) => r == Err::<Value, ParseError>(e),
            },
    {
        let ts = match tokenize(src) {
            Ok(ts) => ts,
            Err(e) => {
                return Err(from_lex_error(e));
            },
        };
        let v = match value_at(&ts, 0, Expected::Value) {
            Ok(v) => v,
            Err(e) => {
                return Err(e);
            },
        };
        if ts.len() > 1 {
            return Err(unexpected_at(&ts, 1, Expected::End));
        }
        Ok(v)
    }
}

impl Predicate {
    /// Reads a call.
    pub fn from_str(src: &str) -> (r: Result<Predicate, ParseError>)
        ensures
            match parse_with(src@, |ts: Seq<Located>| parse_predicate_tokens(ts)) {
                Ok(p) => r is Ok && r->Ok_0@ == p,
                Err(e) => r == Err::<Predicate, ParseError>(e),
            },
    {
        let ts = match tokenize(src) {
            Ok(ts) => ts,
            Err(e) => {
                return Err(from_lex_error(e));
            },
        };
        let (p, after) = match predicate_at(&ts, 0, Expected::Name) {
            Ok(found) => found,
            Err(e) => {
                return Err(e);
            },
        };
        if after < ts.len() {
            return Err(unexpected_at(&ts, after, Expected::End));
        }
        Ok(p)
    }
}

impl Clause {
    /// Reads a clause.
    pub fn from_str(src: &str) -> (r: Result<Clause, ParseError>)
        ensures
            match parse_with(src@, |ts: Seq<Located>| parse_clause_tokens(ts)) {
                Ok(c) => r is Ok && r->Ok_0@ == c,
                Err(e) => r == Err::<Clause, ParseError>(e),
            },
    {
        let ts = match tokenize(src) {
            Ok(ts) => ts,
            Err(e) => {
                return Err(from_lex_error(e));
            },
        };
        let (c, after) = match clause_at(&ts, 0, Expected::Name) {
            Ok(found) => found,
            Err(e) => {
                return Err(e);
            },
        };
        if after < ts.len() {
            return Err(unexpected_at(&ts, after, Expected::End));
        }
        Ok(c)
    }
}

impl Expected {
    /// What was expected, in words.
    pub open spec fn words(self) -> Seq<char> {
        match self {
            Expected::ClauseOrGoal => "the name of a predicate or `?-`"@,
            Expected::Command => "the name of a command"@,
            Expected::CommaOrParenClose => "`,` or `)`"@,
            Expected::CommaOrPeriod => "`,` or `.`"@,
            Expected::End => "the end of the text"@,
            Expected::Literal => "the name of a predicate or `!`"@,
            Expected::Name => "the name of a predicate"@,
            Expected::Number => "a number"@,
            Expected::ParenOpen => "`(`"@,
            Expected::Period => "`.`"@,
            Expected::PeriodOrTurnstile => "`.` or `:-`"@,
            Expected::Text => "a string or a name"@,
            Expected::Value => "a value"@,
            Expected::ValueOrParenClose => "a value or `)`"@,
        }
    }

    /// Appends what was expected, in words.
    fn write(&self, out: &mut Vec<char>)
        ensures
            final(out)@ == old(out)@ + self.words(),
    {
        match self {
            Expected::ClauseOrGoal => push_str(out, "the name of a predicate or `?-`"),
            Expected::Command => push_str(out, "the name of a command"),
            Expected::CommaOrParenClose => push_str(out, "`,` or `)`"),
            Expected::CommaOrPeriod => push_str(out, "`,` or `.`"),
            Expected::End => push_str(out, "the end of the text"),
            Expected::Literal => push_str(out, "the name of a predicate or `!`"),
            Expected::Name => push_str(out, "the name of a predicate"),
            Expected::Number => push_str(out, "a number"),
            Expected::ParenOpen => push_str(out, "`(`"),
            Expected::Period => push_str(out, "`.`"),
            Expected::PeriodOrTurnstile => push_str(out, "`.` or `:-`"),
            Expected::Text => push_str(out, "a string or a name"),
            Expected::Value => push_str(out, "a value"),
            Expected::ValueOrParenClose => push_str(out, "a value or `)`"),
        }
    }
}

impl ParseError {
    /// The message of the error: the place, then what is wrong there.
    pub open spec fn message(self) -> Seq<char> {
        match self {
            ParseError::InvalidToken { location } => location.shown() + ": no token starts here"@,
            ParseError::TooLong => "the text is too long"@,
            ParseError::UnrecognizedEof { location, expected } => location.shown()
                + ": the text ends where "@ + expected.words() + " had to follow"@,
            ParseError::UnrecognizedToken { start, end, expected } => start.shown() + "-"@
                + end.shown() + ": expected "@ + expected.words(),
        }
    }

    /// The message of the error.
    pub fn to_string(&self) -> (s: String)
        ensures
            s@ == self.message(),
    {
        let mut out: Vec<char> = Vec::new();
        match self {
            ParseError::InvalidToken { location } => {
                push_str(&mut out, location.to_string().as_str());
                push_str(&mut out, ": no token starts here");
            },
            ParseError::TooLong => {
                push_str(&mut out, "the text is too long");
            },
            ParseError::UnrecognizedEof { location, expected } => {
                push_str(&mut out, location.to_string().as_str());
                push_str(&mut out, ": the text ends where ");
                expected.write(&mut out);
                push_str(&mut out, " had to follow");
            },
            ParseError::UnrecognizedToken { start, end, expected } => {
                push_str(&mut out, start.to_string().as_str());
                push_str(&mut out, "-");
                push_str(&mut out, end.to_string().as_str());
                push_str(&mut out, ": expected ");
                expected.write(&mut out);
            },
        }
        assert(out@ =~= self.message());
        string_of(&out)
    }
}

} // verus!
