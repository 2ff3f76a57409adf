//! An implementation of the G1 query language made for queries that are embedded
//! in a host program.
//!
//! The host hands over its tokens as plain values. They are mapped to the tokens
//! of the written language and read by the same parser:
//!
//! - a string literal is a string;
//! - `_` is a hole;
//! - an identifier before `(` is the name of a predicate;
//! - any other identifier that starts with an upper-case letter or `_` is a variable;
//! - any other identifier is a constant, the string of its spelling;
//! - `$` and an identifier are a metavariable, which the host fills in;
//! - `:` and `-` are `:-`, `?` and `-` are `?-`; `,`, `.`, `!`, `(` and `)` are themselves.
//!
//! A hole may stand in the body of a clause and in the goal, not in a head.

use crate::lang::{parse_tokens, Expected, ParseError, Query, QueryAst};
use crate::lexer::{tokens_view, Located, Point, TokenSpec};
use crate::text::chars_of;
use vstd::prelude::*;

verus! {

/// The place of a token of the host, with a mark for strings that were identifiers.
#[derive(Clone, Copy, Debug, PartialEq, Eq, Structural)]
pub struct Span {
    /// Whether the span is that of an identifier that was read as a string.
    pub is_ident: bool,
    /// Where the token starts.
    pub start: Point,
    /// Where the token ends.
    pub end: Point,
}

impl Span {
    /// Combines two `Span`s: from the start of the first to the end of the second.
    pub fn join(self, other: Self) -> (r: Span)
        ensures
            r == (Span { is_ident: false, start: self.start, end: other.end }),
    {
        Span { is_ident: false, start: self.start, end: other.end }
    }
}

/// A `Token` flattened from the tokens of the host.
#[derive(Clone, Debug, PartialEq, Eq)]
pub enum Token {
    /// A close curly brace character (`}`).
    BraceClose(Span),
    /// An open curly brace character (`{`).
    BraceOpen(Span),
    /// A close square bracket character (`]`).
    BracketClose(Span),
    /// An open square bracket character (`[`).
    BracketOpen(Span),
    /// A hole.
    Hole(Span),
    /// An identifier.
    Ident(String, Span),
    /// A literal character (`'a'`), number (`2.3`), etc. Notably does not include a literal string
    /// (`"hello"`).
    Literal(String, Span),
    /// A literal string (`"hello"`), by what it holds.
    LiteralString(String, Span),
    /// A close parenthesis character (`)`).
    ParenClose(Span),
    /// An open parenthesis character (`(`).
    ParenOpen(Span),
    /// A single punctuation character (`+`, `,`, `$`, etc.).
    Punct(char, Span),
}

/// What a `Token` stands for.
pub enum HostToken {
    BraceClose(Span),
    BraceOpen(Span),
    BracketClose(Span),
    BracketOpen(Span),
    Hole(Span),
    Ident(Seq<char>, Span),
    Literal(Seq<char>, Span),
    LiteralString(Seq<char>, Span),
    ParenClose(Span),
    ParenOpen(Span),
    Punct(char, Span),
}

impl View for Token {
    type V = HostToken;

    open spec fn view(&self) -> HostToken {
        match self {
            Token::BraceClose(s) => HostToken::BraceClose(*s),
            Token::BraceOpen(s) => HostToken::BraceOpen(*s),
            Token::BracketClose(s) => HostToken::BracketClose(*s),
            Token::BracketOpen(s) => HostToken::BracketOpen(*s),
            Token::Hole(s) => HostToken::Hole(*s),
            Token::Ident(t, s) => HostToken::Ident(t@, *s),
            Token::Literal(t, s) => HostToken::Literal(t@, *s),
            Token::LiteralString(t, s) => HostToken::LiteralString(t@, *s),
            Token::ParenClose(s) => HostToken::ParenClose(*s),
            Token::ParenOpen(s) => HostToken::ParenOpen(*s),
            Token::Punct(c, s) => HostToken::Punct(*c, *s),
        }
    }
}

impl HostToken {
    /// The span of the token.
    pub open spec fn span(self) -> Span {
        match self {
            HostToken::BraceClose(s) => s,
            HostToken::BraceOpen(s) => s,
            HostToken::BracketClose(s) => s,
            HostToken::BracketOpen(s) => s,
            HostToken::Hole(s) => s,
            HostToken::Ident(_, s) => s,
            HostToken::Literal(_, s) => s,
            HostToken::LiteralString(_, s) => s,
            HostToken::ParenClose(s) => s,
            HostToken::ParenOpen(s) => s,
            HostToken::Punct(_, s) => s,
        }
    }
}

impl Token {
    /// Returns the span of the token.
    pub fn span(&self) -> (r: Span)
        ensures
            r == self@.span(),
    {
        match self {
            Token::BraceClose(span) => *span,
            Token::BraceOpen(span) => *span,
            Token::BracketClose(span) => *span,
            Token::BracketOpen(span) => *span,
            Token::Hole(span) => *span,
            Token::Ident(_, span) => *span,
            Token::Literal(_, span) => *span,
            Token::LiteralString(_, span) => *span,
            Token::ParenClose(span) => *span,
            Token::ParenOpen(span) => *span,
            Token::Punct(_, span) => *span,
        }
    }
}

/// The tokens of a list, each as what it stands for.
pub open spec fn host_view(tokens: Seq<Token>) -> Seq<HostToken> {
    tokens.map_values(|t: Token| t@)
}

/// Whether an identifier is a variable where it is no name of a predicate: it
/// starts with an upper-case letter or `_`.
pub open spec fn is_variable(name: Seq<char>) -> bool {
    name.len() > 0 && (('A' <= name[0] && name[0] <= 'Z') || name[0] == '_')
}

/// Whether the token at `i` is the punctuation character `c`.
pub open spec fn punct_is(ts: Seq<HostToken>, i: int, c: char) -> bool {
    0 <= i < ts.len() && ts[i] is Punct && ts[i]->Punct_0 == c
}

/// A token of the written language between the places of a span.
pub open spec fn located(token: TokenSpec, span: Span) -> Located {
    Located { start: span.start, token, end: span.end }
}

/// The error for a token of the host that the language has no place for.
pub open spec fn misplaced(t: HostToken) -> ParseError {
    ParseError::InvalidToken { location: t.span().start }
}

/// The token of the written language that starts with the token of the host at
/// `i`, with the number of tokens of the host that it takes, or the error that
/// there is none.
pub open spec fn surface_at(ts: Seq<HostToken>, i: int) -> Result<(Located, int), ParseError> {
    match ts[i] {
        HostToken::Hole(s) => Ok((located(TokenSpec::Underscore, s), 1)),
        HostToken::Ident(name, s) => if name == seq!['_'] {
            Ok((located(TokenSpec::Underscore, s), 1))
        } else if i + 1 < ts.len() && ts[i + 1] is ParenOpen {
            Ok((located(TokenSpec::Var(name), s), 1))
        } else if is_variable(name) {
            Ok((located(TokenSpec::Var(name), s), 1))
        } else {
            Ok((located(TokenSpec::String(name), s), 1))
        },
        HostToken::LiteralString(text, s) => Ok((located(TokenSpec::String(text), s), 1)),
        HostToken::ParenClose(s) => Ok((located(TokenSpec::ParenClose, s), 1)),
        HostToken::ParenOpen(s) => Ok((located(TokenSpec::ParenOpen, s), 1)),
        HostToken::Punct(c, s) => if c == ',' {
            Ok((located(TokenSpec::Comma, s), 1))
        } else if c == '.' {
            Ok((located(TokenSpec::Period, s), 1))
        } else if c == '!' {
            Ok((located(TokenSpec::Not, s), 1))
        } else if c == ':' && punct_is(ts, i + 1, '-') {
            Ok(
                (
                    Located { start: s.start, token: TokenSpec::Turnstile, end: ts[i + 1].span().end },
                    2,
                ),
            )
        } else if c == '?' && punct_is(ts, i + 1, '-') {
            Ok(
                (
                    Located { start: s.start, token: TokenSpec::Query, end: ts[i + 1].span().end },
                    2,
                ),
            )
        } else if c == '$' && i + 1 < ts.len() && ts[i + 1] is Ident {
            Ok(
                (
                    Located {
                        start: s.start,
                        token: TokenSpec::MetaVar(ts[i + 1]->Ident_0),
                        end: ts[i + 1].span().end,
                    },
                    2,
                ),
            )
        } else {
            Err(misplaced(ts[i]))
        },
        _ => Err(misplaced(ts[i])),
    }
}

/// The tokens of the written language that the tokens of the host from `i` on
/// are, behind the tokens `acc`.
pub open spec fn surface_from(ts: Seq<HostToken>, i: int, acc: Seq<Located>) -> Result<
    Seq<Located>,
    ParseError,
>
    decreases ts.len() - i,
{
    if i < 0 || i >= ts.len() {
        Ok(acc)
    } else {
        match surface_at(ts, i) {
            Err(e) => Err(e),
            Ok((token, taken)) => if taken == 2 {
                surface_from(ts, i + 2, acc.push(token))
            } else {
                surface_from(ts, i + 1, acc.push(token))
            },
        }
    }
}

/// The first hole among the arguments of the head of a clause, as an error.
pub open spec fn head_hole(q: QueryAst, k: int) -> Option<ParseError>
    decreases q.clauses.len() - k,
{
    if k < 0 || k >= q.clauses.len() {
        None
    } else {
        match hole_in(q.clauses[k].head.args, 0) {
            Some(e) => Some(e),
            None => head_hole(q, k + 1),
        }
    }
}

/// The first hole among the values from `j` on, as an error.
pub open spec fn hole_in(args: Seq<crate::lang::ValueAst>, j: int) -> Option<ParseError>
    decreases args.len() - j,
{
    if j < 0 || j >= args.len() {
        None
    } else if args[j].inner is Hole {
        Some(
            ParseError::UnrecognizedToken {
                start: args[j].span.0,
                end: args[j].span.1,
                expected: Expected::Value,
            },
        )
    } else {
        hole_in(args, j + 1)
    }
}

/// The query that the tokens of the host are, or the reason why they are none.
pub open spec fn embedded(ts: Seq<HostToken>) -> Result<QueryAst, ParseError> {
    match surface_from(ts, 0, Seq::empty()) {
        Err(e) => Err(e),
        Ok(tokens) => match parse_tokens(tokens) {
            Err(e) => Err(e),
            Ok(q) => match head_hole(q, 0) {
                Some(e) => Err(e),
                None => Ok(q),
            },
        },
    }
}

/// Whether the token at `i` is the punctuation character `c`.
fn punct_at(tokens: &Vec<Token>, i: usize, c: char) -> (r: bool)
    ensures
        r == punct_is(host_view(tokens@), i as int, c),
{
    if i >= tokens.len() {
        return false;
    }
    assert(host_view(tokens@)[i as int] == tokens@[i as int]@);
    match &tokens[i] {
        Token::Punct(d, _) => *d == c,
        _ => false,
    }
}

/// Whether an identifier is a variable where it is no name of a predicate.
fn variable(name: &String) -> (r: bool)
    ensures
        r == is_variable(name@),
{
    let chars = chars_of(name.as_str());
    if chars.len() == 0 {
        return false;
    }
    let c = chars[0];
    ('A' <= c && c <= 'Z') || c == '_'
}

/// Whether an identifier is `_`.
fn underscore(name: &String) -> (r: bool)
    ensures
        r == (name@ == seq!['_']),
{
    let chars = chars_of(name.as_str());
    let r = chars.len() == 1 && chars[0] == '_';
    if r {
        assert(name@ =~= seq!['_']);
    }
    r
}

/// Converts the tokens of the host to tokens of the written language.
pub fn to_surface(tokens: &Vec<Token>) -> (r: Result<
    Vec<(Point, crate::lexer::Token, Point)>,
    ParseError,
>)
    ensures
        match surface_from(host_view(tokens@), 0, Seq::empty()) {
            Ok(found) => r is Ok && tokens_view(r->Ok_0@) == found,
            Err(e) => r == Err::<Vec<(Point, crate::lexer::Token, Point)>, ParseError>(e),
        },
{
    let ghost ts = host_view(tokens@);
    let mut out: Vec<(Point, crate::lexer::Token, Point)> = Vec::new();
    let mut i: usize = 0;
    assert(tokens_view(out@) =~= Seq::empty());
    while i < tokens.len()
        invariant
            i <= tokens.len(),
            ts == host_view(tokens@),
            surface_from(ts, 0, Seq::empty()) == surface_from(ts, i as int, tokens_view(out@)),
        decreases tokens.len() - i,
    {
        assert(ts[i as int] == tokens@[i as int]@);
        if i + 1 < tokens.len() {
            assert(ts[i + 1] == tokens@[i + 1]@);
        }
        let here = tokens[i].span();
        let follower: Span = if i + 1 < tokens.len() {
            tokens[i + 1].span()
        } else {
            here
        };
        let mut taken: usize = 1;
        let token: crate::lexer::Token = match &tokens[i] {
            Token::Hole(_) => crate::lexer::Token::Underscore,
            Token::Ident(name, _) => {
                let before_paren: bool = i + 1 < tokens.len() && match &tokens[i + 1] {
                    Token::ParenOpen(_) => true,
                    _ => false,
                };
                if underscore(name) {
                    crate::lexer::Token::Underscore
                } else if before_paren || variable(name) {
                    crate::lexer::Token::Var(name.clone())
                } else {
                    crate::lexer::Token::String(name.clone())
                }
            },
            Token::LiteralString(text, _) => crate::lexer::Token::String(text.clone()),
            Token::ParenClose(_) => crate::lexer::Token::ParenClose,
            Token::ParenOpen(_) => crate::lexer::Token::ParenOpen,
            Token::Punct(c, _) => {
                if *c == ',' {
                    crate::lexer::Token::Comma
                } else if *c == '.' {
                    crate::lexer::Token::Period
                } else if *c == '!' {
                    crate::lexer::Token::Not
                } else if *c == ':' && punct_at(tokens, i + 1, '-') {
                    taken = 2;
                    crate::lexer::Token::Turnstile
                } else if *c == '?' && punct_at(tokens, i + 1, '-') {
                    taken = 2;
                    crate::lexer::Token::Query
                } else if *c == '$' && i + 1 < tokens.len() {
                    match &tokens[i + 1] {
                        Token::Ident(name, _) => {
                            taken = 2;
                            crate::lexer::Token::MetaVar(name.clone())
                        },
                        _ => {
                            return Err(ParseError::InvalidToken { location: here.start });
                        },
                    }
                } else {
                    return Err(ParseError::InvalidToken { location: here.start });
                }
            },
            _ => {
                return Err(ParseError::InvalidToken { location: here.start });
            },
        };
        let end: Point = if taken == 2 {
            follower.end
        } else {
            here.end
        };
        let ghost before = tokens_view(out@);
        let ghost seen = Located { start: here.start, token: token@, end };
        out.push((here.start, token, end));
        assert(tokens_view(out@) =~= before.push(seen));
        i = i + taken;
    }
    Ok(out)
}

/// Looks for a hole among the arguments of the head of a clause.
fn find_head_hole(q: &Query) -> (r: Option<ParseError>)
    ensures
        r == head_hole(q@, 0),
{
    let mut k: usize = 0;
    while k < q.clauses.len()
        invariant
            k <= q.clauses.len(),
            head_hole(q@, 0) == head_hole(q@, k as int),
        decreases q.clauses.len() - k,
    {
        let args = &q.clauses[k].head.args;
        assert(q@.clauses[k as int] == q.clauses@[k as int]@);
        let ghost av = q@.clauses[k as int].head.args;
        let mut j: usize = 0;
        while j < args.len()
            invariant
                j <= args.len(),
                k < q.clauses.len(),
                head_hole(q@, 0) == head_hole(q@, k as int),
                args == &q.clauses[k as int].head.args,
                av == q@.clauses[k as int].head.args,
                av == crate::lang::values_ast(args@),
                hole_in(av, 0) == hole_in(av, j as int),
            decreases args.len() - j,
        {
            assert(av[j as int] == args@[j as int]@);
            match &args[j].inner {
                crate::lang::ValueInner::Hole => {
                    return Some(
                        ParseError::UnrecognizedToken {
                            start: args[j].span.0,
                            end: args[j].span.1,
                            expected: Expected::Value,
                        },
                    );
                },
                _ => {},
            }
            j += 1;
        }
        k += 1;
    }
    None
}

/// Reads a query from the tokens of the host.
pub fn parse(tokens: &Vec<Token>) -> (r: Result<Query, ParseError>)
    ensures
        match embedded(host_view(tokens@)) {
            Ok(q) => r is Ok && r->Ok_0@ == q,
            Err(e) => r == Err::<Query, ParseError>(e),
        },
{
    let surface = match to_surface(tokens) {
        Ok(surface) => surface,
        Err(e) => {
            return Err(e);
        },
    };
    let query = match crate::lang::query_of(&surface) {
        Ok(query) => query,
        Err(e) => {
            return Err(e);
        },
    };
    match find_head_hole(&query) {
        Some(e) => Err(e),
        None => Ok(query),
    }
}

/// The query that tokens of the host are once it is built and validated, or the
/// message of what is wrong with them.
pub fn query_proc_macro(tokens: &Vec<Token>) -> (r: Result<
    crate::validated::ValidatedQuery<crate::lexer::Span>,
    String,
>)
    ensures
        match embedded(host_view(tokens@)) {
            Err(e) => r is Err && r->Err_0@ == e.message(),
            Ok(q) => match crate::visitors::validated_of(q) {
                Err(_) => r is Err,
                Ok(m) => if m.valid() {
                    r is Ok && r->Ok_0@ == m
                } else {
                    r is Err
                },
            },
        },
{
    let query = match parse(tokens) {
        Ok(query) => query,
        Err(e) => {
            return Err(e.to_string());
        },
    };
    let built = match query.to_validated() {
        Ok(built) => built,
        Err(e) => {
            return Err(e.to_string());
        },
    };
    match built.validate() {
        Ok(()) => Ok(built),
        Err(e) => Err(e.to_string()),
    }
}

} // verus!
