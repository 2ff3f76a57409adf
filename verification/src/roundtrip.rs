//! Reading back what was written: a query that is written out and read again is
//! the query that was written.

use crate::lang::{
    is_at, parse_body, parse_clause, parse_clauses, parse_literal, parse_predicate, parse_tokens,
    parse_value, parse_values, strip_clause, strip_predicate, strip_query, ClauseAst, Expected,
    PredicateAst, ValueAst,
};
use crate::lexer::{
    is_blank, is_letter, is_meta_part, is_name_part, lemma_token_bounds, lemma_trivia_end_behind,
    lex, lex_from, locate, meta_end, name_end, piece_at, quote_end, token_at, token_end,
    token_kind, trivia_end, unescape_from, Lexeme, Located, StringToken, TokenSpec,
};
use crate::query::{
    escape, escape_char, is_bare, read, show_body, show_clause, show_clauses, show_literal,
    show_name, show_predicate, show_query, show_value, show_values, ClauseSpec, PredicateSpec,
    QuerySpec, ValueSpec,
};
use crate::text::byte_len;
use vstd::prelude::*;

verus! {

/// The tokens of a lexing, without their places, if it is no error.
pub open spec fn kinds(r: Result<Seq<Lexeme>, int>) -> Option<Seq<TokenSpec>> {
    match r {
        Ok(lexemes) => Some(lexemes.map_values(|l: Lexeme| l.token)),
        Err(_) => None,
    }
}

/// The tokens `first` and then those of `rest`, if `rest` is no error.
pub open spec fn followed(first: Seq<TokenSpec>, rest: Option<Seq<TokenSpec>>) -> Option<Seq<TokenSpec>> {
    match rest {
        Some(more) => Some(first + more),
        None => None,
    }
}

/// Whether the text `piece` stands in `src` at the index `i`.
pub open spec fn has_at(src: Seq<char>, i: int, piece: Seq<char>) -> bool {
    0 <= i && i + piece.len() <= src.len() && src.subrange(i, i + piece.len()) == piece
}

/// A text that stands at `i` has each of its characters at its place behind `i`.
pub proof fn lemma_has_at_char(src: Seq<char>, i: int, piece: Seq<char>, k: int)
    requires
        has_at(src, i, piece),
        0 <= k < piece.len(),
    ensures
        src[i + k] == piece[k],
{
    assert(src.subrange(i, i + piece.len())[k] == src[i + k]);
}

/// Where two texts put together stand, the first stands, and the second behind it.
pub proof fn lemma_has_at_split(src: Seq<char>, i: int, a: Seq<char>, b: Seq<char>)
    requires
        has_at(src, i, a + b),
    ensures
        has_at(src, i, a),
        has_at(src, i + a.len(), b),
{
    let whole = src.subrange(i, i + (a + b).len());
    assert(src.subrange(i, i + a.len()) =~= whole.subrange(0, a.len() as int));
    assert((a + b).subrange(0, a.len() as int) =~= a);
    assert(src.subrange(i + a.len(), i + a.len() + b.len()) =~= whole.subrange(
        a.len() as int,
        (a + b).len() as int,
    ));
    assert((a + b).subrange(a.len() as int, (a + b).len() as int) =~= b);
}

/// A token at `i`, where neither a blank nor a `/` stands, is the first token from `i` on.
pub proof fn lemma_token_first(src: Seq<char>, i: int, t: TokenSpec, end: int)
    requires
        0 <= i < src.len(),
        !is_blank(src[i]),
        src[i] != '/',
        token_at(src, i) == Some((t, end)),
        i < end <= src.len(),
    ensures
        kinds(lex_from(src, i)) == followed(seq![t], kinds(lex_from(src, end))),
{
    assert(trivia_end(src, i, false) == i);
    match lex_from(src, end) {
        Ok(rest) => {
            let first = Lexeme { start: i, token: t, end };
            assert((seq![first] + rest).map_values(|l: Lexeme| l.token) =~= seq![t]
                + rest.map_values(|l: Lexeme| l.token));
        },
        Err(e) => {},
    }
}

/// A blank at `i` changes nothing about the tokens from `i` on.
pub proof fn lemma_blank_skipped(src: Seq<char>, i: int)
    requires
        0 <= i < src.len(),
        is_blank(src[i]),
    ensures
        lex_from(src, i) == lex_from(src, i + 1),
{
    lemma_trivia_end_behind(src, i + 1, false);
    assert(trivia_end(src, i, false) == trivia_end(src, i + 1, false));
}

/// Behind the end of the text there are no tokens.
pub proof fn lemma_no_tokens_at_end(src: Seq<char>, i: int)
    requires
        i >= src.len(),
    ensures
        kinds(lex_from(src, i)) == Some(Seq::<TokenSpec>::empty()),
{
    assert(trivia_end(src, i, false) == i);
    assert(Seq::<Lexeme>::empty().map_values(|l: Lexeme| l.token) =~= Seq::<TokenSpec>::empty());
}

/// A run of characters that may stand in a bare name, behind which none stands,
/// is where the name ends.
pub proof fn lemma_name_run(src: Seq<char>, k: int, end: int)
    requires
        0 <= k <= end <= src.len(),
        forall|m: int| k <= m < end ==> is_name_part(#[trigger] src[m]),
        end == src.len() || !is_name_part(src[end]),
    ensures
        name_end(src, k) == end,
    decreases end - k,
{
    if k < end {
        lemma_name_run(src, k + 1, end);
    }
}

/// A run of characters that may stand in the name of a metavariable, behind which
/// none stands, is where the name ends.
pub proof fn lemma_meta_run(src: Seq<char>, k: int, end: int)
    requires
        0 <= k <= end <= src.len(),
        forall|m: int| k <= m < end ==> is_meta_part(#[trigger] src[m]),
        end == src.len() || !is_meta_part(src[end]),
    ensures
        meta_end(src, k) == end,
    decreases end - k,
{
    if k < end {
        lemma_meta_run(src, k + 1, end);
    }
}

/// An escaped text starts with its first character escaped.
pub proof fn lemma_escape_first(s: Seq<char>)
    requires
        s.len() > 0,
    ensures
        escape(s) == escape_char(s[0]) + escape(s.drop_first()),
    decreases s.len(),
{
    if s.len() == 1 {
        assert(s.drop_last() =~= Seq::empty());
        assert(s.drop_first() =~= Seq::empty());
        assert(escape(s.drop_last()) =~= Seq::empty());
        assert(escape(s) =~= escape_char(s[0]) + escape(s.drop_first()));
    } else {
        lemma_escape_first(s.drop_last());
        assert(s.drop_last().drop_first() =~= s.drop_first().drop_last());
        assert(s.drop_first().last() == s.last());
        assert(s.drop_last()[0] == s[0]);
        assert(escape(s) =~= escape_char(s[0]) + escape(s.drop_first()));
    }
}

/// Behind an escaped text with the quote `quote` at its end, that quote is the closing one.
pub proof fn lemma_quote_found(src: Seq<char>, k: int, s: Seq<char>, quote: char)
    requires
        quote == '"' || quote == '\'',
        has_at(src, k, escape(s) + seq![quote]),
    ensures
        quote_end(src, k, quote) == Some(k + escape(s).len()),
    decreases s.len(),
{
    lemma_has_at_split(src, k, escape(s), seq![quote]);
    if s.len() == 0 {
        lemma_has_at_char(src, k, seq![quote], 0);
    } else {
        lemma_escape_first(s);
        let c = s[0];
        let rest = s.drop_first();
        let first = escape_char(c);
        assert(escape(s) + seq![quote] =~= first + (escape(rest) + seq![quote]));
        lemma_has_at_split(src, k, first, escape(rest) + seq![quote]);
        lemma_has_at_char(src, k, first, 0);
        if first.len() == 2 {
            lemma_has_at_char(src, k, first, 1);
        }
        lemma_quote_found(src, k + first.len(), rest, quote);
        lemma_has_at_split(src, k + first.len(), escape(rest), seq![quote]);
        assert(k + first.len() + escape(rest).len() < src.len());
    }
}

/// The escaped form of a text stands for the text.
pub proof fn lemma_unescape(body: Seq<char>, k: int, s: Seq<char>)
    requires
        has_at(body, k, escape(s)),
        k + escape(s).len() == body.len(),
    ensures
        unescape_from(body, k) == s,
    decreases s.len(),
{
    if s.len() == 0 {
        assert(piece_at(body, k) == StringToken::End);
        assert(unescape_from(body, k) =~= s);
    } else {
        lemma_escape_first(s);
        let c = s[0];
        let rest = s.drop_first();
        let first = escape_char(c);
        lemma_has_at_split(body, k, first, escape(rest));
        lemma_has_at_char(body, k, first, 0);
        if first.len() == 2 {
            lemma_has_at_char(body, k, first, 1);
        }
        lemma_unescape(body, k + first.len(), rest);
        assert(unescape_from(body, k) =~= seq![c] + rest);
        assert(seq![c] + rest =~= s);
    }
}

/// A text written between quotes is one token, which holds the text.
pub proof fn lemma_quoted_token(src: Seq<char>, i: int, s: Seq<char>, quote: char)
    requires
        quote == '"' || quote == '\'',
        has_at(src, i, seq![quote] + escape(s) + seq![quote]),
    ensures
        token_at(src, i) == Some(
            (
                if quote == '"' {
                    TokenSpec::String(s)
                } else {
                    TokenSpec::Var(s)
                },
                i + 2 + escape(s).len(),
            ),
        ),
        i + 2 + escape(s).len() <= src.len(),
{
    let n = escape(s).len() as int;
    assert(seq![quote] + escape(s) + seq![quote] =~= seq![quote] + (escape(s) + seq![quote]));
    lemma_has_at_split(src, i, seq![quote], escape(s) + seq![quote]);
    lemma_has_at_char(src, i, seq![quote], 0);
    lemma_quote_found(src, i + 1, s, quote);
    lemma_has_at_split(src, i + 1, escape(s), seq![quote]);
    let body = src.subrange(i + 1, i + 1 + n);
    assert(has_at(body, 0, escape(s))) by {
        assert(body.subrange(0, n) =~= body);
    }
    lemma_unescape(body, 0, s);
}

/// A bare name, behind which no character stands that could go on with it, is one token.
pub proof fn lemma_bare_token(src: Seq<char>, i: int, s: Seq<char>)
    requires
        is_bare(s),
        has_at(src, i, s),
        i + s.len() == src.len() || !is_name_part(src[i + s.len()]),
    ensures
        token_at(src, i) == Some((TokenSpec::Var(s), i + s.len())),
{
    lemma_has_at_char(src, i, s, 0);
    assert forall|m: int| i + 1 <= m < i + s.len() implies is_name_part(#[trigger] src[m]) by {
        lemma_has_at_char(src, i, s, m - i);
    }
    lemma_name_run(src, i + 1, i + s.len());
}

/// Whether a text can be the name of a metavariable: it starts with a letter or
/// `_` and goes on with letters, digits and `_`.
pub open spec fn is_meta_name(s: Seq<char>) -> bool {
    &&& s.len() > 0
    &&& is_letter(s[0]) || s[0] == '_'
    &&& forall|i: int| 0 <= i < s.len() ==> is_meta_part(#[trigger] s[i])
}

/// A metavariable, behind which no character stands that could go on with its
/// name, is one token.
pub proof fn lemma_meta_token(src: Seq<char>, i: int, s: Seq<char>)
    requires
        is_meta_name(s),
        has_at(src, i, seq!['$'] + s),
        i + 1 + s.len() == src.len() || !is_meta_part(src[i + 1 + s.len()]),
    ensures
        token_at(src, i) == Some((TokenSpec::MetaVar(s), i + 1 + s.len())),
{
    lemma_has_at_split(src, i, seq!['$'], s);
    lemma_has_at_char(src, i, seq!['$'], 0);
    lemma_has_at_char(src, i + 1, s, 0);
    assert forall|m: int| i + 2 <= m < i + 1 + s.len() implies is_meta_part(#[trigger] src[m]) by {
        lemma_has_at_char(src, i + 1, s, m - i - 1);
    }
    lemma_meta_run(src, i + 2, i + 1 + s.len());
}

/// The token that a value is written as.
pub open spec fn value_token(v: ValueSpec) -> TokenSpec {
    match v {
        ValueSpec::Hole => TokenSpec::Underscore,
        ValueSpec::MetaVar(s) => TokenSpec::MetaVar(s),
        ValueSpec::Str(s) => TokenSpec::String(s),
        ValueSpec::Var(s) => TokenSpec::Var(s),
    }
}

/// The tokens that the values of a list are written as, with a comma between them.
pub open spec fn values_tokens(args: Seq<ValueSpec>) -> Seq<TokenSpec>
    decreases args.len(),
{
    if args.len() == 0 {
        Seq::empty()
    } else if args.len() == 1 {
        seq![value_token(args[0])]
    } else {
        seq![value_token(args[0]), TokenSpec::Comma] + values_tokens(args.drop_first())
    }
}

/// The tokens that a call is written as.
pub open spec fn predicate_tokens(p: PredicateSpec) -> Seq<TokenSpec> {
    seq![TokenSpec::Var(p.name), TokenSpec::ParenOpen] + values_tokens(p.args)
        + seq![TokenSpec::ParenClose]
}

/// The tokens that a literal is written as.
pub open spec fn literal_tokens(l: (bool, PredicateSpec)) -> Seq<TokenSpec> {
    if l.0 {
        seq![TokenSpec::Not] + predicate_tokens(l.1)
    } else {
        predicate_tokens(l.1)
    }
}

/// The tokens that the literals of a body are written as, with a comma between them.
pub open spec fn body_tokens(body: Seq<(bool, PredicateSpec)>) -> Seq<TokenSpec>
    decreases body.len(),
{
    if body.len() == 0 {
        Seq::empty()
    } else if body.len() == 1 {
        literal_tokens(body[0])
    } else {
        literal_tokens(body[0]) + seq![TokenSpec::Comma] + body_tokens(body.drop_first())
    }
}

/// The tokens that a clause is written as.
pub open spec fn clause_tokens(c: ClauseSpec) -> Seq<TokenSpec> {
    if c.body.len() == 0 {
        predicate_tokens(c.head) + seq![TokenSpec::Period]
    } else {
        predicate_tokens(c.head) + seq![TokenSpec::Turnstile] + body_tokens(c.body)
            + seq![TokenSpec::Period]
    }
}

/// The tokens that the clauses of a list are written as.
pub open spec fn clauses_tokens(clauses: Seq<ClauseSpec>) -> Seq<TokenSpec>
    decreases clauses.len(),
{
    if clauses.len() == 0 {
        Seq::empty()
    } else {
        clause_tokens(clauses[0]) + clauses_tokens(clauses.drop_first())
    }
}

/// The tokens that a query is written as.
pub open spec fn query_tokens(q: QuerySpec) -> Seq<TokenSpec> {
    clauses_tokens(q.clauses) + seq![TokenSpec::Query] + predicate_tokens(q.goal)
        + seq![TokenSpec::Period]
}

/// Whether a value can be read back: a metavariable has a name that the lexer takes.
pub open spec fn value_writable(v: ValueSpec) -> bool {
    v is MetaVar ==> is_meta_name(v->MetaVar_0)
}

/// Whether every value of a call can be read back.
pub open spec fn predicate_writable(p: PredicateSpec) -> bool {
    forall|j: int| 0 <= j < p.args.len() ==> value_writable(#[trigger] p.args[j])
}

/// Whether every value of a clause can be read back.
pub open spec fn clause_writable(c: ClauseSpec) -> bool {
    &&& predicate_writable(c.head)
    &&& forall|i: int| 0 <= i < c.body.len() ==> predicate_writable((#[trigger] c.body[i]).1)
}

/// Whether every value of a query can be read back.
pub open spec fn query_writable(q: QuerySpec) -> bool {
    &&& forall|k: int| 0 <= k < q.clauses.len() ==> clause_writable(#[trigger] q.clauses[k])
    &&& predicate_writable(q.goal)
}

/// Tokens before tokens before a rest are the tokens put together before the rest.
pub proof fn lemma_followed_twice(a: Seq<TokenSpec>, b: Seq<TokenSpec>, rest: Option<Seq<TokenSpec>>)
    ensures
        followed(a, followed(b, rest)) == followed(a + b, rest),
{
    match rest {
        Some(more) => {
            assert(a + (b + more) =~= (a + b) + more);
        },
        None => {},
    }
}

/// No tokens before a rest are the rest.
pub proof fn lemma_followed_nothing(rest: Option<Seq<TokenSpec>>)
    ensures
        followed(Seq::empty(), rest) == rest,
{
    match rest {
        Some(more) => {
            assert(Seq::<TokenSpec>::empty() + more =~= more);
        },
        None => {},
    }
}

/// A token of one character that is no blank, no `/` and starts no longer token
/// is the first token from its place on.
pub proof fn lemma_mark(src: Seq<char>, i: int, c: char, t: TokenSpec)
    requires
        0 <= i < src.len(),
        src[i] == c,
        (c == ')' && t == TokenSpec::ParenClose) || (c == '(' && t == TokenSpec::ParenOpen) || (c
            == '_' && t == TokenSpec::Underscore) || (c == '!' && t == TokenSpec::Not) || (c == ','
            && t == TokenSpec::Comma) || (c == '.' && t == TokenSpec::Period),
    ensures
        kinds(lex_from(src, i)) == followed(seq![t], kinds(lex_from(src, i + 1))),
{
    lemma_token_first(src, i, t, i + 1);
}

/// A name as it is written, behind which no character stands that could go on
/// with it, is the first token from its place on.
pub proof fn lemma_name_lexed(src: Seq<char>, i: int, s: Seq<char>)
    requires
        has_at(src, i, show_name(s)),
        i + show_name(s).len() == src.len() || !is_name_part(src[i + show_name(s).len()]),
    ensures
        kinds(lex_from(src, i)) == followed(
            seq![TokenSpec::Var(s)],
            kinds(lex_from(src, i + show_name(s).len())),
        ),
{
    if is_bare(s) {
        lemma_bare_token(src, i, s);
        lemma_has_at_char(src, i, s, 0);
        lemma_token_first(src, i, TokenSpec::Var(s), i + s.len());
    } else {
        lemma_quoted_token(src, i, s, '\'');
        lemma_has_at_char(src, i, show_name(s), 0);
        lemma_token_first(src, i, TokenSpec::Var(s), i + 2 + escape(s).len());
    }
}

/// A value as it is written, with a comma or a closing parenthesis behind it, is
/// the first token from its place on.
pub proof fn lemma_value_lexed(src: Seq<char>, i: int, v: ValueSpec)
    requires
        value_writable(v),
        has_at(src, i, show_value(v)),
        i + show_value(v).len() < src.len(),
        src[i + show_value(v).len()] == ',' || src[i + show_value(v).len()] == ')',
    ensures
        kinds(lex_from(src, i)) == followed(
            seq![value_token(v)],
            kinds(lex_from(src, i + show_value(v).len())),
        ),
{
    match v {
        ValueSpec::Hole => {
            lemma_has_at_char(src, i, show_value(v), 0);
            lemma_mark(src, i, '_', TokenSpec::Underscore);
        },
        ValueSpec::MetaVar(s) => {
            lemma_meta_token(src, i, s);
            lemma_has_at_char(src, i, show_value(v), 0);
            lemma_token_first(src, i, TokenSpec::MetaVar(s), i + 1 + s.len());
        },
        ValueSpec::Str(s) => {
            lemma_quoted_token(src, i, s, '"');
            lemma_has_at_char(src, i, show_value(v), 0);
            lemma_token_first(src, i, TokenSpec::String(s), i + 2 + escape(s).len());
        },
        ValueSpec::Var(s) => {
            lemma_name_lexed(src, i, s);
        },
    }
}

/// The values of a list with at least two values are written as the first, `, `
/// and the others.
pub proof fn lemma_show_values_first(args: Seq<ValueSpec>)
    requires
        args.len() >= 2,
    ensures
        show_values(args) == show_value(args[0]) + seq![',', ' '] + show_values(args.drop_first()),
    decreases args.len(),
{
    let rest = args.drop_first();
    if args.len() == 2 {
        assert(args.drop_last().len() == 1);
        assert(args.drop_last()[0] == args[0]);
        assert(rest[0] == args.last());
        assert(show_values(args.drop_last()) == show_value(args[0]));
        assert(show_values(rest) == show_value(args.last()));
        assert(show_values(args) == show_values(args.drop_last()) + seq![',', ' '] + show_value(
            args.last(),
        ));
    } else {
        lemma_show_values_first(args.drop_last());
        assert(args.drop_last().drop_first() =~= rest.drop_last());
        assert(args.drop_last()[0] == args[0]);
        assert(rest.last() == args.last());
        assert(show_values(args) =~= show_value(args[0]) + seq![',', ' '] + show_values(rest));
    }
}

/// The values of a list as they are written, with a closing parenthesis behind
/// them, are the first tokens from their place on.
pub proof fn lemma_values_lexed(src: Seq<char>, i: int, args: Seq<ValueSpec>)
    requires
        forall|j: int| 0 <= j < args.len() ==> value_writable(#[trigger] args[j]),
        has_at(src, i, show_values(args)),
        i + show_values(args).len() < src.len(),
        src[i + show_values(args).len()] == ')',
    ensures
        kinds(lex_from(src, i)) == followed(
            values_tokens(args),
            kinds(lex_from(src, i + show_values(args).len())),
        ),
    decreases args.len(),
{
    let end = i + show_values(args).len();
    if args.len() == 0 {
        lemma_followed_nothing(kinds(lex_from(src, end)));
    } else if args.len() == 1 {
        lemma_value_lexed(src, i, args[0]);
    } else {
        let first = show_value(args[0]);
        let rest = args.drop_first();
        lemma_show_values_first(args);
        assert(show_values(args) =~= first + (seq![',', ' '] + show_values(rest)));
        lemma_has_at_split(src, i, first, seq![',', ' '] + show_values(rest));
        lemma_has_at_split(src, i + first.len(), seq![',', ' '], show_values(rest));
        lemma_has_at_char(src, i + first.len(), seq![',', ' '], 0);
        lemma_has_at_char(src, i + first.len(), seq![',', ' '], 1);
        lemma_value_lexed(src, i, args[0]);
        lemma_mark(src, i + first.len(), ',', TokenSpec::Comma);
        lemma_blank_skipped(src, i + first.len() + 1);
        assert forall|j: int| 0 <= j < rest.len() implies value_writable(#[trigger] rest[j]) by {
            assert(rest[j] == args[j + 1]);
        }
        lemma_values_lexed(src, i + first.len() + 2, rest);
        let tail = kinds(lex_from(src, end));
        lemma_followed_twice(seq![TokenSpec::Comma], values_tokens(rest), tail);
        lemma_followed_twice(
            seq![value_token(args[0])],
            seq![TokenSpec::Comma] + values_tokens(rest),
            tail,
        );
        assert(seq![value_token(args[0])] + (seq![TokenSpec::Comma] + values_tokens(rest))
            =~= values_tokens(args));
    }
}

/// A call as it is written is the first tokens from its place on.
pub proof fn lemma_predicate_lexed(src: Seq<char>, i: int, p: PredicateSpec)
    requires
        predicate_writable(p),
        has_at(src, i, show_predicate(p)),
    ensures
        kinds(lex_from(src, i)) == followed(
            predicate_tokens(p),
            kinds(lex_from(src, i + show_predicate(p).len())),
        ),
{
    let name = show_name(p.name);
    let args = show_values(p.args);
    let end = i + show_predicate(p).len();
    assert(show_predicate(p) =~= name + (seq!['('] + (args + seq![')'])));
    lemma_has_at_split(src, i, name, seq!['('] + (args + seq![')']));
    lemma_has_at_split(src, i + name.len(), seq!['('], args + seq![')']);
    lemma_has_at_split(src, i + name.len() + 1, args, seq![')']);
    lemma_has_at_char(src, i + name.len(), seq!['('], 0);
    lemma_has_at_char(src, i + name.len() + 1 + args.len(), seq![')'], 0);
    lemma_name_lexed(src, i, p.name);
    lemma_mark(src, i + name.len(), '(', TokenSpec::ParenOpen);
    lemma_values_lexed(src, i + name.len() + 1, p.args);
    lemma_mark(src, i + name.len() + 1 + args.len(), ')', TokenSpec::ParenClose);
    let tail = kinds(lex_from(src, end));
    lemma_followed_twice(values_tokens(p.args), seq![TokenSpec::ParenClose], tail);
    lemma_followed_twice(
        seq![TokenSpec::ParenOpen],
        values_tokens(p.args) + seq![TokenSpec::ParenClose],
        tail,
    );
    lemma_followed_twice(
        seq![TokenSpec::Var(p.name)],
        seq![TokenSpec::ParenOpen] + (values_tokens(p.args) + seq![TokenSpec::ParenClose]),
        tail,
    );
    assert(seq![TokenSpec::Var(p.name)] + (seq![TokenSpec::ParenOpen] + (values_tokens(p.args)
        + seq![TokenSpec::ParenClose])) =~= predicate_tokens(p));
}

/// A literal as it is written is the first tokens from its place on.
pub proof fn lemma_literal_lexed(src: Seq<char>, i: int, l: (bool, PredicateSpec))
    requires
        predicate_writable(l.1),
        has_at(src, i, show_literal(l)),
    ensures
        kinds(lex_from(src, i)) == followed(
            literal_tokens(l),
            kinds(lex_from(src, i + show_literal(l).len())),
        ),
{
    if l.0 {
        lemma_has_at_split(src, i, seq!['!'], show_predicate(l.1));
        lemma_has_at_char(src, i, seq!['!'], 0);
        lemma_mark(src, i, '!', TokenSpec::Not);
        lemma_predicate_lexed(src, i + 1, l.1);
        lemma_followed_twice(
            seq![TokenSpec::Not],
            predicate_tokens(l.1),
            kinds(lex_from(src, i + show_literal(l).len())),
        );
    } else {
        lemma_predicate_lexed(src, i, l.1);
    }
}

/// The four blanks that stand before a literal of a body.
pub open spec fn indent() -> Seq<char> {
    seq![' ', ' ', ' ', ' ']
}

/// The literals of a body with at least two literals are written as the first
/// behind its blanks, a comma and a line feed, and the others.
pub proof fn lemma_show_body_first(body: Seq<(bool, PredicateSpec)>)
    requires
        body.len() >= 2,
    ensures
        show_body(body) == indent() + show_literal(body[0]) + seq![',', '\n'] + show_body(
            body.drop_first(),
        ),
    decreases body.len(),
{
    let rest = body.drop_first();
    if body.len() == 2 {
        assert(body.drop_last().len() == 1);
        assert(body.drop_last()[0] == body[0]);
        assert(rest[0] == body.last());
        assert(show_body(body.drop_last()) == indent() + show_literal(body[0]));
        assert(show_body(rest) == indent() + show_literal(body.last()));
        assert(show_body(body) == show_body(body.drop_last()) + seq![
            ',',
            '\n',
            ' ',
            ' ',
            ' ',
            ' ',
        ] + show_literal(body.last()));
        assert(show_body(body) =~= indent() + show_literal(body[0]) + seq![',', '\n'] + show_body(
            rest,
        ));
    } else {
        lemma_show_body_first(body.drop_last());
        assert(body.drop_last().drop_first() =~= rest.drop_last());
        assert(body.drop_last()[0] == body[0]);
        assert(rest.last() == body.last());
        assert(show_body(body) =~= indent() + show_literal(body[0]) + seq![',', '\n'] + show_body(
            rest,
        ));
    }
}

/// Four blanks change nothing about the tokens from their place on.
pub proof fn lemma_indent_skipped(src: Seq<char>, i: int)
    requires
        has_at(src, i, indent()),
    ensures
        lex_from(src, i) == lex_from(src, i + 4),
{
    lemma_has_at_char(src, i, indent(), 0);
    lemma_has_at_char(src, i, indent(), 1);
    lemma_has_at_char(src, i, indent(), 2);
    lemma_has_at_char(src, i, indent(), 3);
    lemma_blank_skipped(src, i);
    lemma_blank_skipped(src, i + 1);
    lemma_blank_skipped(src, i + 2);
    lemma_blank_skipped(src, i + 3);
}

/// The literals of a body as they are written are the first tokens from their place on.
pub proof fn lemma_body_lexed(src: Seq<char>, i: int, body: Seq<(bool, PredicateSpec)>)
    requires
        body.len() >= 1,
        forall|k: int| 0 <= k < body.len() ==> predicate_writable((#[trigger] body[k]).1),
        has_at(src, i, show_body(body)),
    ensures
        kinds(lex_from(src, i)) == followed(
            body_tokens(body),
            kinds(lex_from(src, i + show_body(body).len())),
        ),
    decreases body.len(),
{
    let end = i + show_body(body).len();
    let first = show_literal(body[0]);
    if body.len() == 1 {
        lemma_has_at_split(src, i, indent(), first);
        lemma_indent_skipped(src, i);
        lemma_literal_lexed(src, i + 4, body[0]);
    } else {
        let rest = body.drop_first();
        lemma_show_body_first(body);
        assert(show_body(body) =~= indent() + (first + (seq![',', '\n'] + show_body(rest))));
        lemma_has_at_split(src, i, indent(), first + (seq![',', '\n'] + show_body(rest)));
        lemma_has_at_split(src, i + 4, first, seq![',', '\n'] + show_body(rest));
        lemma_has_at_split(src, i + 4 + first.len(), seq![',', '\n'], show_body(rest));
        lemma_has_at_char(src, i + 4 + first.len(), seq![',', '\n'], 0);
        lemma_has_at_char(src, i + 4 + first.len(), seq![',', '\n'], 1);
        lemma_indent_skipped(src, i);
        lemma_literal_lexed(src, i + 4, body[0]);
        lemma_mark(src, i + 4 + first.len(), ',', TokenSpec::Comma);
        lemma_blank_skipped(src, i + 4 + first.len() + 1);
        assert forall|k: int| 0 <= k < rest.len() implies predicate_writable(
            (#[trigger] rest[k]).1,
        ) by {
            assert(rest[k] == body[k + 1]);
        }
        lemma_body_lexed(src, i + 4 + first.len() + 2, rest);
        let tail = kinds(lex_from(src, end));
        lemma_followed_twice(seq![TokenSpec::Comma], body_tokens(rest), tail);
        lemma_followed_twice(literal_tokens(body[0]), seq![TokenSpec::Comma] + body_tokens(rest), tail);
        assert(literal_tokens(body[0]) + (seq![TokenSpec::Comma] + body_tokens(rest))
            =~= body_tokens(body));
    }
}

/// A clause as it is written is the first tokens from its place on.
pub proof fn lemma_clause_lexed(src: Seq<char>, i: int, c: ClauseSpec)
    requires
        clause_writable(c),
        has_at(src, i, show_clause(c)),
    ensures
        kinds(lex_from(src, i)) == followed(
            clause_tokens(c),
            kinds(lex_from(src, i + show_clause(c).len())),
        ),
{
    let head = show_predicate(c.head);
    let end = i + show_clause(c).len();
    let tail = kinds(lex_from(src, end));
    if c.body.len() == 0 {
        lemma_has_at_split(src, i, head, seq!['.']);
        lemma_has_at_char(src, i + head.len(), seq!['.'], 0);
        lemma_predicate_lexed(src, i, c.head);
        lemma_mark(src, i + head.len(), '.', TokenSpec::Period);
        lemma_followed_twice(predicate_tokens(c.head), seq![TokenSpec::Period], tail);
    } else {
        let mid = seq![' ', ':', '-', '\n'];
        let body = show_body(c.body);
        assert(show_clause(c) =~= head + (mid + (body + seq!['.'])));
        lemma_has_at_split(src, i, head, mid + (body + seq!['.']));
        lemma_has_at_split(src, i + head.len(), mid, body + seq!['.']);
        lemma_has_at_split(src, i + head.len() + 4, body, seq!['.']);
        lemma_has_at_char(src, i + head.len(), mid, 0);
        lemma_has_at_char(src, i + head.len(), mid, 1);
        lemma_has_at_char(src, i + head.len(), mid, 2);
        lemma_has_at_char(src, i + head.len(), mid, 3);
        lemma_has_at_char(src, i + head.len() + 4 + body.len(), seq!['.'], 0);
        lemma_predicate_lexed(src, i, c.head);
        lemma_blank_skipped(src, i + head.len());
        lemma_token_first(src, i + head.len() + 1, TokenSpec::Turnstile, i + head.len() + 3);
        lemma_blank_skipped(src, i + head.len() + 3);
        lemma_body_lexed(src, i + head.len() + 4, c.body);
        lemma_mark(src, i + head.len() + 4 + body.len(), '.', TokenSpec::Period);
        lemma_followed_twice(body_tokens(c.body), seq![TokenSpec::Period], tail);
        lemma_followed_twice(
            seq![TokenSpec::Turnstile],
            body_tokens(c.body) + seq![TokenSpec::Period],
            tail,
        );
        lemma_followed_twice(
            predicate_tokens(c.head),
            seq![TokenSpec::Turnstile] + (body_tokens(c.body) + seq![TokenSpec::Period]),
            tail,
        );
        assert(predicate_tokens(c.head) + (seq![TokenSpec::Turnstile] + (body_tokens(c.body)
            + seq![TokenSpec::Period])) =~= clause_tokens(c));
    }
}

/// The clauses of a list that is not empty are written as the first, a line feed
/// and the others.
pub proof fn lemma_show_clauses_first(clauses: Seq<ClauseSpec>)
    requires
        clauses.len() >= 1,
    ensures
        show_clauses(clauses) == show_clause(clauses[0]) + seq!['\n'] + show_clauses(
            clauses.drop_first(),
        ),
    decreases clauses.len(),
{
    let rest = clauses.drop_first();
    if clauses.len() == 1 {
        assert(clauses.drop_last() =~= Seq::empty());
        assert(rest =~= Seq::empty());
        assert(show_clauses(clauses.drop_last()) =~= Seq::empty());
        assert(show_clauses(clauses) =~= show_clause(clauses[0]) + seq!['\n'] + show_clauses(rest));
    } else {
        lemma_show_clauses_first(clauses.drop_last());
        assert(clauses.drop_last().drop_first() =~= rest.drop_last());
        assert(clauses.drop_last()[0] == clauses[0]);
        assert(rest.last() == clauses.last());
        assert(show_clauses(clauses) =~= show_clause(clauses[0]) + seq!['\n'] + show_clauses(rest));
    }
}

/// The clauses of a list as they are written are the first tokens from their place on.
pub proof fn lemma_clauses_lexed(src: Seq<char>, i: int, clauses: Seq<ClauseSpec>)
    requires
        forall|k: int| 0 <= k < clauses.len() ==> clause_writable(#[trigger] clauses[k]),
        has_at(src, i, show_clauses(clauses)),
    ensures
        kinds(lex_from(src, i)) == followed(
            clauses_tokens(clauses),
            kinds(lex_from(src, i + show_clauses(clauses).len())),
        ),
    decreases clauses.len(),
{
    let end = i + show_clauses(clauses).len();
    let tail = kinds(lex_from(src, end));
    if clauses.len() == 0 {
        lemma_followed_nothing(tail);
    } else {
        let first = show_clause(clauses[0]);
        let rest = clauses.drop_first();
        lemma_show_clauses_first(clauses);
        assert(show_clauses(clauses) =~= first + (seq!['\n'] + show_clauses(rest)));
        lemma_has_at_split(src, i, first, seq!['\n'] + show_clauses(rest));
        lemma_has_at_split(src, i + first.len(), seq!['\n'], show_clauses(rest));
        lemma_has_at_char(src, i + first.len(), seq!['\n'], 0);
        lemma_clause_lexed(src, i, clauses[0]);
        lemma_blank_skipped(src, i + first.len());
        assert forall|k: int| 0 <= k < rest.len() implies clause_writable(#[trigger] rest[k]) by {
            assert(rest[k] == clauses[k + 1]);
        }
        lemma_clauses_lexed(src, i + first.len() + 1, rest);
        lemma_followed_twice(clause_tokens(clauses[0]), clauses_tokens(rest), tail);
    }
}

/// The tokens that the goal of a query is written as, behind `?-`.
pub open spec fn goal_tokens(goal: PredicateSpec) -> Seq<TokenSpec> {
    seq![TokenSpec::Query] + predicate_tokens(goal) + seq![TokenSpec::Period]
}

/// The goal of a query as it is written.
pub open spec fn show_goal(goal: PredicateSpec) -> Seq<char> {
    seq!['?', '-', ' '] + show_predicate(goal) + seq!['.']
}

/// A goal as it is written at the end of a text is the tokens from its place on.
pub proof fn lemma_goal_lexed(src: Seq<char>, at: int, goal: PredicateSpec)
    requires
        predicate_writable(goal),
        has_at(src, at, show_goal(goal)),
        at + show_goal(goal).len() == src.len(),
    ensures
        kinds(lex_from(src, at)) == Some(goal_tokens(goal)),
{
    let mark = seq!['?', '-', ' '];
    let text = show_predicate(goal);
    let n = text.len() as int;
    assert(show_goal(goal) =~= mark + (text + seq!['.']));
    lemma_has_at_split(src, at, mark, text + seq!['.']);
    lemma_has_at_split(src, at + 3, text, seq!['.']);
    lemma_has_at_char(src, at, mark, 0);
    lemma_has_at_char(src, at, mark, 1);
    lemma_has_at_char(src, at, mark, 2);
    lemma_has_at_char(src, at + 3 + n, seq!['.'], 0);
    lemma_token_first(src, at, TokenSpec::Query, at + 2);
    lemma_blank_skipped(src, at + 2);
    lemma_predicate_lexed(src, at + 3, goal);
    lemma_mark(src, at + 3 + n, '.', TokenSpec::Period);
    lemma_no_tokens_at_end(src, src.len() as int);
    let tail = kinds(lex_from(src, src.len() as int));
    let last = followed(seq![TokenSpec::Period], tail);
    assert(last == Some(seq![TokenSpec::Period])) by {
        assert(seq![TokenSpec::Period] + Seq::<TokenSpec>::empty() =~= seq![TokenSpec::Period]);
    }
    assert(kinds(lex_from(src, at + 3 + n)) == last);
    assert(kinds(lex_from(src, at + 3)) == followed(predicate_tokens(goal), last));
    assert(kinds(lex_from(src, at)) == followed(
        seq![TokenSpec::Query],
        followed(predicate_tokens(goal), last),
    ));
    assert(seq![TokenSpec::Query] + (predicate_tokens(goal) + seq![TokenSpec::Period])
        =~= goal_tokens(goal));
}

/// A query is written as its clauses and then its goal, and its tokens are theirs.
pub proof fn lemma_query_in_two(q: QuerySpec)
    ensures
        show_query(q) == show_clauses(q.clauses) + show_goal(q.goal),
        query_tokens(q) == clauses_tokens(q.clauses) + goal_tokens(q.goal),
{
    assert(show_query(q) =~= show_clauses(q.clauses) + show_goal(q.goal));
    assert(query_tokens(q) =~= clauses_tokens(q.clauses) + goal_tokens(q.goal));
}

/// A text that ends with a goal as it is written, behind clauses as they are
/// written, lexes to the tokens of the clauses and of the goal.
pub proof fn lemma_two_lexed(src: Seq<char>, clauses: Seq<ClauseSpec>, goal: PredicateSpec)
    requires
        forall|k: int| 0 <= k < clauses.len() ==> clause_writable(#[trigger] clauses[k]),
        predicate_writable(goal),
        src == show_clauses(clauses) + show_goal(goal),
    ensures
        kinds(lex_from(src, 0)) == Some(clauses_tokens(clauses) + goal_tokens(goal)),
{
    let first = show_clauses(clauses);
    assert(src.subrange(0, src.len() as int) =~= src);
    lemma_has_at_split(src, 0, first, show_goal(goal));
    lemma_clauses_lexed(src, 0, clauses);
    lemma_goal_lexed(src, first.len() as int, goal);
}

/// A query as it is written lexes to the tokens that it is written as.
pub proof fn lemma_query_lexed(q: QuerySpec)
    requires
        query_writable(q),
    ensures
        kinds(lex(show_query(q))) == Some(query_tokens(q)),
{
    lemma_query_in_two(q);
    lemma_two_lexed(show_query(q), q.clauses, q.goal);
}

/// Whether the tokens `toks` stand in `ts` at the index `i`, whatever their places.
pub open spec fn tokens_at(ts: Seq<Located>, i: int, toks: Seq<TokenSpec>) -> bool {
    &&& 0 <= i
    &&& i + toks.len() <= ts.len()
    &&& forall|k: int| 0 <= k < toks.len() ==> (#[trigger] ts[i + k]).token == toks[k]
}

/// Where two lists of tokens put together stand, the first stands, and the second behind it.
pub proof fn lemma_tokens_split(ts: Seq<Located>, i: int, a: Seq<TokenSpec>, b: Seq<TokenSpec>)
    requires
        tokens_at(ts, i, a + b),
    ensures
        tokens_at(ts, i, a),
        tokens_at(ts, i + a.len(), b),
{
    assert forall|k: int| 0 <= k < a.len() implies (#[trigger] ts[i + k]).token == a[k] by {
        assert((a + b)[k] == a[k]);
    }
    assert forall|k: int| 0 <= k < b.len() implies (#[trigger] ts[i + a.len() + k]).token
        == b[k] by {
        assert((a + b)[a.len() + k] == b[k]);
        assert(ts[i + (a.len() + k)].token == (a + b)[a.len() + k]);
    }
}

/// The values of a list without their places.
pub open spec fn strip_values(values: Seq<ValueAst>) -> Seq<ValueSpec> {
    values.map_values(|v: ValueAst| v.inner)
}

/// The literals of a list without their places.
pub open spec fn strip_body(body: Seq<(bool, PredicateAst)>) -> Seq<(bool, PredicateSpec)> {
    body.map_values(|l: (bool, PredicateAst)| (l.0, strip_predicate(l.1)))
}

/// The clauses of a list without their places.
pub open spec fn strip_clauses(clauses: Seq<ClauseAst>) -> Seq<ClauseSpec> {
    clauses.map_values(|c: ClauseAst| strip_clause(c))
}

/// The tokens that values are written as, with a closing parenthesis behind them,
/// parse to these values.
pub proof fn lemma_values_parsed(
    ts: Seq<Located>,
    i: int,
    args: Seq<ValueSpec>,
    acc: Seq<ValueAst>,
)
    requires
        args.len() >= 1,
        tokens_at(ts, i, values_tokens(args) + seq![TokenSpec::ParenClose]),
    ensures
        parse_values(ts, i, acc) is Ok,
        parse_values(ts, i, acc)->Ok_0.1 == i + values_tokens(args).len() + 1,
        strip_values(parse_values(ts, i, acc)->Ok_0.0) == strip_values(acc) + args,
    decreases args.len(),
{
    let toks = values_tokens(args) + seq![TokenSpec::ParenClose];
    let expected = if acc.len() == 0 {
        Expected::ValueOrParenClose
    } else {
        Expected::Value
    };
    assert(ts[i + 0].token == toks[0]);
    assert(toks[0] == value_token(args[0]));
    let v = parse_value(ts, i, expected)->Ok_0;
    assert(parse_value(ts, i, expected) is Ok && v.inner == args[0]);
    assert(ts[i + 1].token == toks[1]);
    if args.len() == 1 {
        assert(toks[1] == TokenSpec::ParenClose);
        assert(strip_values(acc.push(v)) =~= strip_values(acc) + args);
    } else {
        let rest = args.drop_first();
        assert(toks[1] == TokenSpec::Comma);
        assert(toks =~= seq![value_token(args[0]), TokenSpec::Comma] + (values_tokens(rest)
            + seq![TokenSpec::ParenClose]));
        lemma_tokens_split(
            ts,
            i,
            seq![value_token(args[0]), TokenSpec::Comma],
            values_tokens(rest) + seq![TokenSpec::ParenClose],
        );
        lemma_values_parsed(ts, i + 2, rest, acc.push(v));
        assert(strip_values(acc.push(v)) + rest =~= strip_values(acc) + args);
    }
}

/// The tokens that a call is written as parse to this call.
pub proof fn lemma_predicate_parsed(ts: Seq<Located>, i: int, p: PredicateSpec, expected: Expected)
    requires
        tokens_at(ts, i, predicate_tokens(p)),
    ensures
        parse_predicate(ts, i, expected) is Ok,
        parse_predicate(ts, i, expected)->Ok_0.1 == i + predicate_tokens(p).len(),
        strip_predicate(parse_predicate(ts, i, expected)->Ok_0.0) == p,
{
    let toks = predicate_tokens(p);
    assert(ts[i + 0].token == toks[0]);
    assert(ts[i + 1].token == toks[1]);
    assert(ts[i + 2].token == toks[2]);
    assert(toks[0] == TokenSpec::Var(p.name));
    assert(toks[1] == TokenSpec::ParenOpen);
    if p.args.len() == 0 {
        assert(toks[2] == TokenSpec::ParenClose);
        let found = parse_predicate(ts, i, expected)->Ok_0.0;
        assert(strip_predicate(found).args =~= p.args);
    } else {
        assert(toks[2] == value_token(p.args[0]));
        assert(toks =~= seq![TokenSpec::Var(p.name), TokenSpec::ParenOpen] + (values_tokens(p.args)
            + seq![TokenSpec::ParenClose]));
        lemma_tokens_split(
            ts,
            i,
            seq![TokenSpec::Var(p.name), TokenSpec::ParenOpen],
            values_tokens(p.args) + seq![TokenSpec::ParenClose],
        );
        lemma_values_parsed(ts, i + 2, p.args, Seq::empty());
        let found = parse_predicate(ts, i, expected)->Ok_0.0;
        assert(strip_values(Seq::<ValueAst>::empty()) + p.args =~= p.args);
        assert(strip_predicate(found).args =~= strip_values(found.args));
    }
}

/// The tokens that a literal is written as parse to this literal.
pub proof fn lemma_literal_parsed(ts: Seq<Located>, i: int, l: (bool, PredicateSpec))
    requires
        tokens_at(ts, i, literal_tokens(l)),
    ensures
        parse_literal(ts, i) is Ok,
        parse_literal(ts, i)->Ok_0.1 == i + literal_tokens(l).len(),
        parse_literal(ts, i)->Ok_0.0.0 == l.0,
        strip_predicate(parse_literal(ts, i)->Ok_0.0.1) == l.1,
{
    assert(ts[i + 0].token == literal_tokens(l)[0]);
    if l.0 {
        lemma_tokens_split(ts, i, seq![TokenSpec::Not], predicate_tokens(l.1));
        lemma_predicate_parsed(ts, i + 1, l.1, Expected::Name);
    } else {
        assert(literal_tokens(l)[0] == TokenSpec::Var(l.1.name));
        lemma_predicate_parsed(ts, i, l.1, Expected::Literal);
    }
}

/// The tokens that the literals of a body are written as, with a period behind
/// them, parse to these literals.
pub proof fn lemma_body_parsed(
    ts: Seq<Located>,
    i: int,
    body: Seq<(bool, PredicateSpec)>,
    acc: Seq<(bool, PredicateAst)>,
)
    requires
        body.len() >= 1,
        tokens_at(ts, i, body_tokens(body) + seq![TokenSpec::Period]),
    ensures
        parse_body(ts, i, acc) is Ok,
        parse_body(ts, i, acc)->Ok_0.1 == i + body_tokens(body).len() + 1,
        strip_body(parse_body(ts, i, acc)->Ok_0.0) == strip_body(acc) + body,
    decreases body.len(),
{
    let first = literal_tokens(body[0]);
    let n = first.len() as int;
    if body.len() == 1 {
        lemma_tokens_split(ts, i, first, seq![TokenSpec::Period]);
        lemma_literal_parsed(ts, i, body[0]);
        assert(ts[i + n + 0].token == seq![TokenSpec::Period][0]);
        let l = parse_literal(ts, i)->Ok_0.0;
        assert(strip_body(acc.push(l)) =~= strip_body(acc) + body);
    } else {
        let rest = body.drop_first();
        let more = body_tokens(rest) + seq![TokenSpec::Period];
        assert(body_tokens(body) + seq![TokenSpec::Period] =~= first + (seq![TokenSpec::Comma]
            + more));
        lemma_tokens_split(ts, i, first, seq![TokenSpec::Comma] + more);
        lemma_tokens_split(ts, i + n, seq![TokenSpec::Comma], more);
        lemma_literal_parsed(ts, i, body[0]);
        assert(ts[i + n + 0].token == seq![TokenSpec::Comma][0]);
        let l = parse_literal(ts, i)->Ok_0.0;
        lemma_body_parsed(ts, i + n + 1, rest, acc.push(l));
        assert(strip_body(acc.push(l)) + rest =~= strip_body(acc) + body);
    }
}

/// The tokens that a clause is written as parse to this clause.
pub proof fn lemma_clause_parsed(ts: Seq<Located>, i: int, c: ClauseSpec, expected: Expected)
    requires
        tokens_at(ts, i, clause_tokens(c)),
    ensures
        parse_clause(ts, i, expected) is Ok,
        parse_clause(ts, i, expected)->Ok_0.1 == i + clause_tokens(c).len(),
        strip_clause(parse_clause(ts, i, expected)->Ok_0.0) == c,
{
    let head = predicate_tokens(c.head);
    let n = head.len() as int;
    if c.body.len() == 0 {
        lemma_tokens_split(ts, i, head, seq![TokenSpec::Period]);
        lemma_predicate_parsed(ts, i, c.head, expected);
        assert(ts[i + n + 0].token == seq![TokenSpec::Period][0]);
        let found = parse_clause(ts, i, expected)->Ok_0.0;
        assert(strip_clause(found).body =~= c.body);
    } else {
        let more = body_tokens(c.body) + seq![TokenSpec::Period];
        assert(clause_tokens(c) =~= head + (seq![TokenSpec::Turnstile] + more));
        lemma_tokens_split(ts, i, head, seq![TokenSpec::Turnstile] + more);
        lemma_tokens_split(ts, i + n, seq![TokenSpec::Turnstile], more);
        lemma_predicate_parsed(ts, i, c.head, expected);
        assert(ts[i + n + 0].token == seq![TokenSpec::Turnstile][0]);
        lemma_body_parsed(ts, i + n + 1, c.body, Seq::empty());
        let found = parse_clause(ts, i, expected)->Ok_0.0;
        assert(strip_body(Seq::<(bool, PredicateAst)>::empty()) + c.body =~= c.body);
        assert(strip_clause(found).body =~= strip_body(found.body));
    }
}

/// The tokens that clauses and a goal are written as, with nothing behind them,
/// parse to the query of these clauses and this goal.
pub proof fn lemma_clauses_parsed(
    ts: Seq<Located>,
    i: int,
    clauses: Seq<ClauseSpec>,
    goal: PredicateSpec,
    acc: Seq<ClauseAst>,
)
    requires
        tokens_at(ts, i, clauses_tokens(clauses) + goal_tokens(goal)),
        i + (clauses_tokens(clauses) + goal_tokens(goal)).len() == ts.len(),
    ensures
        parse_clauses(ts, i, acc) is Ok,
        strip_clauses(parse_clauses(ts, i, acc)->Ok_0.clauses) == strip_clauses(acc) + clauses,
        strip_predicate(parse_clauses(ts, i, acc)->Ok_0.goal) == goal,
    decreases clauses.len(),
{
    if clauses.len() == 0 {
        let toks = goal_tokens(goal);
        let call = predicate_tokens(goal);
        assert(clauses_tokens(clauses) + toks =~= toks);
        assert(toks =~= seq![TokenSpec::Query] + (call + seq![TokenSpec::Period]));
        lemma_tokens_split(ts, i, seq![TokenSpec::Query], call + seq![TokenSpec::Period]);
        lemma_tokens_split(ts, i + 1, call, seq![TokenSpec::Period]);
        assert(ts[i + 0].token == seq![TokenSpec::Query][0]);
        lemma_predicate_parsed(ts, i + 1, goal, Expected::Name);
        assert(ts[i + 1 + call.len() + 0].token == seq![TokenSpec::Period][0]);
        assert(strip_clauses(acc) + clauses =~= strip_clauses(acc));
    } else {
        let first = clause_tokens(clauses[0]);
        let rest = clauses.drop_first();
        let more = clauses_tokens(rest) + goal_tokens(goal);
        assert(clauses_tokens(clauses) + goal_tokens(goal) =~= first + more);
        lemma_tokens_split(ts, i, first, more);
        assert(ts[i + 0].token == first[0]);
        assert(first[0] == TokenSpec::Var(clauses[0].head.name));
        lemma_clause_parsed(ts, i, clauses[0], Expected::ClauseOrGoal);
        let c = parse_clause(ts, i, Expected::ClauseOrGoal)->Ok_0.0;
        lemma_clauses_parsed(ts, i + first.len(), rest, goal, acc.push(c));
        assert(strip_clauses(acc.push(c)) + rest =~= strip_clauses(acc) + clauses);
    }
}

/// A query that is written out and read again is the query that was written,
/// where every metavariable in it has a name that can be written and the text is
/// not too long to be read.
pub proof fn lemma_read_back(q: QuerySpec)
    requires
        query_writable(q),
        byte_len(show_query(q)) < usize::MAX,
    ensures
        read(show_query(q)) == Ok::<QuerySpec, crate::lang::ParseError>(q),
{
    let src = show_query(q);
    lemma_query_lexed(q);
    let lexemes = lex(src)->Ok_0;
    let ts = locate(src, lexemes);
    let toks = query_tokens(q);
    assert(toks =~= clauses_tokens(q.clauses) + goal_tokens(q.goal));
    assert(tokens_at(ts, 0, toks)) by {
        assert forall|k: int| 0 <= k < toks.len() implies (#[trigger] ts[0 + k]).token
            == toks[k] by {
            assert(lexemes.map_values(|l: Lexeme| l.token)[k] == lexemes[k].token);
        }
    }
    lemma_clauses_parsed(ts, 0, q.clauses, q.goal, Seq::empty());
    let found = parse_tokens(ts)->Ok_0;
    assert(strip_clauses(Seq::<ClauseAst>::empty()) + q.clauses =~= q.clauses);
    assert(strip_query(found).clauses =~= strip_clauses(found.clauses));
}

/// The name of a metavariable ends within the text, at or behind the place where
/// the search for its end starts, and is made of characters that may stand in it.
pub proof fn lemma_meta_end_parts(src: Seq<char>, k: int)
    requires
        0 <= k <= src.len(),
    ensures
        k <= meta_end(src, k) <= src.len(),
        forall|j: int| k <= j < meta_end(src, k) ==> is_meta_part(#[trigger] src[j]),
    decreases src.len() - k,
{
    if k < src.len() && is_meta_part(src[k]) {
        lemma_meta_end_parts(src, k + 1);
    }
}

/// A metavariable that the lexer finds has a name that can be written.
pub proof fn lemma_token_meta_name(src: Seq<char>, i: int)
    requires
        token_at(src, i) is Some,
        token_kind(src, i) is MetaVar,
    ensures
        is_meta_name(token_kind(src, i)->MetaVar_0),
{
    lemma_meta_end_parts(src, i + 2);
    let name = src.subrange(i + 1, meta_end(src, i + 2));
    assert(name[0] == src[i + 1]);
    assert forall|j: int| 0 <= j < name.len() implies is_meta_part(#[trigger] name[j]) by {
        assert(name[j] == src[i + 1 + j]);
    }
}

/// Whether every metavariable among the tokens has a name that can be written.
pub open spec fn tokens_writable(tokens: Seq<TokenSpec>) -> bool {
    forall|k: int|
        0 <= k < tokens.len() && (#[trigger] tokens[k]) is MetaVar ==> is_meta_name(
            tokens[k]->MetaVar_0,
        )
}

/// Every metavariable that the lexer finds has a name that can be written.
pub proof fn lemma_lexed_writable(src: Seq<char>, i: int)
    requires
        0 <= i,
    ensures
        kinds(lex_from(src, i)) is Some ==> tokens_writable(kinds(lex_from(src, i))->0),
    decreases src.len() - i,
{
    let start = trivia_end(src, i, false);
    if start >= src.len() || token_at(src, start) is None {
    } else {
        lemma_trivia_end_behind(src, i, false);
        lemma_token_bounds(src, start);
        let token = token_kind(src, start);
        let end = token_end(src, start);
        lemma_lexed_writable(src, end);
        match lex_from(src, end) {
            Err(e) => {},
            Ok(rest) => {
                let first = Lexeme { start, token, end };
                let all = (seq![first] + rest).map_values(|l: Lexeme| l.token);
                let tail = rest.map_values(|l: Lexeme| l.token);
                assert(all =~= seq![token] + tail);
                if token is MetaVar {
                    lemma_token_meta_name(src, start);
                }
                assert forall|k: int| 0 <= k < all.len() && (#[trigger] all[k]) is MetaVar implies is_meta_name(
                    all[k]->MetaVar_0,
                ) by {
                    if k > 0 {
                        assert(all[k] == tail[k - 1]);
                    }
                }
            },
        }
    }
}

/// Whether every metavariable among the located tokens has a name that can be written.
pub open spec fn located_writable(ts: Seq<Located>) -> bool {
    forall|k: int|
        0 <= k < ts.len() && (#[trigger] ts[k]).token is MetaVar ==> is_meta_name(
            ts[k].token->MetaVar_0,
        )
}

/// Whether every value of the list can be read back.
pub open spec fn values_writable(values: Seq<ValueAst>) -> bool {
    forall|j: int| 0 <= j < values.len() ==> value_writable((#[trigger] values[j]).inner)
}

/// Whether every value of every literal of the list can be read back.
pub open spec fn body_writable(body: Seq<(bool, PredicateAst)>) -> bool {
    forall|i: int| 0 <= i < body.len() ==> values_writable((#[trigger] body[i]).1.args)
}

/// Whether every value of every clause of the list can be read back.
pub open spec fn clauses_writable(clauses: Seq<ClauseAst>) -> bool {
    forall|k: int|
        0 <= k < clauses.len() ==> values_writable((#[trigger] clauses[k]).head.args)
            && body_writable(clauses[k].body)
}

/// The values that the parser makes of writable tokens can be read back.
pub proof fn lemma_values_writable(ts: Seq<Located>, i: int, acc: Seq<ValueAst>)
    requires
        located_writable(ts),
        values_writable(acc),
    ensures
        parse_values(ts, i, acc) is Ok ==> values_writable(parse_values(ts, i, acc)->Ok_0.0),
    decreases ts.len() - i,
{
    let expected = if acc.len() == 0 {
        Expected::ValueOrParenClose
    } else {
        Expected::Value
    };
    match parse_value(ts, i, expected) {
        Err(e) => {},
        Ok(v) => {
            let more = acc.push(v);
            assert forall|j: int| 0 <= j < more.len() implies value_writable(
                (#[trigger] more[j]).inner,
            ) by {
                if j < acc.len() {
                    assert(more[j] == acc[j]);
                }
            }
            if is_at(ts, i + 1, TokenSpec::Comma) {
                lemma_values_writable(ts, i + 2, more);
            }
        },
    }
}

/// The call that the parser makes of writable tokens can be read back.
pub proof fn lemma_predicate_writable(ts: Seq<Located>, i: int, expected: Expected)
    requires
        located_writable(ts),
    ensures
        parse_predicate(ts, i, expected) is Ok ==> values_writable(
            parse_predicate(ts, i, expected)->Ok_0.0.args,
        ),
{
    lemma_values_writable(ts, i + 2, Seq::empty());
}

/// The literals that the parser makes of writable tokens can be read back.
pub proof fn lemma_body_writable(ts: Seq<Located>, i: int, acc: Seq<(bool, PredicateAst)>)
    requires
        located_writable(ts),
        body_writable(acc),
    ensures
        parse_body(ts, i, acc) is Ok ==> body_writable(parse_body(ts, i, acc)->Ok_0.0),
    decreases ts.len() - i,
{
    if i >= 0 {
        crate::lang::lemma_literal_advances(ts, i);
        lemma_predicate_writable(ts, i + 1, Expected::Name);
        lemma_predicate_writable(ts, i, Expected::Literal);
        match parse_literal(ts, i) {
            Err(e) => {},
            Ok((l, after)) => {
                let more = acc.push(l);
                assert forall|k: int| 0 <= k < more.len() implies values_writable(
                    (#[trigger] more[k]).1.args,
                ) by {
                    if k < acc.len() {
                        assert(more[k] == acc[k]);
                    }
                }
                if is_at(ts, after, TokenSpec::Comma) {
                    lemma_body_writable(ts, after + 1, more);
                }
            },
        }
    }
}

/// The query that the parser makes of writable tokens can be read back.
pub proof fn lemma_clauses_writable(ts: Seq<Located>, i: int, acc: Seq<ClauseAst>)
    requires
        located_writable(ts),
        clauses_writable(acc),
    ensures
        parse_clauses(ts, i, acc) is Ok ==> clauses_writable(parse_clauses(ts, i, acc)->Ok_0.clauses)
            && values_writable(parse_clauses(ts, i, acc)->Ok_0.goal.args),
    decreases ts.len() - i,
{
    if i < 0 {
    } else if is_at(ts, i, TokenSpec::Query) {
        lemma_predicate_writable(ts, i + 1, Expected::Name);
    } else {
        crate::lang::lemma_clause_advances(ts, i, Expected::ClauseOrGoal);
        lemma_predicate_writable(ts, i, Expected::ClauseOrGoal);
        match parse_clause(ts, i, Expected::ClauseOrGoal) {
            Err(e) => {},
            Ok((c, after)) => {
                match parse_predicate(ts, i, Expected::ClauseOrGoal) {
                    Err(e) => {},
                    Ok((head, behind)) => {
                        lemma_body_writable(ts, behind + 1, Seq::empty());
                    },
                }
                let more = acc.push(c);
                assert forall|k: int| 0 <= k < more.len() implies values_writable(
                    (#[trigger] more[k]).head.args,
                ) && body_writable(more[k].body) by {
                    if k < acc.len() {
                        assert(more[k] == acc[k]);
                    }
                }
                lemma_clauses_writable(ts, after, more);
            },
        }
    }
}

/// A query that was read can be written and read back: every metavariable in it
/// has a name that the lexer took.
pub proof fn lemma_read_is_writable(src: Seq<char>)
    requires
        read(src) is Ok,
    ensures
        query_writable(read(src)->Ok_0),
{
    lemma_lexed_writable(src, 0);
    let lexemes = lex(src)->Ok_0;
    let ts = locate(src, lexemes);
    assert(located_writable(ts)) by {
        let tokens = kinds(lex(src))->0;
        assert forall|k: int| 0 <= k < ts.len() && (#[trigger] ts[k]).token is MetaVar implies is_meta_name(
            ts[k].token->MetaVar_0,
        ) by {
            assert(tokens[k] == lexemes[k].token);
        }
    }
    lemma_clauses_writable(ts, 0, Seq::empty());
    let found = parse_tokens(ts)->Ok_0;
    let q = strip_query(found);
    assert forall|k: int| 0 <= k < q.clauses.len() implies clause_writable(#[trigger] q.clauses[k]) by {
        let c = found.clauses[k];
        assert(q.clauses[k] == strip_clause(c));
        assert forall|j: int| 0 <= j < q.clauses[k].head.args.len() implies value_writable(
            #[trigger] q.clauses[k].head.args[j],
        ) by {
            assert(q.clauses[k].head.args[j] == c.head.args[j].inner);
        }
        assert forall|i: int| 0 <= i < q.clauses[k].body.len() implies predicate_writable(
            (#[trigger] q.clauses[k].body[i]).1,
        ) by {
            let p = c.body[i].1;
            assert(q.clauses[k].body[i].1 == strip_predicate(p));
            assert forall|j: int| 0 <= j < p.args.len() implies value_writable(
                #[trigger] strip_predicate(p).args[j],
            ) by {
                assert(strip_predicate(p).args[j] == p.args[j].inner);
            }
        }
    }
    assert forall|j: int| 0 <= j < q.goal.args.len() implies value_writable(
        #[trigger] q.goal.args[j],
    ) by {
        assert(q.goal.args[j] == found.goal.args[j].inner);
    }
}

/// Writing out a query that was read and reading it again gives the same query:
/// between a text and the text that its query is written as, only blanks,
/// comments and quotes differ.
pub proof fn lemma_written_again(src: Seq<char>)
    requires
        read(src) is Ok,
        byte_len(show_query(read(src)->Ok_0)) < usize::MAX,
    ensures
        read(show_query(read(src)->Ok_0)) == read(src),
{
    lemma_read_is_writable(src);
    lemma_read_back(read(src)->Ok_0);
}

} // verus!
