//! The lexer of the query language: from source text to tokens with their places.
//!
//! Blanks and comments (from `//` to the end of the line) separate tokens and are
//! dropped. A place is a line, counted from 1, and a column: the number of bytes
//! since the latest line feed, that line feed included, or since the start of the
//! text on the first line.

use crate::text::{
    byte_len, char_width, chars_of, decimal, lemma_byte_len_prefix, push_decimal, string_of, width,
};
use vstd::prelude::*;

verus! {

/// A point.
#[derive(Clone, Copy, Debug, PartialEq, Eq, Structural)]
pub struct Point(pub usize, pub usize);

impl Default for Point {
    fn default() -> (p: Point)
        ensures
            p == Point(1, 0),
    {
        Point(1, 0)
    }
}

/// A span in the file.
#[derive(Clone, Copy, Debug, PartialEq, Eq, Structural)]
pub struct Span(pub Point, pub Point);

/// A token in the source code.
#[derive(Clone, Debug, PartialEq, Eq)]
pub enum Token {
    /// A close parenthesis character (`)`).
    ParenClose,
    /// An open parenthesis character (`(`).
    ParenOpen,
    /// An underscore character ('_').
    Underscore,
    /// An exclaimation mark, `!`.
    Not,
    /// A comma character (',').
    Comma,
    /// A period character ('.').
    Period,
    /// The turnstile operator, `:-`.
    Turnstile,
    /// The "query operator", `?-`.
    Query,
    /// A string enclosed in double-quotes.
    String(String),
    /// A variable, either unescaped or enclosed in single-quotes.
    Var(String),
    /// A metavariable: a name behind `$`.
    MetaVar(String),
}

/// What a `Token` stands for.
pub enum TokenSpec {
    ParenClose,
    ParenOpen,
    Underscore,
    Not,
    Comma,
    Period,
    Turnstile,
    Query,
    String(Seq<char>),
    Var(Seq<char>),
    MetaVar(Seq<char>),
}

impl View for Token {
    type V = TokenSpec;

    open spec fn view(&self) -> TokenSpec {
        match self {
            Token::ParenClose => TokenSpec::ParenClose,
            Token::ParenOpen => TokenSpec::ParenOpen,
            Token::Underscore => TokenSpec::Underscore,
            Token::Not => TokenSpec::Not,
            Token::Comma => TokenSpec::Comma,
            Token::Period => TokenSpec::Period,
            Token::Turnstile => TokenSpec::Turnstile,
            Token::Query => TokenSpec::Query,
            Token::String(s) => TokenSpec::String(s@),
            Token::Var(s) => TokenSpec::Var(s@),
            Token::MetaVar(s) => TokenSpec::MetaVar(s@),
        }
    }
}

/// The kinds of piece that the text between two quotes is made of.
#[derive(Clone, Copy, Debug, PartialEq, Eq, Structural)]
pub enum StringToken {
    /// The end of the text.
    End,
    /// A piece that may not stand between quotes.
    Error,
    /// `\t`
    EscTab,
    /// `\r`
    EscCR,
    /// `\n`
    EscNL,
    /// `\'`
    EscSQuote,
    /// `\"`
    EscDQuote,
    /// `\\`
    EscBackslash,
    /// A character other than a quote or a backslash.
    Char,
}

/// Why a text has no tokens.
#[derive(Clone, Copy, Debug, PartialEq, Eq, Structural)]
pub enum LexError {
    /// A text that is no token starts at the place `at`.
    NoToken { at: Point },
    /// The text takes too many bytes for its places to be counted.
    TooLong,
}

/// Whether the character is a blank.
pub open spec fn is_blank(c: char) -> bool {
    c == ' ' || c == '\t' || c == '\n' || c == '\r'
}

/// Whether the character is a letter of the Latin alphabet.
pub open spec fn is_letter(c: char) -> bool {
    ('a' <= c && c <= 'z') || ('A' <= c && c <= 'Z')
}

/// Whether the character is a decimal digit.
pub open spec fn is_digit(c: char) -> bool {
    '0' <= c && c <= '9'
}

/// Whether the character may follow the first one in a bare identifier.
pub open spec fn is_name_part(c: char) -> bool {
    is_letter(c) || is_digit(c) || c == '_' || c == '-'
}

/// Whether the character may follow the first one in the name of a metavariable.
pub open spec fn is_meta_part(c: char) -> bool {
    is_letter(c) || is_digit(c) || c == '_'
}

/// The character that an escape stands for, by the character behind the backslash.
pub open spec fn escaped(c: char) -> char {
    if c == 't' {
        '\t'
    } else if c == 'r' {
        '\r'
    } else if c == 'n' {
        '\n'
    } else {
        c
    }
}

/// The kind of the piece that starts at `i` in a text between quotes.
pub open spec fn piece_at(body: Seq<char>, i: int) -> StringToken {
    if i >= body.len() {
        StringToken::End
    } else if body[i] == '\\' {
        if i + 1 >= body.len() {
            StringToken::Error
        } else if body[i + 1] == 't' {
            StringToken::EscTab
        } else if body[i + 1] == 'r' {
            StringToken::EscCR
        } else if body[i + 1] == 'n' {
            StringToken::EscNL
        } else if body[i + 1] == '\'' {
            StringToken::EscSQuote
        } else if body[i + 1] == '"' {
            StringToken::EscDQuote
        } else if body[i + 1] == '\\' {
            StringToken::EscBackslash
        } else {
            StringToken::Error
        }
    } else if body[i] == '\'' || body[i] == '"' {
        StringToken::Error
    } else {
        StringToken::Char
    }
}

/// Whether the text from `i` on is made of pieces that may stand between quotes.
pub open spec fn pieces_from(body: Seq<char>, i: int) -> bool
    decreases body.len() - i,
{
    if i < 0 {
        false
    } else {
        match piece_at(body, i) {
            StringToken::End => true,
            StringToken::Error => false,
            StringToken::Char => pieces_from(body, i + 1),
            _ => pieces_from(body, i + 2),
        }
    }
}

/// The text that the pieces from `i` on stand for: each escape as its character,
/// every other character as itself.
pub open spec fn unescape_from(body: Seq<char>, i: int) -> Seq<char>
    decreases body.len() - i,
{
    if i < 0 {
        Seq::empty()
    } else {
        match piece_at(body, i) {
            StringToken::End | StringToken::Error => Seq::empty(),
            StringToken::Char => seq![body[i]] + unescape_from(body, i + 1),
            _ => seq![escaped(body[i + 1])] + unescape_from(body, i + 2),
        }
    }
}

/// Whether a text is a quoted one: at least two characters, with pieces that may
/// stand between quotes between its first and its last.
pub open spec fn is_quoted(s: Seq<char>) -> bool {
    s.len() >= 2 && pieces_from(s.subrange(1, s.len() - 1), 0)
}

/// The text that a quoted text stands for.
pub open spec fn unquote(s: Seq<char>) -> Seq<char> {
    unescape_from(s.subrange(1, s.len() - 1), 0)
}

/// Where the bare identifier that holds the character before `i` ends.
pub open spec fn name_end(src: Seq<char>, i: int) -> int
    decreases src.len() - i,
{
    if 0 <= i < src.len() && is_name_part(src[i]) {
        name_end(src, i + 1)
    } else {
        i
    }
}

/// Where the name of a metavariable that holds the character before `i` ends.
pub open spec fn meta_end(src: Seq<char>, i: int) -> int
    decreases src.len() - i,
{
    if 0 <= i < src.len() && is_meta_part(src[i]) {
        meta_end(src, i + 1)
    } else {
        i
    }
}

/// Where the quote `quote` that closes the quoted text with its first piece at `i`
/// stands, if the pieces up to it may stand between quotes.
pub open spec fn quote_end(src: Seq<char>, i: int, quote: char) -> Option<int>
    decreases src.len() - i,
{
    if i < 0 || i >= src.len() {
        None
    } else if src[i] == quote {
        Some(i)
    } else {
        match piece_at(src, i) {
            StringToken::End | StringToken::Error => None,
            StringToken::Char => quote_end(src, i + 1, quote),
            _ => quote_end(src, i + 2, quote),
        }
    }
}

/// Where the blanks and comments from `i` on end. Inside a comment, which runs up
/// to the end of its line, `comment` is set.
pub open spec fn trivia_end(src: Seq<char>, i: int, comment: bool) -> int
    decreases src.len() - i, if comment { 1int } else { 0int },
{
    if i < 0 || i >= src.len() {
        i
    } else if comment {
        if src[i] == '\n' || src[i] == '\r' {
            trivia_end(src, i, false)
        } else {
            trivia_end(src, i + 1, true)
        }
    } else if is_blank(src[i]) {
        trivia_end(src, i + 1, false)
    } else if src[i] == '/' && i + 1 < src.len() && src[i + 1] == '/' {
        trivia_end(src, i + 2, true)
    } else {
        i
    }
}

/// The token that starts at `i`, with the place where it ends, if one starts there.
pub open spec fn token_at(src: Seq<char>, i: int) -> Option<(TokenSpec, int)> {
    if i < 0 || i >= src.len() {
        None
    } else if src[i] == ')' {
        Some((TokenSpec::ParenClose, i + 1))
    } else if src[i] == '(' {
        Some((TokenSpec::ParenOpen, i + 1))
    } else if src[i] == '_' {
        Some((TokenSpec::Underscore, i + 1))
    } else if src[i] == '!' {
        Some((TokenSpec::Not, i + 1))
    } else if src[i] == ',' {
        Some((TokenSpec::Comma, i + 1))
    } else if src[i] == '.' {
        Some((TokenSpec::Period, i + 1))
    } else if src[i] == ':' && i + 1 < src.len() && src[i + 1] == '-' {
        Some((TokenSpec::Turnstile, i + 2))
    } else if src[i] == '?' && i + 1 < src.len() && src[i + 1] == '-' {
        Some((TokenSpec::Query, i + 2))
    } else if src[i] == '"' {
        match quote_end(src, i + 1, '"') {
            Some(j) => Some((TokenSpec::String(unescape_from(src.subrange(i + 1, j), 0)), j + 1)),
            None => None,
        }
    } else if src[i] == '\'' {
        match quote_end(src, i + 1, '\'') {
            Some(j) => Some((TokenSpec::Var(unescape_from(src.subrange(i + 1, j), 0)), j + 1)),
            None => None,
        }
    } else if is_letter(src[i]) {
        Some((TokenSpec::Var(src.subrange(i, name_end(src, i + 1))), name_end(src, i + 1)))
    } else if src[i] == '$' && i + 1 < src.len() && (is_letter(src[i + 1]) || src[i + 1] == '_') {
        Some((TokenSpec::MetaVar(src.subrange(i + 1, meta_end(src, i + 2))), meta_end(src, i + 2)))
    } else {
        None
    }
}

/// The place after a character, from the place before it.
pub open spec fn advance(p: (int, int), c: char) -> (int, int) {
    if c == '\n' {
        (p.0 + 1, 1)
    } else {
        (p.0, p.1 + width(c))
    }
}

/// The place of the index `i` in the text: its line and its column.
pub open spec fn place(src: Seq<char>, i: int) -> (int, int)
    decreases i,
{
    if i <= 0 || i > src.len() {
        (1, 0)
    } else {
        advance(place(src, i - 1), src[i - 1])
    }
}

/// A token with the indices at which it starts and ends.
pub struct Lexeme {
    pub start: int,
    pub token: TokenSpec,
    pub end: int,
}

/// Blanks and comments end at or behind the index where they start.
pub proof fn lemma_trivia_end_behind(src: Seq<char>, i: int, comment: bool)
    requires
        0 <= i,
    ensures
        trivia_end(src, i, comment) >= i,
    decreases src.len() - i, if comment { 1int } else { 0int },
{
    if i >= src.len() {
    } else if comment {
        if src[i] == '\n' || src[i] == '\r' {
            lemma_trivia_end_behind(src, i, false);
        } else {
            lemma_trivia_end_behind(src, i + 1, true);
        }
    } else if is_blank(src[i]) {
        lemma_trivia_end_behind(src, i + 1, false);
    } else if src[i] == '/' && i + 1 < src.len() && src[i + 1] == '/' {
        lemma_trivia_end_behind(src, i + 2, true);
    }
}

/// A bare identifier ends within the text, at or behind the place where the
/// search for its end starts.
pub proof fn lemma_name_end_bounds(src: Seq<char>, k: int)
    requires
        0 <= k <= src.len(),
    ensures
        k <= name_end(src, k) <= src.len(),
    decreases src.len() - k,
{
    if k < src.len() && is_name_part(src[k]) {
        lemma_name_end_bounds(src, k + 1);
    }
}

/// The name of a metavariable ends within the text, at or behind the place where
/// the search for its end starts.
pub proof fn lemma_meta_end_bounds(src: Seq<char>, k: int)
    requires
        0 <= k <= src.len(),
    ensures
        k <= meta_end(src, k) <= src.len(),
    decreases src.len() - k,
{
    if k < src.len() && is_meta_part(src[k]) {
        lemma_meta_end_bounds(src, k + 1);
    }
}

/// A closing quote is found at or behind the place where the search starts, and
/// within the text.
pub proof fn lemma_quote_end_bounds(src: Seq<char>, i: int, quote: char)
    ensures
        quote_end(src, i, quote) is Some ==> i <= quote_end(src, i, quote)->0 < src.len()
            && src[quote_end(src, i, quote)->0] == quote,
    decreases src.len() - i,
{
    if i < 0 || i >= src.len() {
    } else if src[i] == quote {
    } else {
        match piece_at(src, i) {
            StringToken::End | StringToken::Error => {},
            StringToken::Char => {
                lemma_quote_end_bounds(src, i + 1, quote);
            },
            _ => {
                lemma_quote_end_bounds(src, i + 2, quote);
            },
        }
    }
}

/// The index behind the token that starts at `i`, where one starts there.
pub open spec fn token_end(src: Seq<char>, i: int) -> int {
    let found = token_at(src, i)->0;
    found.1
}

/// The token that starts at `i`, where one starts there.
pub open spec fn token_kind(src: Seq<char>, i: int) -> TokenSpec {
    let found = token_at(src, i)->0;
    found.0
}

/// A token ends behind the place where it starts, and within the text.
pub proof fn lemma_token_bounds(src: Seq<char>, i: int)
    requires
        token_at(src, i) is Some,
    ensures
        0 <= i < token_end(src, i) <= src.len(),
{
    lemma_quote_end_bounds(src, i + 1, '"');
    lemma_quote_end_bounds(src, i + 1, '\'');
    lemma_name_end_bounds(src, i + 1);
    if i + 2 <= src.len() {
        lemma_meta_end_bounds(src, i + 2);
    }
}

/// The tokens of the text from `i` on, or the index at which a text starts that is no token.
pub open spec fn lex_from(src: Seq<char>, i: int) -> Result<Seq<Lexeme>, int>
    decreases src.len() - i,
{
    let start = trivia_end(src, i, false);
    if i < 0 || start >= src.len() {
        Ok(Seq::empty())
    } else if token_at(src, start) is None {
        Err(start)
    } else {
        proof {
            lemma_trivia_end_behind(src, i, false);
            lemma_token_bounds(src, start);
        }
        match lex_from(src, token_end(src, start)) {
            Err(e) => Err(e),
            Ok(rest) => Ok(
                seq![
                    Lexeme {
                        start,
                        token: token_kind(src, start),
                        end: token_end(src, start),
                    },
                ] + rest,
            ),
        }
    }
}

/// The tokens of a text.
pub open spec fn lex(src: Seq<char>) -> Result<Seq<Lexeme>, int> {
    lex_from(src, 0)
}

/// Whether the character is a blank.
fn blank(c: char) -> (r: bool)
    ensures
        r == is_blank(c),
{
    c == ' ' || c == '\t' || c == '\n' || c == '\r'
}

/// Whether the character is a letter of the Latin alphabet.
fn letter(c: char) -> (r: bool)
    ensures
        r == is_letter(c),
{
    ('a' <= c && c <= 'z') || ('A' <= c && c <= 'Z')
}

/// Whether the character may follow the first one in a bare identifier.
fn name_part(c: char) -> (r: bool)
    ensures
        r == is_name_part(c),
{
    letter(c) || ('0' <= c && c <= '9') || c == '_' || c == '-'
}

/// Whether the character may follow the first one in the name of a metavariable.
fn meta_part(c: char) -> (r: bool)
    ensures
        r == is_meta_part(c),
{
    letter(c) || ('0' <= c && c <= '9') || c == '_'
}

/// The kind of the piece that starts at `i` in a text between quotes.
pub fn string_token(body: &Vec<char>, i: usize) -> (r: StringToken)
    ensures
        r == piece_at(body@, i as int),
{
    if i >= body.len() {
        StringToken::End
    } else if body[i] == '\\' {
        if i + 1 >= body.len() {
            StringToken::Error
        } else if body[i + 1] == 't' {
            StringToken::EscTab
        } else if body[i + 1] == 'r' {
            StringToken::EscCR
        } else if body[i + 1] == 'n' {
            StringToken::EscNL
        } else if body[i + 1] == '\'' {
            StringToken::EscSQuote
        } else if body[i + 1] == '"' {
            StringToken::EscDQuote
        } else if body[i + 1] == '\\' {
            StringToken::EscBackslash
        } else {
            StringToken::Error
        }
    } else if body[i] == '\'' || body[i] == '"' {
        StringToken::Error
    } else {
        StringToken::Char
    }
}

/// The text that the characters of `src` from `from` up to `to` stand for between quotes.
fn unescape(src: &Vec<char>, from: usize, to: usize) -> (out: Vec<char>)
    requires
        from <= to <= src.len(),
        pieces_from(src@.subrange(from as int, to as int), 0),
    ensures
        out@ == unescape_from(src@.subrange(from as int, to as int), 0),
{
    let ghost body = src@.subrange(from as int, to as int);
    let mut out: Vec<char> = Vec::new();
    let mut k: usize = from;
    while k < to
        invariant
            from <= k <= to <= src.len(),
            body == src@.subrange(from as int, to as int),
            pieces_from(body, k - from),
            out@ + unescape_from(body, k - from) == unescape_from(body, 0),
        decreases to - k,
    {
        let c = src[k];
        assert(body[k - from] == c);
        if c == '\\' {
            assert(k + 1 < to);
            let d = src[k + 1];
            assert(body[k - from + 1] == d);
            let e = if d == 't' {
                '\t'
            } else if d == 'r' {
                '\r'
            } else if d == 'n' {
                '\n'
            } else {
                d
            };
            let ghost before = out@;
            out.push(e);
            assert(out@ + unescape_from(body, k - from + 2) =~= before + unescape_from(
                body,
                k - from,
            ));
            k += 2;
        } else {
            let ghost before = out@;
            out.push(c);
            assert(out@ + unescape_from(body, k - from + 1) =~= before + unescape_from(
                body,
                k - from,
            ));
            k += 1;
        }
    }
    assert(unescape_from(body, to - from) =~= Seq::empty());
    assert(out@ =~= out@ + unescape_from(body, to - from));
    out
}

/// Whether a text is a quoted one, which `parse_stringish` reads: it has a first
/// and a last character, and between them pieces that may stand between quotes.
pub fn is_stringish(s: &str) -> (r: bool)
    ensures
        r == is_quoted(s@),
{
    let chars = chars_of(s);
    if chars.len() < 2 {
        return false;
    }
    let ghost body = chars@.subrange(1, chars.len() - 1);
    let to: usize = chars.len() - 1;
    let mut k: usize = 1;
    while k < to
        invariant
            1 <= k <= to,
            chars@ == s@,
            to == chars.len() - 1,
            body == chars@.subrange(1, chars.len() - 1),
            pieces_from(body, 0) == pieces_from(body, k - 1),
        decreases to - k,
    {
        let c = chars[k];
        assert(body[k - 1] == c);
        if c == '\\' {
            if k + 1 >= to {
                assert(piece_at(body, k - 1) == StringToken::Error);
                return false;
            }
            let d = chars[k + 1];
            assert(body[k as int] == d);
            if !(d == 't' || d == 'r' || d == 'n' || d == '\'' || d == '"' || d == '\\') {
                assert(piece_at(body, k - 1) == StringToken::Error);
                return false;
            }
            k += 2;
        } else if c == '\'' || c == '"' {
            assert(piece_at(body, k - 1) == StringToken::Error);
            return false;
        } else {
            k += 1;
        }
    }
    assert(piece_at(body, k - 1) == StringToken::End);
    true
}

/// Reads a quoted text: drops the quote at either end and replaces each escape
/// by the character that it stands for.
pub fn parse_stringish(s: &str) -> (r: String)
    requires
        is_quoted(s@),
    ensures
        r@ == unquote(s@),
{
    let chars = chars_of(s);
    let out = unescape(&chars, 1, chars.len() - 1);
    string_of(&out)
}

/// The characters up to a closing quote are pieces that may stand between quotes.
pub proof fn lemma_quote_pieces(src: Seq<char>, a: int, k: int, quote: char)
    requires
        0 <= a <= k,
        quote == '"' || quote == '\'',
        quote_end(src, k, quote) is Some,
    ensures
        pieces_from(src.subrange(a, quote_end(src, k, quote)->0), k - a),
    decreases src.len() - k,
{
    let j = quote_end(src, k, quote)->0;
    lemma_quote_end_bounds(src, k, quote);
    let body = src.subrange(a, j);
    if src[k] == quote {
        assert(piece_at(body, k - a) == StringToken::End);
    } else {
        match piece_at(src, k) {
            StringToken::End | StringToken::Error => {},
            StringToken::Char => {
                lemma_quote_end_bounds(src, k + 1, quote);
                lemma_quote_pieces(src, a, k + 1, quote);
                assert(body[k - a] == src[k]);
                assert(piece_at(body, k - a) == StringToken::Char);
            },
            _ => {
                lemma_quote_end_bounds(src, k + 2, quote);
                lemma_quote_pieces(src, a, k + 2, quote);
                assert(body[k - a] == src[k]);
                assert(body[k - a + 1] == src[k + 1]);
                assert(piece_at(body, k - a) == piece_at(src, k));
            },
        }
    }
}

/// A lexer over texts, producing `Token`s.
pub struct Lexer {
    chars: Vec<char>,
    pos: usize,
    at: Point,
}

impl Lexer {
    /// The text that the lexer reads.
    pub closed spec fn source(&self) -> Seq<char> {
        self.chars@
    }

    /// The index in the text up to which the lexer has read.
    pub closed spec fn position(&self) -> int {
        self.pos as int
    }

    /// The lexer has read up to an index within a text whose length in bytes is
    /// below the largest number, and knows the place of that index.
    pub closed spec fn wf(&self) -> bool {
        &&& self.pos <= self.chars.len()
        &&& byte_len(self.chars@) < usize::MAX
        &&& (self.at.0 as int, self.at.1 as int) == place(self.chars@, self.pos as int)
        &&& self.at.0 <= 1 + byte_len(self.chars@.subrange(0, self.pos as int))
        &&& self.at.1 <= byte_len(self.chars@.subrange(0, self.pos as int))
    }

    /// Creates a new `Lexer`.
    pub fn new(src: &str) -> (lexer: Lexer)
        requires
            byte_len(src@) < usize::MAX,
        ensures
            lexer.wf(),
            lexer.source() == src@,
            lexer.position() == 0,
    {
        let lexer = Lexer { chars: chars_of(src), pos: 0, at: Point(1, 0) };
        assert(lexer.chars@.subrange(0, 0) =~= Seq::empty());
        lexer
    }

    /// Moves on by one character.
    fn step(&mut self)
        requires
            old(self).wf(),
            old(self).pos < old(self).chars.len(),
        ensures
            final(self).wf(),
            final(self).chars == old(self).chars,
            final(self).pos == old(self).pos + 1,
    {
        proof {
            lemma_byte_len_prefix(self.chars@, self.pos as int);
            lemma_byte_len_prefix(self.chars@, self.pos + 1);
        }
        let c = self.chars[self.pos];
        if c == '\n' {
            self.at = Point(self.at.0 + 1, 1);
        } else {
            self.at = Point(self.at.0, self.at.1 + char_width(c));
        }
        self.pos = self.pos + 1;
    }

    /// Moves on to the index `to`.
    fn go(&mut self, to: usize)
        requires
            old(self).wf(),
            old(self).pos <= to <= old(self).chars.len(),
        ensures
            final(self).wf(),
            final(self).chars == old(self).chars,
            final(self).pos == to,
    {
        while self.pos < to
            invariant
                self.wf(),
                self.chars == old(self).chars,
                self.pos <= to <= self.chars.len(),
            decreases to - self.pos,
        {
            self.step();
        }
    }

    /// Moves on over blanks and comments.
    fn skip(&mut self)
        requires
            old(self).wf(),
        ensures
            final(self).wf(),
            final(self).chars == old(self).chars,
            final(self).pos == trivia_end(old(self).chars@, old(self).pos as int, false),
            final(self).pos >= old(self).pos,
    {
        let ghost src = self.chars@;
        let ghost goal = trivia_end(src, self.pos as int, false);
        let mut comment: bool = false;
        loop
            invariant
                self.wf(),
                self.chars == old(self).chars,
                src == self.chars@,
                self.pos >= old(self).pos,
                goal == trivia_end(src, self.pos as int, comment),
            ensures
                self.wf(),
                self.chars == old(self).chars,
                self.pos >= old(self).pos,
                goal == self.pos,
            decreases self.chars.len() - self.pos, if comment { 1int } else { 0int },
        {
            if self.pos >= self.chars.len() {
                break ;
            }
            let c = self.chars[self.pos];
            if comment {
                if c == '\n' || c == '\r' {
                    comment = false;
                } else {
                    self.step();
                }
            } else if blank(c) {
                self.step();
            } else if c == '/' && self.pos + 1 < self.chars.len() && self.chars[self.pos + 1]
                == '/' {
                self.step();
                self.step();
                comment = true;
            } else {
                break ;
            }
        }
    }

    /// Where the bare identifier ends that holds the character before `i`.
    fn find_name_end(&self, i: usize) -> (end: usize)
        requires
            i <= self.chars.len(),
        ensures
            end == name_end(self.chars@, i as int),
            i <= end <= self.chars.len(),
    {
        let mut k: usize = i;
        while k < self.chars.len() && name_part(self.chars[k])
            invariant
                i <= k <= self.chars.len(),
                name_end(self.chars@, i as int) == name_end(self.chars@, k as int),
            decreases self.chars.len() - k,
        {
            k += 1;
        }
        k
    }

    /// Where the name of a metavariable ends that holds the character before `i`.
    fn find_meta_end(&self, i: usize) -> (end: usize)
        requires
            i <= self.chars.len(),
        ensures
            end == meta_end(self.chars@, i as int),
            i <= end <= self.chars.len(),
    {
        let mut k: usize = i;
        while k < self.chars.len() && meta_part(self.chars[k])
            invariant
                i <= k <= self.chars.len(),
                meta_end(self.chars@, i as int) == meta_end(self.chars@, k as int),
            decreases self.chars.len() - k,
        {
            k += 1;
        }
        k
    }

    /// Where the quote stands that closes the quoted text with its first piece at `i`.
    fn find_quote(&self, i: usize, quote: char) -> (r: Option<usize>)
        requires
            i <= self.chars.len(),
        ensures
            match r {
                Some(j) => quote_end(self.chars@, i as int, quote) == Some(j as int) && i <= j
                    < self.chars.len(),
                None => quote_end(self.chars@, i as int, quote) is None,
            },
    {
        let mut k: usize = i;
        while k < self.chars.len()
            invariant
                i <= k <= self.chars.len(),
                quote_end(self.chars@, i as int, quote) == quote_end(self.chars@, k as int, quote),
            decreases self.chars.len() - k,
        {
            if self.chars[k] == quote {
                return Some(k);
            }
            match string_token(&self.chars, k) {
                StringToken::End | StringToken::Error => {
                    return None;
                },
                StringToken::Char => {
                    k += 1;
                },
                _ => {
                    k += 2;
                },
            }
        }
        None
    }

    /// A copy of the characters from `from` up to `to`, as a string.
    fn slice(&self, from: usize, to: usize) -> (s: String)
        requires
            from <= to <= self.chars.len(),
        ensures
            s@ == self.chars@.subrange(from as int, to as int),
    {
        let mut out: Vec<char> = Vec::new();
        let mut k: usize = from;
        while k < to
            invariant
                from <= k <= to <= self.chars.len(),
                out@ == self.chars@.subrange(from as int, k as int),
            decreases to - k,
        {
            out.push(self.chars[k]);
            assert(out@ =~= self.chars@.subrange(from as int, k + 1));
            k += 1;
        }
        string_of(&out)
    }

    /// The token that starts where the lexer stands, with the index where it ends.
    fn scan(&self) -> (r: Option<(Token, usize)>)
        requires
            self.wf(),
        ensures
            match r {
                Some((token, end)) => token_at(self.chars@, self.pos as int) == Some(
                    (token@, end as int),
                ) && self.pos < end <= self.chars.len(),
                None => token_at(self.chars@, self.pos as int) is None,
            },
    {
        let i = self.pos;
        if i >= self.chars.len() {
            return None;
        }
        let c = self.chars[i];
        if c == ')' {
            Some((Token::ParenClose, i + 1))
        } else if c == '(' {
            Some((Token::ParenOpen, i + 1))
        } else if c == '_' {
            Some((Token::Underscore, i + 1))
        } else if c == '!' {
            Some((Token::Not, i + 1))
        } else if c == ',' {
            Some((Token::Comma, i + 1))
        } else if c == '.' {
            Some((Token::Period, i + 1))
        } else if c == ':' && i + 1 < self.chars.len() && self.chars[i + 1] == '-' {
            Some((Token::Turnstile, i + 2))
        } else if c == '?' && i + 1 < self.chars.len() && self.chars[i + 1] == '-' {
            Some((Token::Query, i + 2))
        } else if c == '"' {
            match self.find_quote(i + 1, '"') {
                Some(j) => {
                    proof {
                        lemma_quote_pieces(self.chars@, i + 1, i + 1, '"');
                    }
                    let text = unescape(&self.chars, i + 1, j);
                    Some((Token::String(string_of(&text)), j + 1))
                },
                None => None,
            }
        } else if c == '\'' {
            match self.find_quote(i + 1, '\'') {
                Some(j) => {
                    proof {
                        lemma_quote_pieces(self.chars@, i + 1, i + 1, '\'');
                    }
                    let text = unescape(&self.chars, i + 1, j);
                    Some((Token::Var(string_of(&text)), j + 1))
                },
                None => None,
            }
        } else if letter(c) {
            let end = self.find_name_end(i + 1);
            Some((Token::Var(self.slice(i, end)), end))
        } else if c == '$' && i + 1 < self.chars.len() && (letter(self.chars[i + 1])
            || self.chars[i + 1] == '_') {
            let end = self.find_meta_end(i + 2);
            Some((Token::MetaVar(self.slice(i + 1, end)), end))
        } else {
            None
        }
    }

    /// The next token with the places where it starts and ends, an error where the
    /// text is no token, or `None` at the end of the text. After an error the lexer
    /// stands where the error is.
    pub fn next(&mut self) -> (r: Option<Result<(Point, Token, Point), LexError>>)
        requires
            old(self).wf(),
        ensures
            final(self).wf(),
            final(self).source() == old(self).source(),
            next_is(old(self).source(), old(self).position(), r, final(self).position()),
    {
        self.skip();
        if self.pos >= self.chars.len() {
            return None;
        }
        let start = self.at;
        match self.scan() {
            Some((token, end)) => {
                self.go(end);
                Some(Ok((start, token, self.at)))
            },
            None => Some(Err(LexError::NoToken { at: start })),
        }
    }
}

/// The place of an index of the text, as a point.
pub open spec fn point_at(src: Seq<char>, i: int) -> Point {
    Point(place(src, i).0 as usize, place(src, i).1 as usize)
}

/// Whether `r` is what the lexer gives from the index `i` on, and `after` the
/// index where it stands then.
pub open spec fn next_is(
    src: Seq<char>,
    i: int,
    r: Option<Result<(Point, Token, Point), LexError>>,
    after: int,
) -> bool {
    let start = trivia_end(src, i, false);
    let found = token_at(src, start);
    let scanned = found->0;
    if start >= src.len() {
        r is None && after == start && i <= start
    } else if found is None {
        r == Some(Err::<(Point, Token, Point), LexError>(LexError::NoToken { at: point_at(src, start) }))
            && after == start && i <= start
    } else {
        &&& r is Some
        &&& r->0 is Ok
        &&& r->0->Ok_0.0 == point_at(src, start)
        &&& r->0->Ok_0.1@ == scanned.0
        &&& r->0->Ok_0.2 == point_at(src, scanned.1)
        &&& after == scanned.1
        &&& i <= start < scanned.1 <= src.len()
    }
}

/// A token between the places where it starts and ends, as what it stands for.
pub struct Located {
    pub start: Point,
    pub token: TokenSpec,
    pub end: Point,
}

/// The tokens of a list with their places, each as what it stands for.
pub open spec fn tokens_view(tokens: Seq<(Point, Token, Point)>) -> Seq<Located> {
    tokens.map_values(|t: (Point, Token, Point)| Located { start: t.0, token: t.1@, end: t.2 })
}

/// The tokens of a text with their places, or why it has none: it takes too many
/// bytes, or a text that is no token starts in it.
pub open spec fn scan(src: Seq<char>) -> Result<Seq<Located>, LexError> {
    if byte_len(src) >= usize::MAX {
        Err(LexError::TooLong)
    } else {
        match lex(src) {
            Ok(lexemes) => Ok(locate(src, lexemes)),
            Err(i) => Err(LexError::NoToken { at: point_at(src, i) }),
        }
    }
}

/// The tokens of a text with the places where each starts and ends.
pub open spec fn locate(src: Seq<char>, lexemes: Seq<Lexeme>) -> Seq<Located> {
    lexemes.map_values(
        |l: Lexeme|
            Located { start: point_at(src, l.start), token: l.token, end: point_at(src, l.end) },
    )
}

/// The tokens that follow the tokens `done`, or the error that follows them.
pub open spec fn chain(done: Seq<Lexeme>, more: Result<Seq<Lexeme>, int>) -> Result<
    Seq<Lexeme>,
    int,
> {
    match more {
        Ok(rest) => Ok(done + rest),
        Err(e) => Err(e),
    }
}

/// The tokens of a text with their places, or the place of the first text in it that
/// is no token.
pub fn tokenize(src: &str) -> (r: Result<Vec<(Point, Token, Point)>, LexError>)
    ensures
        match scan(src@) {
            Ok(tokens) => r is Ok && tokens_view(r->Ok_0@) == tokens,
            Err(e) => r == Err::<Vec<(Point, Token, Point)>, LexError>(e),
        },
{
    if !crate::text::fits(src) {
        return Err(LexError::TooLong);
    }
    let mut lexer = Lexer::new(src);
    let mut out: Vec<(Point, Token, Point)> = Vec::new();
    let ghost mut done: Seq<Lexeme> = Seq::empty();
    assert(tokens_view(out@) =~= locate(src@, done));
    assert(chain(done, lex_from(src@, 0)) == lex(src@)) by {
        match lex_from(src@, 0) {
            Ok(rest) => {
                assert(done + rest =~= rest);
            },
            Err(e) => {},
        }
    }
    loop
        invariant
            lexer.wf(),
            lexer.chars@ == src@,
            tokens_view(out@) == locate(src@, done),
            chain(done, lex_from(src@, lexer.pos as int)) == lex(src@),
        decreases src@.len() - lexer.pos,
    {
        let ghost from = lexer.pos as int;
        match lexer.next() {
            None => {
                proof {
                    assert(lex_from(src@, from) == Ok::<Seq<Lexeme>, int>(Seq::empty()));
                    assert(done + Seq::<Lexeme>::empty() =~= done);
                }
                return Ok(out);
            },
            Some(Err(e)) => {
                proof {
                    let start = trivia_end(src@, from, false);
                    assert(token_at(src@, start) is None);
                    assert(lex_from(src@, from) == Err::<Seq<Lexeme>, int>(start));
                }
                return Err(e);
            },
            Some(Ok(found)) => {
                proof {
                    let start = trivia_end(src@, from, false);
                    let scanned = token_at(src@, start)->0;
                    let lexeme = Lexeme { start, token: scanned.0, end: scanned.1 };
                    let rest = lex_from(src@, scanned.1);
                    assert(lex_from(src@, from) == chain(seq![lexeme], rest));
                    match rest {
                        Ok(more) => {
                            assert(done + (seq![lexeme] + more) =~= done.push(lexeme) + more);
                        },
                        Err(e) => {},
                    }
                    assert(locate(src@, done.push(lexeme)) =~= locate(src@, done).push(
                        Located {
                            start: point_at(src@, start),
                            token: scanned.0,
                            end: point_at(src@, scanned.1),
                        },
                    ));
                    done = done.push(lexeme);
                }
                let ghost before = tokens_view(out@);
                let ghost seen = Located { start: found.0, token: found.1@, end: found.2 };
                out.push(found);
                assert(tokens_view(out@) =~= before.push(seen));
            },
        }
    }
}

impl Point {
    /// The point as it is shown: the line, a colon and the column.
    pub open spec fn shown(self) -> Seq<char> {
        decimal(self.0 as nat) + seq![':'] + decimal(self.1 as nat)
    }

    /// The point as it is shown.
    pub fn to_string(&self) -> (s: String)
        ensures
            s@ == self.shown(),
    {
        let mut out: Vec<char> = Vec::new();
        push_decimal(&mut out, self.0);
        out.push(':');
        push_decimal(&mut out, self.1);
        assert(out@ =~= self.shown());
        string_of(&out)
    }
}

} // verus!
