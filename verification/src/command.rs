//! A command entered at the REPL.
//!
//! A line is a clause, a goal behind `?-`, or a period, the name of a command
//! and what the command takes, each a string or a name:
//!
//! ```text
//! .help
//! .quit
//! .list
//! .undefine <NAME> <ARGN>
//! .create_atom
//! .delete_atom <ATOM>
//! .create_name <ATOM> <NS> <TITLE>
//! .upsert_name <ATOM> <NS> <TITLE>
//! .delete_name <NS> <TITLE>
//! .create_edge <FROM> <TO> <LABEL>
//! .delete_edge <FROM> <TO> <LABEL>
//! .create_tag <ATOM> <KEY> <VALUE>
//! .upsert_tag <ATOM> <KEY> <VALUE>
//! .delete_tag <ATOM> <KEY>
//! .create_blob <ATOM> <KIND> <MIME> <HASH>
//! .upsert_blob <ATOM> <KIND> <MIME> <HASH>
//! .delete_blob <ATOM> <KIND> <MIME>
//! ```

use crate::lang::{
    clause_at, from_lex_error, is_at, lex_error, parse_clause_tokens, parse_predicate,
    predicate_at, punct_at, strip_clause, strip_predicate, unexpected, unexpected_at, Expected,
    ParseError, Punct,
};
use crate::lexer::{scan, tokenize, tokens_view, Located, Point, Token, TokenSpec};
use crate::query::{Clause, ClauseSpec, Predicate, PredicateSpec};
use crate::text::chars_of;
use vstd::prelude::*;

verus! {

/// A command entered at the REPL.
#[derive(Clone, Debug, PartialEq, Eq)]
pub enum Command {
    /// Adds a clause to a predicate, possibly defining it.
    Clause(Clause),
    /// Creates a new atom in the database, printing it.
    CreateAtom,
    /// Deletes any names referring to an atom, all edges going to or from it, any tags attached
    /// to it, and any blobs attached to it.
    DeleteAtom(String),
    /// Creates a new name for an atom; the boolean says whether an existing name is replaced.
    CreateName(String, String, String, bool),
    /// Deletes a name.
    DeleteName(String, String),
    /// Creates a new edge between two atoms.
    CreateEdge(String, String, String),
    /// Deletes the edge with the given endpoints and label.
    DeleteEdge(String, String, String),
    /// Creates a tag attached to an atom with the given key and value; the boolean says
    /// whether an existing tag is replaced.
    CreateTag(String, String, String, bool),
    /// Deletes the tag with the given key from the given atom.
    DeleteTag(String, String),
    /// Creates a blob attached to an atom with the given kind, MIME type, and hash; the
    /// boolean says whether an existing blob is replaced.
    CreateBlob(String, String, String, String, bool),
    /// Deletes the blob with the given kind and MIME type from the given atom.
    DeleteBlob(String, String, String),
    /// Asks for help.
    Help,
    /// Lists the existing predicates.
    List,
    /// Performs a query.
    Query(Predicate),
    /// Quits the REPL.
    Quit,
    /// Undefines defined predicates with the given functor.
    Undefine(String, u32),
}

/// What a `Command` stands for.
pub enum CommandSpec {
    Clause(ClauseSpec),
    CreateAtom,
    DeleteAtom(Seq<char>),
    CreateName(Seq<char>, Seq<char>, Seq<char>, bool),
    DeleteName(Seq<char>, Seq<char>),
    CreateEdge(Seq<char>, Seq<char>, Seq<char>),
    DeleteEdge(Seq<char>, Seq<char>, Seq<char>),
    CreateTag(Seq<char>, Seq<char>, Seq<char>, bool),
    DeleteTag(Seq<char>, Seq<char>),
    CreateBlob(Seq<char>, Seq<char>, Seq<char>, Seq<char>, bool),
    DeleteBlob(Seq<char>, Seq<char>, Seq<char>),
    Help,
    List,
    Query(PredicateSpec),
    Quit,
    Undefine(Seq<char>, u32),
}

impl View for Command {
    type V = CommandSpec;

    open spec fn view(&self) -> CommandSpec {
        match self {
            Command::Clause(c) => CommandSpec::Clause(c@),
            Command::CreateAtom => CommandSpec::CreateAtom,
            Command::DeleteAtom(a) => CommandSpec::DeleteAtom(a@),
            Command::CreateName(a, b, c, u) => CommandSpec::CreateName(a@, b@, c@, *u),
            Command::DeleteName(a, b) => CommandSpec::DeleteName(a@, b@),
            Command::CreateEdge(a, b, c) => CommandSpec::CreateEdge(a@, b@, c@),
            Command::DeleteEdge(a, b, c) => CommandSpec::DeleteEdge(a@, b@, c@),
            Command::CreateTag(a, b, c, u) => CommandSpec::CreateTag(a@, b@, c@, *u),
            Command::DeleteTag(a, b) => CommandSpec::DeleteTag(a@, b@),
            Command::CreateBlob(a, b, c, d, u) => CommandSpec::CreateBlob(a@, b@, c@, d@, *u),
            Command::DeleteBlob(a, b, c) => CommandSpec::DeleteBlob(a@, b@, c@),
            Command::Help => CommandSpec::Help,
            Command::List => CommandSpec::List,
            Command::Query(p) => CommandSpec::Query(p@),
            Command::Quit => CommandSpec::Quit,
            Command::Undefine(a, n) => CommandSpec::Undefine(a@, *n),
        }
    }
}

/// The text of a token that is a string or a name.
pub open spec fn text_of(t: TokenSpec) -> Option<Seq<char>> {
    match t {
        TokenSpec::String(s) => Some(s),
        TokenSpec::Var(s) => Some(s),
        _ => None,
    }
}

/// The number that decimal digits stand for, if it is below 2^32.
pub open spec fn number(s: Seq<char>) -> Option<nat>
    decreases s.len(),
{
    if s.len() == 0 {
        None
    } else if !('0' <= s.last() && s.last() <= '9') {
        None
    } else if s.len() == 1 {
        Some((s.last() as u32 - '0' as u32) as nat)
    } else {
        match number(s.drop_last()) {
            None => None,
            Some(n) => if n * 10 + (s.last() as u32 - '0' as u32) > u32::MAX {
                None
            } else {
                Some((n * 10 + (s.last() as u32 - '0' as u32)) as nat)
            },
        }
    }
}

/// How many strings or names a command takes, by its name.
pub open spec fn takes(name: Seq<char>) -> Option<nat> {
    if name == "help"@ || name == "quit"@ || name == "list"@ || name == "create_atom"@ {
        Some(0)
    } else if name == "delete_atom"@ {
        Some(1)
    } else if name == "undefine"@ || name == "delete_name"@ || name == "delete_tag"@ {
        Some(2)
    } else if name == "create_name"@ || name == "upsert_name"@ || name == "create_edge"@ || name
        == "delete_edge"@ || name == "create_tag"@ || name == "upsert_tag"@ || name
        == "delete_blob"@ {
        Some(3)
    } else if name == "create_blob"@ || name == "upsert_blob"@ {
        Some(4)
    } else {
        None
    }
}

/// The command with the given name and what it takes, if the name is that of a
/// command, it takes that many, and a number stands where one is asked for.
pub open spec fn named(name: Seq<char>, a: Seq<Seq<char>>) -> Option<CommandSpec> {
    if takes(name) != Some(a.len()) {
        None
    } else if name == "help"@ {
        Some(CommandSpec::Help)
    } else if name == "quit"@ {
        Some(CommandSpec::Quit)
    } else if name == "list"@ {
        Some(CommandSpec::List)
    } else if name == "create_atom"@ {
        Some(CommandSpec::CreateAtom)
    } else if name == "delete_atom"@ {
        Some(CommandSpec::DeleteAtom(a[0]))
    } else if name == "undefine"@ {
        match number(a[1]) {
            Some(n) => Some(CommandSpec::Undefine(a[0], n as u32)),
            None => None,
        }
    } else if name == "delete_name"@ {
        Some(CommandSpec::DeleteName(a[0], a[1]))
    } else if name == "delete_tag"@ {
        Some(CommandSpec::DeleteTag(a[0], a[1]))
    } else if name == "create_name"@ {
        Some(CommandSpec::CreateName(a[0], a[1], a[2], false))
    } else if name == "upsert_name"@ {
        Some(CommandSpec::CreateName(a[0], a[1], a[2], true))
    } else if name == "create_edge"@ {
        Some(CommandSpec::CreateEdge(a[0], a[1], a[2]))
    } else if name == "delete_edge"@ {
        Some(CommandSpec::DeleteEdge(a[0], a[1], a[2]))
    } else if name == "create_tag"@ {
        Some(CommandSpec::CreateTag(a[0], a[1], a[2], false))
    } else if name == "upsert_tag"@ {
        Some(CommandSpec::CreateTag(a[0], a[1], a[2], true))
    } else if name == "delete_blob"@ {
        Some(CommandSpec::DeleteBlob(a[0], a[1], a[2]))
    } else if name == "create_blob"@ {
        Some(CommandSpec::CreateBlob(a[0], a[1], a[2], a[3], false))
    } else {
        Some(CommandSpec::CreateBlob(a[0], a[1], a[2], a[3], true))
    }
}

/// The texts of the tokens from `i` on, behind the texts `acc`, or the error
/// for the first token that is neither a string nor a name.
pub open spec fn texts(ts: Seq<Located>, i: int, acc: Seq<Seq<char>>) -> Result<
    Seq<Seq<char>>,
    ParseError,
>
    decreases ts.len() - i,
{
    if i < 0 || i >= ts.len() {
        Ok(acc)
    } else {
        match text_of(ts[i].token) {
            None => Err(unexpected(ts, i, Expected::Text)),
            Some(t) => texts(ts, i + 1, acc.push(t)),
        }
    }
}

/// The command that the tokens behind a period are, or the reason why they are
/// none: the name is no name of a command, a token is no text, there are too few
/// or too many texts, or no number stands where one is asked for.
pub open spec fn parse_dotted(ts: Seq<Located>) -> Result<CommandSpec, ParseError> {
    if !(1 < ts.len() && ts[1].token is Var && takes(ts[1].token->Var_0) is Some) {
        Err(unexpected(ts, 1, Expected::Command))
    } else {
        let name = ts[1].token->Var_0;
        let count = takes(name)->0;
        match texts(ts, 2, Seq::empty()) {
            Err(e) => Err(e),
            Ok(a) => if a.len() < count {
                Err(unexpected(ts, ts.len() as int, Expected::Text))
            } else if a.len() > count {
                Err(unexpected(ts, 2 + count as int, Expected::End))
            } else {
                match named(name, a) {
                    Some(c) => Ok(c),
                    None => Err(unexpected(ts, 3, Expected::Number)),
                }
            },
        }
    }
}

/// The command that the tokens are.
pub open spec fn parse_command_tokens(ts: Seq<Located>) -> Result<CommandSpec, ParseError> {
    if is_at(ts, 0, TokenSpec::Period) {
        parse_dotted(ts)
    } else if is_at(ts, 0, TokenSpec::Query) {
        match parse_predicate(ts, 1, Expected::Name) {
            Err(e) => Err(e),
            Ok((goal, after)) => if !is_at(ts, after, TokenSpec::Period) {
                Err(unexpected(ts, after, Expected::Period))
            } else if after + 1 < ts.len() {
                Err(unexpected(ts, after + 1, Expected::End))
            } else {
                Ok(CommandSpec::Query(strip_predicate(goal)))
            },
        }
    } else {
        match parse_clause_tokens(ts) {
            Err(e) => Err(e),
            Ok(c) => Ok(CommandSpec::Clause(strip_clause(c))),
        }
    }
}

/// The command that a line is, or the reason why it is none.
pub open spec fn parse_command(src: Seq<char>) -> Result<CommandSpec, ParseError> {
    match scan(src) {
        Err(e) => Err(lex_error(e)),
        Ok(tokens) => parse_command_tokens(tokens),
    }
}

/// The number that decimal digits stand for, if it is below 2^32.
fn read_number(s: &String) -> (r: Option<u32>)
    ensures
        match r {
            Some(n) => number(s@) == Some(n as nat),
            None => number(s@) is None,
        },
{
    let chars = chars_of(s.as_str());
    if chars.len() == 0 {
        return None;
    }
    let mut n: u32 = 0;
    let mut i: usize = 0;
    while i < chars.len()
        invariant
            i <= chars.len(),
            chars@ == s@,
            chars.len() > 0,
            i > 0 ==> number(chars@.subrange(0, i as int)) == Some(n as nat),
            i == 0 ==> n == 0,
        decreases chars.len() - i,
    {
        let c = chars[i];
        let ghost upto = chars@.subrange(0, i + 1);
        proof {
            assert(upto.drop_last() =~= chars@.subrange(0, i as int));
            assert(upto.last() == c);
        }
        if !('0' <= c && c <= '9') {
            proof {
                lemma_number_none(chars@, i + 1);
            }
            return None;
        }
        let d: u32 = c as u32 - 48;
        if n > (u32::MAX - d) / 10 {
            proof {
                assert(n * 10 + d > u32::MAX) by (nonlinear_arith)
                    requires
                        n > (u32::MAX - d) / 10,
                        d < 10,
                ;
                lemma_number_none(chars@, i + 1);
            }
            return None;
        }
        assert(n * 10 + d <= u32::MAX) by (nonlinear_arith)
            requires
                n <= (u32::MAX - d) / 10,
                d < 10,
        ;
        n = n * 10 + d;
        i += 1;
    }
    assert(chars@.subrange(0, chars.len() as int) =~= chars@);
    Some(n)
}

/// Once the first `j` characters are no number, neither is the whole text.
proof fn lemma_number_none(s: Seq<char>, j: int)
    requires
        1 <= j <= s.len(),
        number(s.subrange(0, j)) is None,
    ensures
        number(s) is None,
    decreases s.len() - j,
{
    if j < s.len() {
        assert(s.subrange(0, j + 1).drop_last() =~= s.subrange(0, j));
        lemma_number_none(s, j + 1);
    } else {
        assert(s.subrange(0, j) =~= s);
    }
}

/// Whether a text is the given name.
fn is(name: &String, word: &str) -> (r: bool)
    ensures
        r == (name@ == word@),
{
    *name == word.to_owned()
}

/// How many strings or names a command takes, by its name.
fn takes_of(name: &String) -> (r: Option<usize>)
    ensures
        match r {
            Some(n) => takes(name@) == Some(n as nat),
            None => takes(name@) is None,
        },
{
    if is(name, "help") || is(name, "quit") || is(name, "list") || is(name, "create_atom") {
        Some(0)
    } else if is(name, "delete_atom") {
        Some(1)
    } else if is(name, "undefine") || is(name, "delete_name") || is(name, "delete_tag") {
        Some(2)
    } else if is(name, "create_name") || is(name, "upsert_name") || is(name, "create_edge") || is(
        name,
        "delete_edge",
    ) || is(name, "create_tag") || is(name, "upsert_tag") || is(name, "delete_blob") {
        Some(3)
    } else if is(name, "create_blob") || is(name, "upsert_blob") {
        Some(4)
    } else {
        None
    }
}

/// The command with the given name and what it takes.
fn name_command(name: &String, a: &Vec<String>) -> (r: Option<Command>)
    requires
        takes(name@) == Some(a.len() as nat),
    ensures
        match named(name@, crate::nameless::strings_view(a@)) {
            Some(c) => r is Some && r->0@ == c,
            None => r is None,
        },
{
    let ghost av = crate::nameless::strings_view(a@);
    assert(forall|k: int| 0 <= k < a.len() ==> av[k] == a@[k]@);
    if is(name, "help") {
        Some(Command::Help)
    } else if is(name, "quit") {
        Some(Command::Quit)
    } else if is(name, "list") {
        Some(Command::List)
    } else if is(name, "create_atom") {
        Some(Command::CreateAtom)
    } else if is(name, "delete_atom") {
        Some(Command::DeleteAtom(a[0].clone()))
    } else if is(name, "undefine") {
        match read_number(&a[1]) {
            Some(n) => Some(Command::Undefine(a[0].clone(), n)),
            None => None,
        }
    } else if is(name, "delete_name") {
        Some(Command::DeleteName(a[0].clone(), a[1].clone()))
    } else if is(name, "delete_tag") {
        Some(Command::DeleteTag(a[0].clone(), a[1].clone()))
    } else if is(name, "create_name") {
        Some(Command::CreateName(a[0].clone(), a[1].clone(), a[2].clone(), false))
    } else if is(name, "upsert_name") {
        Some(Command::CreateName(a[0].clone(), a[1].clone(), a[2].clone(), true))
    } else if is(name, "create_edge") {
        Some(Command::CreateEdge(a[0].clone(), a[1].clone(), a[2].clone()))
    } else if is(name, "delete_edge") {
        Some(Command::DeleteEdge(a[0].clone(), a[1].clone(), a[2].clone()))
    } else if is(name, "create_tag") {
        Some(Command::CreateTag(a[0].clone(), a[1].clone(), a[2].clone(), false))
    } else if is(name, "upsert_tag") {
        Some(Command::CreateTag(a[0].clone(), a[1].clone(), a[2].clone(), true))
    } else if is(name, "delete_blob") {
        Some(Command::DeleteBlob(a[0].clone(), a[1].clone(), a[2].clone()))
    } else if is(name, "create_blob") {
        Some(Command::CreateBlob(a[0].clone(), a[1].clone(), a[2].clone(), a[3].clone(), false))
    } else {
        Some(Command::CreateBlob(a[0].clone(), a[1].clone(), a[2].clone(), a[3].clone(), true))
    }
}

/// Once a token among the first `j` is no text, the texts of all are the same error.
proof fn lemma_texts_error(ts: Seq<Located>, i: int, acc: Seq<Seq<char>>)
    requires
        0 <= i < ts.len(),
        text_of(ts[i].token) is None,
    ensures
        texts(ts, i, acc) == Err::<Seq<Seq<char>>, ParseError>(unexpected(ts, i, Expected::Text)),
{
}

/// The command that the tokens behind a period are.
fn dotted(ts: &Vec<(Point, Token, Point)>) -> (r: Result<Command, ParseError>)
    ensures
        match parse_dotted(tokens_view(ts@)) {
            Ok(c) => r is Ok && r->Ok_0@ == c,
            Err(e) => r == Err::<Command, ParseError>(e),
        },
{
    let ghost tv = tokens_view(ts@);
    if ts.len() < 2 {
        return Err(unexpected_at(ts, 1, Expected::Command));
    }
    assert(tv[1].token == ts@[1].1@);
    let name: String = match &ts[1].1 {
        Token::Var(name) => name.clone(),
        _ => {
            return Err(unexpected_at(ts, 1, Expected::Command));
        },
    };
    let count = match takes_of(&name) {
        Some(count) => count,
        None => {
            return Err(unexpected_at(ts, 1, Expected::Command));
        },
    };
    let mut args: Vec<String> = Vec::new();
    let mut i: usize = 2;
    assert(crate::nameless::strings_view(args@) =~= Seq::empty());
    while i < ts.len()
        invariant
            2 <= i <= ts.len(),
            tv == tokens_view(ts@),
            tv[1].token == TokenSpec::Var(name@),
            takes(name@) == Some(count as nat),
            args.len() == i - 2,
            texts(tv, 2, Seq::empty()) == texts(tv, i as int, crate::nameless::strings_view(args@)),
        decreases ts.len() - i,
    {
        assert(tv[i as int].token == ts@[i as int].1@);
        let ghost before = crate::nameless::strings_view(args@);
        let text: String = match &ts[i].1 {
            Token::String(s) => s.clone(),
            Token::Var(s) => s.clone(),
            _ => {
                proof {
                    lemma_texts_error(tv, i as int, before);
                }
                return Err(unexpected_at(ts, i, Expected::Text));
            },
        };
        let ghost tx = text@;
        args.push(text);
        assert(crate::nameless::strings_view(args@) =~= before.push(tx));
        i += 1;
    }
    if args.len() < count {
        return Err(unexpected_at(ts, ts.len(), Expected::Text));
    }
    if args.len() > count {
        return Err(unexpected_at(ts, 2 + count, Expected::End));
    }
    match name_command(&name, &args) {
        Some(c) => Ok(c),
        None => Err(unexpected_at(ts, 3, Expected::Number)),
    }
}

impl Command {
    /// Reads a command.
    pub fn from_str(src: &str) -> (r: Result<Command, ParseError>)
        ensures
            match parse_command(src@) {
                Ok(c) => r is Ok && r->Ok_0@ == c,
                Err(e) => r == Err::<Command, ParseError>(e),
            },
    {
        let ts = match tokenize(src) {
            Ok(ts) => ts,
            Err(e) => {
                return Err(from_lex_error(e));
            },
        };
        if punct_at(&ts, 0, Punct::Period) {
            dotted(&ts)
        } else if punct_at(&ts, 0, Punct::Query) {
            let (goal, after) = match predicate_at(&ts, 1, Expected::Name) {
                Ok(found) => found,
                Err(e) => {
                    return Err(e);
                },
            };
            if !punct_at(&ts, after, Punct::Period) {
                return Err(unexpected_at(&ts, after, Expected::Period));
            }
            if after + 1 < ts.len() {
                return Err(unexpected_at(&ts, after + 1, Expected::End));
            }
            Ok(Command::Query(goal.strip()))
        } else {
            let (c, after) = match clause_at(&ts, 0, Expected::Name) {
                Ok(found) => found,
                Err(e) => {
                    return Err(e);
                },
            };
            if after < ts.len() {
                return Err(unexpected_at(&ts, after, Expected::End));
            }
            Ok(Command::Clause(c.strip()))
        }
    }
}

} // verus!
