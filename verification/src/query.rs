//! G1's query language, which is a Datalog variant: queries as they are written,
//! with names in place of indices and without source positions.

use crate::lexer::{is_letter, is_name_part};
use crate::text::{push_chars, push_str, string_of};
use vstd::prelude::*;

verus! {

/// A data value.
#[derive(Clone, Debug, PartialEq, Eq, Hash)]
pub enum Value {
    /// A hole.
    Hole,
    /// A metavariable.
    MetaVar(String),
    /// A string.
    Str(String),
    /// A variable.
    Var(String),
}

/// What a `Value` stands for.
pub enum ValueSpec {
    Hole,
    MetaVar(Seq<char>),
    Str(Seq<char>),
    Var(Seq<char>),
}

impl View for Value {
    type V = ValueSpec;

    open spec fn view(&self) -> ValueSpec {
        match self {
            Value::Hole => ValueSpec::Hole,
            Value::MetaVar(s) => ValueSpec::MetaVar(s@),
            Value::Str(s) => ValueSpec::Str(s@),
            Value::Var(s) => ValueSpec::Var(s@),
        }
    }
}

/// A call to a rule.
#[derive(Clone, Debug, PartialEq, Eq, Hash)]
pub struct Predicate {
    /// The name of the predicate.
    pub name: String,
    /// The arguments to the predicate.
    pub args: Vec<Value>,
}

/// What a `Predicate` stands for.
pub struct PredicateSpec {
    pub name: Seq<char>,
    pub args: Seq<ValueSpec>,
}

/// The values of a list, each as what it stands for.
pub open spec fn values_view(args: Seq<Value>) -> Seq<ValueSpec> {
    args.map_values(|v: Value| v@)
}

impl View for Predicate {
    type V = PredicateSpec;

    open spec fn view(&self) -> PredicateSpec {
        PredicateSpec { name: self.name@, args: values_view(self.args@) }
    }
}

/// A single clause, used for deduction.
#[derive(Clone, Debug, PartialEq, Eq, Hash)]
pub struct Clause {
    /// The head of the clause.
    pub head: Predicate,
    /// The body of the clause.
    ///
    /// The boolean corresponds to whether the predicate is negated; it is negated when the boolean
    /// is `true`.
    pub body: Vec<(bool, Predicate)>,
}

/// What a `Clause` stands for.
pub struct ClauseSpec {
    pub head: PredicateSpec,
    pub body: Seq<(bool, PredicateSpec)>,
}

/// The literals of a body, each as what it stands for.
pub open spec fn body_view(body: Seq<(bool, Predicate)>) -> Seq<(bool, PredicateSpec)> {
    body.map_values(|l: (bool, Predicate)| (l.0, l.1@))
}

impl View for Clause {
    type V = ClauseSpec;

    open spec fn view(&self) -> ClauseSpec {
        ClauseSpec { head: self.head@, body: body_view(self.body@) }
    }
}

/// A complete query to the database.
#[derive(Clone, Debug, PartialEq, Eq, Hash)]
pub struct Query {
    /// The clauses to be used by the query.
    pub clauses: Vec<Clause>,
    /// The predicate to solve for.
    pub goal: Predicate,
}

/// What a `Query` stands for.
pub struct QuerySpec {
    pub clauses: Seq<ClauseSpec>,
    pub goal: PredicateSpec,
}

/// The clauses of a list, each as what it stands for.
pub open spec fn clauses_view(clauses: Seq<Clause>) -> Seq<ClauseSpec> {
    clauses.map_values(|c: Clause| c@)
}

impl View for Query {
    type V = QuerySpec;

    open spec fn view(&self) -> QuerySpec {
        QuerySpec { clauses: clauses_view(self.clauses@), goal: self.goal@ }
    }
}

/// A character as it is written between quotes: a tab, a carriage return, a line
/// feed, a backslash and either quote behind a backslash, any other as itself.
pub open spec fn escape_char(c: char) -> Seq<char> {
    if c == '\t' {
        seq!['\\', 't']
    } else if c == '\r' {
        seq!['\\', 'r']
    } else if c == '\n' {
        seq!['\\', 'n']
    } else if c == '\\' || c == '"' || c == '\'' {
        seq!['\\', c]
    } else {
        seq![c]
    }
}

/// A text as it is written between quotes.
pub open spec fn escape(s: Seq<char>) -> Seq<char>
    decreases s.len(),
{
    if s.len() == 0 {
        Seq::empty()
    } else {
        escape(s.drop_last()) + escape_char(s.last())
    }
}

/// Whether every character of the text may stand in a bare name behind the first.
pub open spec fn all_name_parts(s: Seq<char>) -> bool {
    forall|i: int| 0 <= i < s.len() ==> is_name_part(#[trigger] s[i])
}

/// Whether a name can be written without quotes: it starts with a letter and
/// goes on with letters, digits, `_` and `-`.
pub open spec fn is_bare(s: Seq<char>) -> bool {
    s.len() > 0 && is_letter(s[0]) && all_name_parts(s)
}

/// A name as it is written: bare where it can be, else between single quotes.
pub open spec fn show_name(s: Seq<char>) -> Seq<char> {
    if is_bare(s) {
        s
    } else {
        seq!['\''] + escape(s) + seq!['\'']
    }
}

/// A value as it is written.
pub open spec fn show_value(v: ValueSpec) -> Seq<char> {
    match v {
        ValueSpec::Hole => seq!['_'],
        ValueSpec::MetaVar(s) => seq!['$'] + s,
        ValueSpec::Str(s) => seq!['"'] + escape(s) + seq!['"'],
        ValueSpec::Var(s) => show_name(s),
    }
}

/// The values of a list as they are written, with `, ` between them.
pub open spec fn show_values(args: Seq<ValueSpec>) -> Seq<char>
    decreases args.len(),
{
    if args.len() == 0 {
        Seq::empty()
    } else if args.len() == 1 {
        show_value(args[0])
    } else {
        show_values(args.drop_last()) + seq![',', ' '] + show_value(args.last())
    }
}

/// A call as it is written.
pub open spec fn show_predicate(p: PredicateSpec) -> Seq<char> {
    show_name(p.name) + seq!['('] + show_values(p.args) + seq![')']
}

/// A literal as it is written: a `!` before the call where it is negated.
pub open spec fn show_literal(l: (bool, PredicateSpec)) -> Seq<char> {
    if l.0 {
        seq!['!'] + show_predicate(l.1)
    } else {
        show_predicate(l.1)
    }
}

/// The literals of a body as they are written: each on a line of its own behind
/// four blanks, with a comma behind every one but the last.
pub open spec fn show_body(body: Seq<(bool, PredicateSpec)>) -> Seq<char>
    decreases body.len(),
{
    if body.len() == 0 {
        Seq::empty()
    } else if body.len() == 1 {
        seq![' ', ' ', ' ', ' '] + show_literal(body[0])
    } else {
        show_body(body.drop_last()) + seq![',', '\n', ' ', ' ', ' ', ' '] + show_literal(body.last())
    }
}

/// A clause as it is written.
pub open spec fn show_clause(c: ClauseSpec) -> Seq<char> {
    if c.body.len() == 0 {
        show_predicate(c.head) + seq!['.']
    } else {
        show_predicate(c.head) + seq![' ', ':', '-', '\n'] + show_body(c.body) + seq!['.']
    }
}

/// The clauses of a list as they are written, each with a line feed behind it.
pub open spec fn show_clauses(clauses: Seq<ClauseSpec>) -> Seq<char>
    decreases clauses.len(),
{
    if clauses.len() == 0 {
        Seq::empty()
    } else {
        show_clauses(clauses.drop_last()) + show_clause(clauses.last()) + seq!['\n']
    }
}

/// A query as it is written: its clauses, then the goal behind `?- `.
pub open spec fn show_query(q: QuerySpec) -> Seq<char> {
    show_clauses(q.clauses) + seq!['?', '-', ' '] + show_predicate(q.goal) + seq!['.']
}

/// Appends a text as it is written between quotes.
pub(crate) fn push_escaped(out: &mut Vec<char>, s: &Vec<char>)
    ensures
        final(out)@ == old(out)@ + escape(s@),
{
    let mut i: usize = 0;
    assert(s@.subrange(0, 0) =~= Seq::empty());
    while i < s.len()
        invariant
            i <= s.len(),
            out@ == old(out)@ + escape(s@.subrange(0, i as int)),
        decreases s.len() - i,
    {
        let c = s[i];
        let ghost before = out@;
        if c == '\t' {
            out.push('\\');
            out.push('t');
        } else if c == '\r' {
            out.push('\\');
            out.push('r');
        } else if c == '\n' {
            out.push('\\');
            out.push('n');
        } else if c == '\\' || c == '"' || c == '\'' {
            out.push('\\');
            out.push(c);
        } else {
            out.push(c);
        }
        proof {
            assert(out@ =~= before + escape_char(c));
            assert(s@.subrange(0, i + 1).drop_last() =~= s@.subrange(0, i as int));
            assert(out@ =~= old(out)@ + escape(s@.subrange(0, i + 1)));
        }
        i += 1;
    }
    assert(s@.subrange(0, s.len() as int) =~= s@);
}

/// Whether a name can be written without quotes.
fn bare(s: &Vec<char>) -> (r: bool)
    ensures
        r == is_bare(s@),
{
    if s.len() == 0 {
        return false;
    }
    let c = s[0];
    if !(('a' <= c && c <= 'z') || ('A' <= c && c <= 'Z')) {
        return false;
    }
    let mut i: usize = 0;
    while i < s.len()
        invariant
            i <= s.len(),
            forall|k: int| 0 <= k < i ==> is_name_part(#[trigger] s@[k]),
        decreases s.len() - i,
    {
        let d = s[i];
        if !(('a' <= d && d <= 'z') || ('A' <= d && d <= 'Z') || ('0' <= d && d <= '9') || d == '_'
            || d == '-') {
            return false;
        }
        i += 1;
    }
    true
}

/// Appends a name as it is written.
fn fmt_var(out: &mut Vec<char>, name: &String)
    ensures
        final(out)@ == old(out)@ + show_name(name@),
{
    let chars = crate::text::chars_of(name.as_str());
    if bare(&chars) {
        push_chars(out, &chars);
    } else {
        let ghost before = out@;
        out.push('\'');
        push_escaped(out, &chars);
        out.push('\'');
        assert(out@ =~= before + show_name(name@));
    }
}

impl Value {
    /// Appends the value as it is written.
    fn write(&self, out: &mut Vec<char>)
        ensures
            final(out)@ == old(out)@ + show_value(self@),
    {
        let ghost before = out@;
        match self {
            Value::Hole => {
                out.push('_');
                assert(out@ =~= before + show_value(self@));
            },
            Value::MetaVar(s) => {
                out.push('$');
                push_str(out, s.as_str());
                assert(out@ =~= before + show_value(self@));
            },
            Value::Str(s) => {
                let chars = crate::text::chars_of(s.as_str());
                out.push('"');
                push_escaped(out, &chars);
                out.push('"');
                assert(out@ =~= before + show_value(self@));
            },
            Value::Var(s) => {
                fmt_var(out, s);
            },
        }
    }

    /// The value as it is written.
    pub fn to_string(&self) -> (s: String)
        ensures
            s@ == show_value(self@),
    {
        let mut out: Vec<char> = Vec::new();
        self.write(&mut out);
        assert(out@ =~= show_value(self@));
        string_of(&out)
    }
}

impl Predicate {
    /// Appends the call as it is written.
    fn write(&self, out: &mut Vec<char>)
        ensures
            final(out)@ == old(out)@ + show_predicate(self@),
    {
        let ghost before = out@;
        let ghost args = values_view(self.args@);
        fmt_var(out, &self.name);
        out.push('(');
        let ghost start = out@;
        let mut i: usize = 0;
        assert(args.subrange(0, 0) =~= Seq::empty());
        assert(out@ =~= start + show_values(args.subrange(0, 0)));
        while i < self.args.len()
            invariant
                i <= self.args.len(),
                args == values_view(self.args@),
                out@ == start + show_values(args.subrange(0, i as int)),
            decreases self.args.len() - i,
        {
            let ghost mid = out@;
            if i > 0 {
                out.push(',');
                out.push(' ');
            }
            self.args[i].write(out);
            proof {
                let upto = args.subrange(0, i + 1);
                assert(upto.drop_last() =~= args.subrange(0, i as int));
                assert(upto.last() == self.args@[i as int]@);
                if i == 0 {
                    assert(upto[0] == self.args@[0]@);
                    assert(out@ =~= start + show_values(upto));
                } else {
                    assert(out@ =~= mid + seq![',', ' '] + show_value(upto.last()));
                    assert(out@ =~= start + show_values(upto));
                }
            }
            i += 1;
        }
        assert(args.subrange(0, self.args.len() as int) =~= args);
        out.push(')');
        assert(out@ =~= before + show_predicate(self@));
    }

    /// The call as it is written.
    pub fn to_string(&self) -> (s: String)
        ensures
            s@ == show_predicate(self@),
    {
        let mut out: Vec<char> = Vec::new();
        self.write(&mut out);
        assert(out@ =~= show_predicate(self@));
        string_of(&out)
    }
}

impl Clause {
    /// Appends the clause as it is written.
    fn write(&self, out: &mut Vec<char>)
        ensures
            final(out)@ == old(out)@ + show_clause(self@),
    {
        let ghost before = out@;
        let ghost body = body_view(self.body@);
        self.head.write(out);
        if self.body.len() == 0 {
            out.push('.');
            assert(out@ =~= before + show_clause(self@));
            return ;
        }
        out.push(' ');
        out.push(':');
        out.push('-');
        out.push('\n');
        let ghost start = out@;
        let mut i: usize = 0;
        assert(body.subrange(0, 0) =~= Seq::empty());
        assert(out@ =~= start + show_body(body.subrange(0, 0)));
        while i < self.body.len()
            invariant
                i <= self.body.len(),
                body == body_view(self.body@),
                out@ == start + show_body(body.subrange(0, i as int)),
            decreases self.body.len() - i,
        {
            let ghost mid = out@;
            if i > 0 {
                out.push(',');
                out.push('\n');
            }
            out.push(' ');
            out.push(' ');
            out.push(' ');
            out.push(' ');
            if self.body[i].0 {
                out.push('!');
            }
            self.body[i].1.write(out);
            proof {
                let upto = body.subrange(0, i + 1);
                assert(upto.drop_last() =~= body.subrange(0, i as int));
                assert(upto.last() == (self.body@[i as int].0, self.body@[i as int].1@));
                if i == 0 {
                    assert(upto[0] == upto.last());
                    assert(out@ =~= mid + seq![' ', ' ', ' ', ' '] + show_literal(upto.last()));
                    assert(out@ =~= start + show_body(upto));
                } else {
                    assert(out@ =~= mid + seq![',', '\n', ' ', ' ', ' ', ' '] + show_literal(
                        upto.last(),
                    ));
                    assert(out@ =~= start + show_body(upto));
                }
            }
            i += 1;
        }
        assert(body.subrange(0, self.body.len() as int) =~= body);
        out.push('.');
        assert(out@ =~= before + show_clause(self@));
    }

    /// The clause as it is written.
    pub fn to_string(&self) -> (s: String)
        ensures
            s@ == show_clause(self@),
    {
        let mut out: Vec<char> = Vec::new();
        self.write(&mut out);
        assert(out@ =~= show_clause(self@));
        string_of(&out)
    }
}

impl Query {
    /// The query as it is written.
    pub fn to_string(&self) -> (s: String)
        ensures
            s@ == show_query(self@),
    {
        let ghost clauses = clauses_view(self.clauses@);
        let mut out: Vec<char> = Vec::new();
        let mut i: usize = 0;
        assert(clauses.subrange(0, 0) =~= Seq::empty());
        assert(out@ =~= show_clauses(clauses.subrange(0, 0)));
        while i < self.clauses.len()
            invariant
                i <= self.clauses.len(),
                clauses == clauses_view(self.clauses@),
                out@ == show_clauses(clauses.subrange(0, i as int)),
            decreases self.clauses.len() - i,
        {
            self.clauses[i].write(&mut out);
            out.push('\n');
            proof {
                let upto = clauses.subrange(0, i + 1);
                assert(upto.drop_last() =~= clauses.subrange(0, i as int));
                assert(upto.last() == self.clauses@[i as int]@);
                assert(out@ =~= show_clauses(upto));
            }
            i += 1;
        }
        assert(clauses.subrange(0, self.clauses.len() as int) =~= clauses);
        out.push('?');
        out.push('-');
        out.push(' ');
        self.goal.write(&mut out);
        out.push('.');
        assert(out@ =~= show_query(self@));
        string_of(&out)
    }
}

/// The query that a text is, without the places in the source, or the reason why
/// it is none.
pub open spec fn read(src: Seq<char>) -> Result<QuerySpec, crate::lang::ParseError> {
    match crate::lang::parse(src) {
        Ok(q) => Ok(crate::lang::strip_query(q)),
        Err(e) => Err(e),
    }
}

impl Query {
    /// Reads a query.
    pub fn from_str(src: &str) -> (r: Result<Query, crate::lang::ParseError>)
        ensures
            match read(src@) {
                Ok(q) => r is Ok && r->Ok_0@ == q,
                Err(e) => r == Err::<Query, crate::lang::ParseError>(e),
            },
    {
        match crate::lang::Query::from_str(src) {
            Ok(q) => Ok(q.strip()),
            Err(e) => Err(e),
        }
    }
}

/// A value with the metavariable `name` replaced by the string `with`.
pub open spec fn bind_value(v: ValueSpec, name: Seq<char>, with: Seq<char>) -> ValueSpec {
    match v {
        ValueSpec::MetaVar(m) => if m == name {
            ValueSpec::Str(with)
        } else {
            v
        },
        _ => v,
    }
}

/// A call with the metavariable `name` replaced by the string `with`.
pub open spec fn bind_predicate(p: PredicateSpec, name: Seq<char>, with: Seq<char>) -> PredicateSpec {
    PredicateSpec { name: p.name, args: p.args.map_values(|v: ValueSpec| bind_value(v, name, with)) }
}

/// A clause with the metavariable `name` replaced by the string `with`.
pub open spec fn bind_clause(c: ClauseSpec, name: Seq<char>, with: Seq<char>) -> ClauseSpec {
    ClauseSpec {
        head: bind_predicate(c.head, name, with),
        body: c.body.map_values(|l: (bool, PredicateSpec)| (l.0, bind_predicate(l.1, name, with))),
    }
}

/// A query with the metavariable `name` replaced by the string `with`.
pub open spec fn bind_query(q: QuerySpec, name: Seq<char>, with: Seq<char>) -> QuerySpec {
    QuerySpec {
        clauses: q.clauses.map_values(|c: ClauseSpec| bind_clause(c, name, with)),
        goal: bind_predicate(q.goal, name, with),
    }
}

impl Value {
    /// The value with the metavariable `name` replaced by the string `with`.
    pub fn bind(&self, name: &str, with: &str) -> (r: Value)
        ensures
            r@ == bind_value(self@, name@, with@),
    {
        match self {
            Value::Hole => Value::Hole,
            Value::MetaVar(m) => {
                if *m == name.to_owned() {
                    Value::Str(with.to_owned())
                } else {
                    Value::MetaVar(m.clone())
                }
            },
            Value::Str(s) => Value::Str(s.clone()),
            Value::Var(s) => Value::Var(s.clone()),
        }
    }
}

impl Predicate {
    /// The call with the metavariable `name` replaced by the string `with`.
    pub fn bind(&self, name: &str, with: &str) -> (r: Predicate)
        ensures
            r@ == bind_predicate(self@, name@, with@),
    {
        let mut args: Vec<Value> = Vec::new();
        let mut i: usize = 0;
        while i < self.args.len()
            invariant
                i <= self.args.len(),
                args.len() == i,
                forall|k: int| 0 <= k < i ==> args@[k]@ == bind_value(self.args@[k]@, name@, with@),
            decreases self.args.len() - i,
        {
            args.push(self.args[i].bind(name, with));
            i += 1;
        }
        let r = Predicate { name: self.name.clone(), args };
        assert(r@.args =~= bind_predicate(self@, name@, with@).args);
        r
    }
}

impl Clause {
    /// The clause with the metavariable `name` replaced by the string `with`.
    pub fn bind(&self, name: &str, with: &str) -> (r: Clause)
        ensures
            r@ == bind_clause(self@, name@, with@),
    {
        let mut body: Vec<(bool, Predicate)> = Vec::new();
        let mut i: usize = 0;
        while i < self.body.len()
            invariant
                i <= self.body.len(),
                body.len() == i,
                forall|k: int|
                    0 <= k < i ==> body@[k].0 == self.body@[k].0 && body@[k].1@ == bind_predicate(
                        self.body@[k].1@,
                        name@,
                        with@,
                    ),
            decreases self.body.len() - i,
        {
            body.push((self.body[i].0, self.body[i].1.bind(name, with)));
            i += 1;
        }
        let r = Clause { head: self.head.bind(name, with), body };
        assert(r@.body =~= bind_clause(self@, name@, with@).body);
        r
    }
}

impl Query {
    /// The query with the metavariable `name` replaced by the string `with`: what
    /// the embedding of a query does with each of its metavariables before the
    /// query is lowered.
    pub fn bind(&self, name: &str, with: &str) -> (r: Query)
        ensures
            r@ == bind_query(self@, name@, with@),
    {
        let mut clauses: Vec<Clause> = Vec::new();
        let mut i: usize = 0;
        while i < self.clauses.len()
            invariant
                i <= self.clauses.len(),
                clauses.len() == i,
                forall|k: int|
                    0 <= k < i ==> clauses@[k]@ == bind_clause(self.clauses@[k]@, name@, with@),
            decreases self.clauses.len() - i,
        {
            clauses.push(self.clauses[i].bind(name, with));
            i += 1;
        }
        let r = Query { clauses, goal: self.goal.bind(name, with) };
        assert(r@.clauses =~= bind_query(self@, name@, with@).clauses);
        r
    }
}

} // verus!
