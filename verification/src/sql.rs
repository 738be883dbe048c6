//! Statements for the database: their text and the values bound to them.

use vstd::prelude::*;

use crate::text::opt_text;

verus! {

/// A value bound to a statement.
#[derive(Debug)]
pub enum Param {
    Int(i64),
    Text(String),
    Null,
}

/// A value bound to a statement, in terms of texts.
pub ghost enum ParamView {
    Int(i64),
    Text(Seq<char>),
    Null,
}

impl View for Param {
    type V = ParamView;

    open spec fn view(&self) -> ParamView {
        match *self {
            Param::Int(i) => ParamView::Int(i),
            Param::Text(s) => ParamView::Text(s@),
            Param::Null => ParamView::Null,
        }
    }
}

/// A statement and its values, in order.
#[derive(Debug)]
pub struct Statement {
    pub sql: String,
    pub params: Vec<Param>,
}

/// A statement and its values, in terms of texts.
#[verifier::ext_equal]
pub struct StatementView {
    pub sql: Seq<char>,
    pub params: Seq<ParamView>,
}

/// The contents of a list of values.
pub open spec fn param_views(v: Seq<Param>) -> Seq<ParamView> {
    v.map_values(|p: Param| p@)
}

impl View for Statement {
    type V = StatementView;

    open spec fn view(&self) -> StatementView {
        StatementView { sql: self.sql@, params: param_views(self.params@) }
    }
}

/// The contents of a list of statements.
pub open spec fn statement_views(v: Seq<Statement>) -> Seq<StatementView> {
    v.map_values(|s: Statement| s@)
}

/// A statement with its values.
pub open spec fn statement(sql: Seq<char>, params: Seq<ParamView>) -> StatementView {
    StatementView { sql, params }
}

/// The value for a text that may be missing.
pub open spec fn text_or_null(t: Option<Seq<char>>) -> ParamView {
    match t {
        Some(s) => ParamView::Text(s),
        None => ParamView::Null,
    }
}

/// The value for a truth value.
pub open spec fn truth(b: bool) -> ParamView {
    ParamView::Int(
        if b {
            1
        } else {
            0
        },
    )
}

impl Statement {
    /// A statement without values.
    pub fn new(sql: &str) -> (r: Statement)
        ensures
            r@ == statement(sql@, Seq::<ParamView>::empty()),
    {
        let r = Statement { sql: sql.to_owned(), params: Vec::new() };
        assert(r@ =~= statement(sql@, Seq::<ParamView>::empty()));
        r
    }

    /// The statement with one more value.
    pub fn bind(self, p: Param) -> (r: Statement)
        ensures
            r@ == statement(self@.sql, self@.params.push(p@)),
    {
        let mut params = self.params;
        params.push(p);
        let r = Statement { sql: self.sql, params };
        assert(r@ =~= statement(self@.sql, self@.params.push(p@)));
        r
    }

    /// The statement with one more number.
    pub fn number(self, i: i64) -> (r: Statement)
        ensures
            r@ == statement(self@.sql, self@.params.push(ParamView::Int(i))),
    {
        self.bind(Param::Int(i))
    }

    /// The statement with one more truth value, as 1 or 0.
    pub fn flag(self, b: bool) -> (r: Statement)
        ensures
            r@ == statement(self@.sql, self@.params.push(truth(b))),
    {
        if b {
            self.bind(Param::Int(1))
        } else {
            self.bind(Param::Int(0))
        }
    }

    /// The statement with one more text.
    pub fn text(self, s: &str) -> (r: Statement)
        ensures
            r@ == statement(self@.sql, self@.params.push(ParamView::Text(s@))),
    {
        self.bind(Param::Text(s.to_owned()))
    }

    /// The statement with one more text, or nothing in its place.
    pub fn maybe_text(self, s: &Option<String>) -> (r: Statement)
        ensures
            r@ == statement(self@.sql, self@.params.push(text_or_null(opt_text(*s)))),
    {
        match s {
            Some(t) => self.bind(Param::Text(t.clone())),
            None => self.bind(Param::Null),
        }
    }
}

/// A truth value is stored as the number one or zero, and a text that is missing as nothing.
pub proof fn law_values_are_stored(b: bool, t: Seq<char>)
    ensures
        truth(b) == ParamView::Int(1) <==> b,
        truth(b) == ParamView::Int(0) <==> !b,
        text_or_null(Some(t)) == ParamView::Text(t),
        text_or_null(None) == ParamView::Null,
{
}

/// The text of a statement that reads from a table what has a value in a column.
pub open spec fn selection(what: Seq<char>, table: Seq<char>, column: Seq<char>) -> Seq<char> {
    "SELECT "@ + what + " FROM "@ + table + " WHERE "@ + column + "=?"@
}

/// A statement is seen as its text and its values, each value and each statement at its position.
pub proof fn law_statements_are_seen(s: Statement, v: Seq<Statement>, i: int)
    ensures
        s@.sql == s.sql@,
        s@.params.len() == s.params@.len(),
        0 <= i < s.params@.len() ==> match s.params@[i] {
            Param::Int(n) => s@.params[i] == ParamView::Int(n),
            Param::Text(t) => s@.params[i] == ParamView::Text(t@),
            Param::Null => s@.params[i] == ParamView::Null,
        },
        statement_views(v).len() == v.len(),
        0 <= i < v.len() ==> statement_views(v)[i] == v[i]@,
{
}

} // verus!
