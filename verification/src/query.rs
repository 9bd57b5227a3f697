//! Lowering: from a filter to what the store is asked.

use crate::event::{copy_strings, EventV};
use crate::filter::{filter_matches, filter_views, some_prefix, Filter, FilterV};
use crate::text::{chars_of, joined, decimal_text, u64_to_string};
use vstd::prelude::*;

verus! {

/// The number of events that a historical read returns where the filter
/// gives no limit.
pub const DEFAULT_LIMIT: u64 = 100;

/// The most events that a historical read returns.
pub const MAX_LIMIT: u64 = 500;

/// What of a filter reaches the store: kinds, author prefixes, time bounds
/// and the number of rows. Ids and tag selectors stay behind.
#[derive(Debug, PartialEq, Eq)]
pub struct Selection {
    pub kinds: Vec<u64>,
    pub authors: Vec<String>,
    pub since: Option<u64>,
    pub until: Option<u64>,
    pub limit: u64,
}

/// The mathematical value of a [`Selection`].
pub struct SelectionV {
    pub kinds: Seq<u64>,
    pub authors: Seq<Seq<char>>,
    pub since: Option<u64>,
    pub until: Option<u64>,
    pub limit: u64,
}

impl View for Selection {
    type V = SelectionV;

    open spec fn view(&self) -> SelectionV {
        SelectionV {
            kinds: self.kinds@,
            authors: self.authors.deep_view(),
            since: self.since,
            until: self.until,
            limit: self.limit,
        }
    }
}

/// The number of rows to read for a filter's limit.
pub open spec fn capped(limit: Option<u64>) -> u64 {
    match limit {
        Some(l) => if l < MAX_LIMIT {
            l
        } else {
            MAX_LIMIT
        },
        None => DEFAULT_LIMIT,
    }
}

/// The selection for a list of filters: that of the first filter, and the
/// open selection with the default limit where there is none.
pub open spec fn lowered(filters: Seq<FilterV>) -> SelectionV {
    if filters.len() == 0 {
        SelectionV {
            kinds: Seq::empty(),
            authors: Seq::empty(),
            since: None,
            until: None,
            limit: DEFAULT_LIMIT,
        }
    } else {
        SelectionV {
            kinds: filters[0].kinds,
            authors: filters[0].authors,
            since: filters[0].since,
            until: filters[0].until,
            limit: capped(filters[0].limit),
        }
    }
}

/// Whether a selection lets an event through, its limit aside.
pub open spec fn admits(s: SelectionV, e: EventV) -> bool {
    &&& s.kinds.len() == 0 || s.kinds.contains(e.kind)
    &&& s.authors.len() == 0 || some_prefix(s.authors, e.pubkey)
    &&& s.since matches Some(t) ==> e.created_at >= t
    &&& s.until matches Some(t) ==> e.created_at <= t
}

/// Lowering loses no event: what the first filter matches, its selection
/// lets through.
pub proof fn lemma_lowering_keeps_matches(filters: Seq<FilterV>, e: EventV)
    requires
        filters.len() > 0,
        filter_matches(filters[0], e),
    ensures
        admits(lowered(filters), e),
{
}

/// The selection never asks for more than the cap.
pub proof fn lemma_limit_capped(filters: Seq<FilterV>)
    ensures
        lowered(filters).limit <= MAX_LIMIT,
{
}

fn copy_kinds(kinds: &Vec<u64>) -> (r: Vec<u64>)
    ensures
        r@ == kinds@,
{
    let mut r: Vec<u64> = Vec::new();
    let mut j: usize = 0;
    while j < kinds.len()
        invariant
            j <= kinds.len(),
            r@ == kinds@.take(j as int),
        decreases kinds.len() - j,
    {
        r.push(kinds[j]);
        assert(r@ =~= kinds@.take(j + 1));
        j += 1;
    }
    assert(r@ =~= kinds@);
    r
}

/// Lowers a list of filters to what the store is asked.
pub fn lower(filters: &Vec<Filter>) -> (r: Selection)
    ensures
        r@ == lowered(filter_views(filters@)),
{
    if filters.len() == 0 {
        let r = Selection {
            kinds: Vec::new(),
            authors: Vec::new(),
            since: None,
            until: None,
            limit: DEFAULT_LIMIT,
        };
        assert(r@.authors =~= Seq::empty());
        r
    } else {
        let f = &filters[0];
        assert(filter_views(filters@)[0] == f@);
        let limit = match f.limit {
            Some(l) => if l < MAX_LIMIT {
                l
            } else {
                MAX_LIMIT
            },
            None => DEFAULT_LIMIT,
        };
        Selection {
            kinds: copy_kinds(&f.kinds),
            authors: copy_strings(&f.authors),
            since: f.since,
            until: f.until,
            limit,
        }
    }
}

/// A value bound to a placeholder of a statement.
#[derive(Debug, PartialEq, Eq)]
pub enum SqlParam {
    /// A number.
    Number(u64),
    /// A text.
    Text(String),
    /// The tags of an event, stored as structured JSON.
    Tags(Vec<Vec<String>>),
    /// A time, in seconds.
    Time(i64),
    /// A time, in seconds, or null.
    MaybeTime(Option<i64>),
}

/// The mathematical value of a [`SqlParam`].
pub enum SqlParamV {
    Number(u64),
    Text(Seq<char>),
    Tags(Seq<Seq<Seq<char>>>),
    Time(i64),
    MaybeTime(Option<i64>),
}

impl View for SqlParam {
    type V = SqlParamV;

    open spec fn view(&self) -> SqlParamV {
        match self {
            SqlParam::Number(n) => SqlParamV::Number(*n),
            SqlParam::Text(s) => SqlParamV::Text(s@),
            SqlParam::Tags(t) => SqlParamV::Tags(t.deep_view()),
            SqlParam::Time(t) => SqlParamV::Time(*t),
            SqlParam::MaybeTime(t) => SqlParamV::MaybeTime(*t),
        }
    }
}

/// The values of a list of parameters.
pub open spec fn param_views(p: Seq<SqlParam>) -> Seq<SqlParamV> {
    Seq::new(p.len(), |i: int| p[i]@)
}

/// A statement with numbered placeholders and the values bound to them:
/// placeholder `$n` stands for the n-th value.
#[derive(Debug, PartialEq, Eq)]
pub struct Statement {
    pub sql: String,
    pub params: Vec<SqlParam>,
}

/// The mathematical value of a [`Statement`].
pub struct StatementV {
    pub sql: Seq<char>,
    pub params: Seq<SqlParamV>,
}

impl View for Statement {
    type V = StatementV;

    open spec fn view(&self) -> StatementV {
        StatementV { sql: self.sql@, params: param_views(self.params@) }
    }
}

/// A statement with more text at its end.
pub open spec fn with_text(s: StatementV, text: Seq<char>) -> StatementV {
    StatementV { sql: s.sql + text, params: s.params }
}

/// A statement with one more value bound, and its placeholder at the end.
pub open spec fn with_param(s: StatementV, p: SqlParamV) -> StatementV {
    StatementV {
        sql: s.sql + seq!['$'] + decimal_text(s.params.len() + 1),
        params: s.params.push(p),
    }
}

/// A statement with the kinds bound, their placeholders separated by commas.
pub open spec fn with_kinds(s: StatementV, kinds: Seq<u64>) -> StatementV
    decreases kinds.len(),
{
    if kinds.len() == 0 {
        s
    } else if kinds.len() == 1 {
        with_param(s, SqlParamV::Number(kinds[0]))
    } else {
        with_param(
            with_text(with_kinds(s, kinds.drop_last()), ","@),
            SqlParamV::Number(kinds.last()),
        )
    }
}

/// A statement with the test for one author: equality for a full key of 64
/// characters, and a pattern, the prefix and `%`, for a shorter one.
pub open spec fn with_author(s: StatementV, author: Seq<char>) -> StatementV {
    if author.len() == 64 {
        with_param(with_text(s, "pubkey = "@), SqlParamV::Text(author))
    } else {
        with_param(with_text(s, "pubkey LIKE "@), SqlParamV::Text(author + "%"@))
    }
}

/// A statement with the tests for the authors, joined by `OR`.
pub open spec fn with_authors(s: StatementV, authors: Seq<Seq<char>>) -> StatementV
    decreases authors.len(),
{
    if authors.len() == 0 {
        s
    } else if authors.len() == 1 {
        with_author(s, authors[0])
    } else {
        with_author(with_text(with_authors(s, authors.drop_last()), " OR "@), authors.last())
    }
}

/// The statement after the clause for the kinds, if any are given.
pub open spec fn kinds_clause(s: StatementV, kinds: Seq<u64>) -> StatementV {
    if kinds.len() == 0 {
        s
    } else {
        with_text(with_kinds(with_text(s, " AND kind IN ("@), kinds), ")"@)
    }
}

/// The statement after the clause for the authors, if any are given.
pub open spec fn authors_clause(s: StatementV, authors: Seq<Seq<char>>) -> StatementV {
    if authors.len() == 0 {
        s
    } else {
        with_text(with_authors(with_text(s, " AND ("@), authors), ")"@)
    }
}

/// The statement after the clause for a time bound, if it is given.
pub open spec fn bound_clause(s: StatementV, test: Seq<char>, bound: Option<u64>) -> StatementV {
    match bound {
        Some(t) => with_param(with_text(s, test), SqlParamV::Number(t)),
        None => s,
    }
}

/// The head of every historical read: the columns, and the test that leaves
/// out what has expired.
pub open spec fn select_head() -> Seq<char> {
    "SELECT \"eventId\", pubkey, kind, content, tags, sig, \"createdAt\" FROM events WHERE (\"expiresAt\" IS NULL OR \"expiresAt\" > NOW())"@
}

/// The statement that reads a selection from the store, newest first.
pub open spec fn statement_for(sel: SelectionV) -> StatementV {
    let s0 = StatementV { sql: select_head(), params: Seq::empty() };
    let s1 = kinds_clause(s0, sel.kinds);
    let s2 = authors_clause(s1, sel.authors);
    let s3 = bound_clause(s2, " AND EXTRACT(EPOCH FROM \"createdAt\") >= "@, sel.since);
    let s4 = bound_clause(s3, " AND EXTRACT(EPOCH FROM \"createdAt\") <= "@, sel.until);
    with_param(with_text(s4, " ORDER BY \"createdAt\" DESC LIMIT "@), SqlParamV::Number(sel.limit))
}

/// The value bound for an author: the key itself where it is full, and the
/// pattern of the prefix where it is not.
pub open spec fn author_value(author: Seq<char>) -> SqlParamV {
    if author.len() == 64 {
        SqlParamV::Text(author)
    } else {
        SqlParamV::Text(author + "%"@)
    }
}

/// The values that the statement for a selection binds, in their order: the
/// kinds, then the authors, then the time bounds that are given, then the
/// limit.
pub open spec fn bound_values(sel: SelectionV) -> Seq<SqlParamV> {
    Seq::new(sel.kinds.len(), |i: int| SqlParamV::Number(sel.kinds[i])) + Seq::new(
        sel.authors.len(),
        |i: int| author_value(sel.authors[i]),
    ) + match sel.since {
        Some(t) => seq![SqlParamV::Number(t)],
        None => Seq::empty(),
    } + match sel.until {
        Some(t) => seq![SqlParamV::Number(t)],
        None => Seq::empty(),
    } + seq![SqlParamV::Number(sel.limit)]
}

proof fn lemma_kinds_bound(s: StatementV, kinds: Seq<u64>)
    ensures
        with_kinds(s, kinds).params == s.params + Seq::new(
            kinds.len(),
            |i: int| SqlParamV::Number(kinds[i]),
        ),
    decreases kinds.len(),
{
    let want = s.params + Seq::new(kinds.len(), |i: int| SqlParamV::Number(kinds[i]));
    if kinds.len() >= 2 {
        lemma_kinds_bound(s, kinds.drop_last());
    }
    assert(with_kinds(s, kinds).params =~= want);
}

proof fn lemma_authors_bound(s: StatementV, authors: Seq<Seq<char>>)
    ensures
        with_authors(s, authors).params == s.params + Seq::new(
            authors.len(),
            |i: int| author_value(authors[i]),
        ),
    decreases authors.len(),
{
    let want = s.params + Seq::new(authors.len(), |i: int| author_value(authors[i]));
    if authors.len() >= 2 {
        lemma_authors_bound(s, authors.drop_last());
    }
    assert(with_authors(s, authors).params =~= want);
}

/// The statement for a selection binds every value of the selection, and
/// nothing else: no value of a filter is written into the text.
pub proof fn lemma_statement_binds(sel: SelectionV)
    ensures
        statement_for(sel).params == bound_values(sel),
{
    let s0 = StatementV { sql: select_head(), params: Seq::empty() };
    lemma_kinds_bound(with_text(s0, " AND kind IN ("@), sel.kinds);
    let s1 = kinds_clause(s0, sel.kinds);
    lemma_authors_bound(with_text(s1, " AND ("@), sel.authors);
    assert(statement_for(sel).params =~= bound_values(sel));
}

impl Statement {
    fn text(&mut self, text: &str)
        ensures
            final(self)@ == with_text(old(self)@, text@),
    {
        self.sql.append(text);
    }

    fn bind(&mut self, p: SqlParam)
        requires
            old(self).params.len() < u64::MAX,
        ensures
            final(self)@ == with_param(old(self)@, p@),
    {
        let ghost before = param_views(self.params@);
        self.params.push(p);
        assert(param_views(self.params@) =~= before.push(p@));
        let n: u64 = self.params.len() as u64;
        self.sql.append("$");
        self.sql.append(u64_to_string(n).as_str());
        proof {
            reveal_strlit("$");
            assert("$"@ =~= seq!['$']);
        }
    }
}

/// Writes the statement that reads a selection from the store. Every value
/// of the selection is bound, none is written into the text.
pub fn render(sel: &Selection) -> (r: Statement)
    requires
        sel.kinds.len() + sel.authors.len() + 3 <= u64::MAX,
    ensures
        r@ == statement_for(sel@),
{
    let mut s = Statement {
        sql: String::from_str(
            "SELECT \"eventId\", pubkey, kind, content, tags, sig, \"createdAt\" FROM events WHERE (\"expiresAt\" IS NULL OR \"expiresAt\" > NOW())",
        ),
        params: Vec::new(),
    };
    assert(s@.params =~= Seq::empty());
    let ghost s0 = s@;
    if sel.kinds.len() > 0 {
        s.text(" AND kind IN (");
        let ghost opened = s@;
        let mut i: usize = 0;
        while i < sel.kinds.len()
            invariant
                i <= sel.kinds.len(),
                sel.kinds.len() + sel.authors.len() + 3 <= u64::MAX,
                opened.params.len() == 0,
                s@ == with_kinds(opened, sel.kinds@.take(i as int)),
                s@.params.len() == i,
            decreases sel.kinds.len() - i,
        {
            let ghost upto = sel.kinds@.take(i + 1);
            assert(upto.drop_last() =~= sel.kinds@.take(i as int));
            if i > 0 {
                s.text(",");
            }
            s.bind(SqlParam::Number(sel.kinds[i]));
            i += 1;
        }
        assert(sel.kinds@.take(i as int) =~= sel.kinds@);
        s.text(")");
    }
    let ghost s1 = s@;
    assert(s1 == kinds_clause(s0, sel@.kinds));
    assert(s1.params.len() == sel.kinds.len());
    if sel.authors.len() > 0 {
        s.text(" AND (");
        let ghost opened = s@;
        let ghost authors = sel.authors.deep_view();
        let mut i: usize = 0;
        while i < sel.authors.len()
            invariant
                i <= sel.authors.len(),
                sel.kinds.len() + sel.authors.len() + 3 <= u64::MAX,
                authors == sel.authors.deep_view(),
                opened.params.len() == sel.kinds.len(),
                s@ == with_authors(opened, authors.take(i as int)),
                s@.params.len() == sel.kinds.len() + i,
            decreases sel.authors.len() - i,
        {
            let ghost upto = authors.take(i + 1);
            assert(upto.drop_last() =~= authors.take(i as int));
            assert(upto.last() == sel.authors@[i as int]@);
            if i > 0 {
                s.text(" OR ");
            }
            let author = &sel.authors[i];
            if chars_of(author.as_str()).len() == 64 {
                s.text("pubkey = ");
                s.bind(SqlParam::Text(author.clone()));
            } else {
                s.text("pubkey LIKE ");
                s.bind(SqlParam::Text(joined(author.as_str(), "%")));
            }
            i += 1;
        }
        assert(authors.take(i as int) =~= authors);
        s.text(")");
    }
    let ghost s2 = s@;
    assert(s2 == authors_clause(s1, sel@.authors));
    assert(s2.params.len() <= sel.kinds.len() + sel.authors.len());
    if let Some(t) = sel.since {
        s.text(" AND EXTRACT(EPOCH FROM \"createdAt\") >= ");
        s.bind(SqlParam::Number(t));
    }
    assert(s@.params.len() <= sel.kinds.len() + sel.authors.len() + 1);
    if let Some(t) = sel.until {
        s.text(" AND EXTRACT(EPOCH FROM \"createdAt\") <= ");
        s.bind(SqlParam::Number(t));
    }
    assert(s@.params.len() <= sel.kinds.len() + sel.authors.len() + 2);
    s.text(" ORDER BY \"createdAt\" DESC LIMIT ");
    s.bind(SqlParam::Number(sel.limit));
    s
}

} // verus!
