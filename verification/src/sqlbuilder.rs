use vstd::prelude::*;
use vstd::string::StringExecFns;

use crate::ident::Id;
use crate::word::strings_view;

verus! {

// ---------------------------------------------------------------------------
// Values and joins
// ---------------------------------------------------------------------------

/// A value bound to one placeholder of a query.
#[derive(Debug, Clone)]
pub enum SqlValue {
    Text(String),
    Int(i64),
    Ident(Id),
    Texts(Vec<String>),
}

/// A table term of a FROM clause.
#[derive(Debug)]
pub enum Join {
    Single(String),
    CrossJoin(String),
    InnerJoin(String, String),
    LeftJoin(String, String),
}

pub enum JoinView {
    Single(Seq<char>),
    CrossJoin(Seq<char>),
    InnerJoin(Seq<char>, Seq<char>),
    LeftJoin(Seq<char>, Seq<char>),
}

impl View for Join {
    type V = JoinView;

    open spec fn view(&self) -> JoinView {
        match self {
            Join::Single(t) => JoinView::Single(t@),
            Join::CrossJoin(t) => JoinView::CrossJoin(t@),
            Join::InnerJoin(t, c) => JoinView::InnerJoin(t@, c@),
            Join::LeftJoin(t, c) => JoinView::LeftJoin(t@, c@),
        }
    }
}

impl Clone for Join {
    fn clone(&self) -> (r: Self)
        ensures
            r@ == self@,
    {
        match self {
            Join::Single(t) => Join::Single(t.clone()),
            Join::CrossJoin(t) => Join::CrossJoin(t.clone()),
            Join::InnerJoin(t, c) => Join::InnerJoin(t.clone(), c.clone()),
            Join::LeftJoin(t, c) => Join::LeftJoin(t.clone(), c.clone()),
        }
    }
}

/// The text a join term contributes inside a SELECT's FROM clause.
pub open spec fn join_select_sql(j: JoinView) -> Seq<char> {
    match j {
        JoinView::Single(t) => t,
        JoinView::CrossJoin(t) => ", "@ + t,
        JoinView::InnerJoin(t, c) => " INNER JOIN "@ + t + " ON ("@ + c + ")"@,
        JoinView::LeftJoin(t, c) => " LEFT JOIN "@ + t + " ON ("@ + c + ")"@,
    }
}

fn join_select_exec(j: &Join) -> (r: String)
    ensures
        r@ == join_select_sql(j@),
{
    match j {
        Join::Single(t) => t.clone(),
        Join::CrossJoin(t) => {
            let mut s = String::new();
            s.append(", ");
            s.append(t.as_str());
            s
        },
        Join::InnerJoin(t, c) => {
            let mut s = String::new();
            s.append(" INNER JOIN ");
            s.append(t.as_str());
            s.append(" ON (");
            s.append(c.as_str());
            s.append(")");
            s
        },
        Join::LeftJoin(t, c) => {
            let mut s = String::new();
            s.append(" LEFT JOIN ");
            s.append(t.as_str());
            s.append(" ON (");
            s.append(c.as_str());
            s.append(")");
            s
        },
    }
}

/// The text of a join term standing alone, as the target of an INSERT,
/// UPDATE or DELETE.
pub open spec fn join_plain_sql(j: JoinView) -> Seq<char> {
    match j {
        JoinView::Single(t) => t,
        JoinView::CrossJoin(t) => ", "@ + t,
        JoinView::InnerJoin(t, c) => "INNER JOIN "@ + t + " ON ("@ + c + ")"@,
        JoinView::LeftJoin(t, c) => "LEFT JOIN "@ + t + " ON ("@ + c + ")"@,
    }
}

fn join_plain_exec(j: &Join) -> (r: String)
    ensures
        r@ == join_plain_sql(j@),
{
    match j {
        Join::Single(t) => t.clone(),
        Join::CrossJoin(t) => {
            let mut s = String::new();
            s.append(", ");
            s.append(t.as_str());
            s
        },
        Join::InnerJoin(t, c) => {
            let mut s = String::new();
            s.append("INNER JOIN ");
            s.append(t.as_str());
            s.append(" ON (");
            s.append(c.as_str());
            s.append(")");
            s
        },
        Join::LeftJoin(t, c) => {
            let mut s = String::new();
            s.append("LEFT JOIN ");
            s.append(t.as_str());
            s.append(" ON (");
            s.append(c.as_str());
            s.append(")");
            s
        },
    }
}

// ---------------------------------------------------------------------------
// Joining text with separators
// ---------------------------------------------------------------------------

/// `parts` glued together with `sep` between consecutive parts.
pub open spec fn spec_joined(parts: Seq<Seq<char>>, sep: Seq<char>) -> Seq<char>
    decreases parts.len(),
{
    if parts.len() == 0 {
        Seq::empty()
    } else if parts.len() == 1 {
        parts[0]
    } else {
        spec_joined(parts.drop_last(), sep) + sep + parts.last()
    }
}

fn join_strings(parts: &Vec<String>, sep: &str) -> (r: String)
    ensures
        r@ == spec_joined(strings_view(*parts), sep@),
{
    let ghost all = strings_view(*parts);
    let mut r = String::new();
    let mut i: usize = 0;
    while i < parts.len()
        invariant
            all == strings_view(*parts),
            i <= parts@.len(),
            r@ == spec_joined(all.subrange(0, i as int), sep@),
        decreases parts@.len() - i,
    {
        proof {
            assert(all.subrange(0, i + 1).drop_last() =~= all.subrange(0, i as int));
            assert(all.subrange(0, i + 1).last() == all[i as int]);
            assert(all[i as int] == parts@[i as int]@);
        }
        if i > 0 {
            r.append(sep);
        }
        r.append(parts[i].as_str());
        i = i + 1;
        proof {
            if i == 1 {
                assert(r@ =~= spec_joined(all.subrange(0, 1), sep@));
            } else {
                assert(r@ =~= spec_joined(all.subrange(0, i as int), sep@));
            }
        }
    }
    proof {
        assert(all.subrange(0, all.len() as int) =~= all);
    }
    r
}

/// `n` copies of `part` glued with `sep` between consecutive copies.
pub open spec fn spec_repeated(part: Seq<char>, sep: Seq<char>, n: int) -> Seq<char>
    decreases n,
{
    if n <= 0 {
        Seq::empty()
    } else if n == 1 {
        part
    } else {
        spec_repeated(part, sep, n - 1) + sep + part
    }
}

fn repeat_string(part: &str, sep: &str, n: usize) -> (r: String)
    ensures
        r@ == spec_repeated(part@, sep@, n as int),
{
    let mut r = String::new();
    let mut i: usize = 0;
    while i < n
        invariant
            i <= n,
            r@ == spec_repeated(part@, sep@, i as int),
        decreases n - i,
    {
        if i > 0 {
            r.append(sep);
        }
        r.append(part);
        i = i + 1;
        proof {
            if i == 1 {
                assert(r@ =~= spec_repeated(part@, sep@, 1));
            } else {
                assert(r@ =~= spec_repeated(part@, sep@, i as int));
            }
        }
    }
    r
}

// ---------------------------------------------------------------------------
// Decimal rendering and placeholder numbering
// ---------------------------------------------------------------------------

pub open spec fn dec_digit(d: int) -> char {
    if d == 0 {
        '0'
    } else if d == 1 {
        '1'
    } else if d == 2 {
        '2'
    } else if d == 3 {
        '3'
    } else if d == 4 {
        '4'
    } else if d == 5 {
        '5'
    } else if d == 6 {
        '6'
    } else if d == 7 {
        '7'
    } else if d == 8 {
        '8'
    } else {
        '9'
    }
}

/// The decimal digits of a non-negative number.
pub open spec fn spec_dec(n: int) -> Seq<char>
    decreases n,
{
    if n < 10 {
        seq![dec_digit(n)]
    } else {
        spec_dec(n / 10) + seq![dec_digit(n % 10)]
    }
}

fn digit_char(d: u64) -> (c: char)
    requires
        d < 10,
    ensures
        c == dec_digit(d as int),
{
    if d == 0 {
        '0'
    } else if d == 1 {
        '1'
    } else if d == 2 {
        '2'
    } else if d == 3 {
        '3'
    } else if d == 4 {
        '4'
    } else if d == 5 {
        '5'
    } else if d == 6 {
        '6'
    } else if d == 7 {
        '7'
    } else if d == 8 {
        '8'
    } else {
        '9'
    }
}

fn push_dec(out: &mut Vec<char>, n: u64)
    ensures
        final(out)@ == old(out)@ + spec_dec(n as int),
    decreases n,
{
    if n >= 10 {
        push_dec(out, n / 10);
        out.push(digit_char(n % 10));
        proof {
            assert(final(out)@ =~= old(out)@ + spec_dec(n as int));
        }
    } else {
        out.push(digit_char(n));
        proof {
            assert(final(out)@ =~= old(out)@ + spec_dec(n as int));
        }
    }
}

/// The decimal rendering of a signed number.
pub open spec fn spec_i64_dec(n: int) -> Seq<char> {
    if n >= 0 {
        spec_dec(n)
    } else {
        seq!['-'] + spec_dec(-n)
    }
}

fn i64_to_string(n: i64) -> (r: String)
    ensures
        r@ == spec_i64_dec(n as int),
{
    let mut out: Vec<char> = Vec::new();
    if n < 0 {
        out.push('-');
        let m: u64 = (-(n as i128)) as u64;
        push_dec(&mut out, m);
        proof {
            assert(out@ =~= spec_i64_dec(n as int));
        }
    } else {
        push_dec(&mut out, n as u64);
        proof {
            assert(out@ =~= spec_i64_dec(n as int));
        }
    }
    crate::text::chars_to_string(&out)
}

/// The text with its placeholders numbered: the k-th `?` (counting from
/// `n`) becomes `$n+k-1`.
pub open spec fn spec_numbered(s: Seq<char>, n: int) -> Seq<char>
    decreases s.len(),
{
    if s.len() == 0 {
        s
    } else if s[0] == '?' {
        seq!['$'] + spec_dec(n) + spec_numbered(s.drop_first(), n + 1)
    } else {
        seq![s[0]] + spec_numbered(s.drop_first(), n)
    }
}

fn number_placeholders(s: &str) -> (r: String)
    ensures
        r@ == spec_numbered(s@, 1),
{
    let v = crate::text::str_chars(s);
    let vlen = v.len();
    let mut out: Vec<char> = Vec::new();
    let mut i: usize = 0;
    let mut qs: u64 = 0;
    proof {
        assert(s@.subrange(0, s@.len() as int) =~= s@);
        assert(spec_numbered(s@, 1) =~= out@ + spec_numbered(
            s@.subrange(0, s@.len() as int),
            1,
        ));
    }
    while i < vlen
        invariant
            v@ == s@,
            vlen == v@.len(),
            i <= vlen,
            qs <= i,
            spec_numbered(s@, 1) == out@ + spec_numbered(
                s@.subrange(i as int, s@.len() as int),
                qs + 1,
            ),
        decreases vlen - i,
    {
        proof {
            let rest = s@.subrange(i as int, s@.len() as int);
            assert(rest.len() > 0);
            assert(rest[0] == s@[i as int]);
            assert(rest.drop_first() =~= s@.subrange(i + 1, s@.len() as int));
        }
        let c = v[i];
        if c == '?' {
            out.push('$');
            push_dec(&mut out, qs + 1);
            qs = qs + 1;
        } else {
            out.push(c);
        }
        i = i + 1;
        proof {
            assert(spec_numbered(s@, 1) =~= out@ + spec_numbered(
                s@.subrange(i as int, s@.len() as int),
                qs + 1,
            ));
        }
    }
    proof {
        assert(s@.subrange(s@.len() as int, s@.len() as int) =~= Seq::<char>::empty());
        assert(spec_numbered(s@, 1) =~= out@);
    }
    crate::text::chars_to_string(&out)
}

// ---------------------------------------------------------------------------
// The builder
// ---------------------------------------------------------------------------

#[derive(Debug, Clone, Copy, PartialEq, Eq, Structural)]
pub enum QueryKind {
    Select,
    Insert,
    Update,
    Delete,
}

pub struct SqlBuilderView {
    pub query_type: QueryKind,
    pub projections: Seq<Seq<char>>,
    pub tables: Seq<JoinView>,
    pub orders: Seq<Seq<char>>,
    pub limit: Option<i64>,
    pub columns: Option<Seq<Seq<char>>>,
    pub n_params: nat,
    pub conditions: Seq<Seq<char>>,
    pub returning: Option<Seq<char>>,
}

/// A row that can be written whole by an INSERT.
pub trait Insertable {
    fn columns(&self) -> Vec<String>;

    fn values(&self) -> Vec<SqlValue>;
}

/// A row whose changed columns can be written by an UPDATE.
pub trait Updatable {
    fn columns(&self) -> Vec<(String, SqlValue)>;
}

/// Assembles one SQL statement from parts: projections, tables, conditions,
/// orderings, bound parameters. `build` renders the text with numbered
/// placeholders.
#[derive(Debug)]
pub struct SqlBuilder {
    query_type: QueryKind,
    projections: Vec<String>,
    tables: Vec<Join>,
    orders: Vec<String>,
    limit: Option<i64>,
    columns: Option<Vec<String>>,
    parameters: Vec<SqlValue>,
    conditions: Vec<String>,
    returning: Option<String>,
}

pub open spec fn joins_view(ts: Seq<Join>) -> Seq<JoinView> {
    ts.map_values(|j: Join| j@)
}

impl View for SqlBuilder {
    type V = SqlBuilderView;

    closed spec fn view(&self) -> SqlBuilderView {
        SqlBuilderView {
            query_type: self.query_type,
            projections: strings_view(self.projections),
            tables: joins_view(self.tables@),
            orders: strings_view(self.orders),
            limit: self.limit,
            columns: match self.columns {
                Some(c) => Some(strings_view(c)),
                None => None,
            },
            n_params: self.parameters@.len(),
            conditions: strings_view(self.conditions),
            returning: match self.returning {
                Some(r) => Some(r@),
                None => None,
            },
        }
    }
}

/// The view of a builder just created for one table.
pub open spec fn fresh_builder(qt: QueryKind, table: Seq<char>) -> SqlBuilderView {
    SqlBuilderView {
        query_type: qt,
        projections: Seq::empty(),
        tables: seq![JoinView::Single(table)],
        orders: Seq::empty(),
        limit: None,
        columns: None,
        n_params: 0,
        conditions: Seq::empty(),
        returning: None,
    }
}

// ---------------------------------------------------------------------------
// What the rendered statement is
// ---------------------------------------------------------------------------

/// The FROM clause of a SELECT: every table term, concatenated.
pub open spec fn select_tables_sql(ts: Seq<JoinView>) -> Seq<char>
    decreases ts.len(),
{
    if ts.len() == 0 {
        Seq::empty()
    } else {
        select_tables_sql(ts.drop_last()) + join_select_sql(ts.last())
    }
}

pub open spec fn where_parts(cs: Seq<Seq<char>>) -> Seq<Seq<char>> {
    if cs.len() == 0 {
        Seq::empty()
    } else {
        seq!["WHERE"@, spec_joined(cs, " AND "@)]
    }
}

pub open spec fn order_parts(os: Seq<Seq<char>>) -> Seq<Seq<char>> {
    if os.len() == 0 {
        Seq::empty()
    } else {
        seq!["ORDER BY"@, spec_joined(os, ", "@)]
    }
}

pub open spec fn limit_parts(l: Option<i64>) -> Seq<Seq<char>> {
    match l {
        None => Seq::empty(),
        Some(n) => seq!["LIMIT"@, spec_i64_dec(n as int)],
    }
}

pub open spec fn returning_parts(r: Option<Seq<char>>) -> Seq<Seq<char>> {
    match r {
        None => Seq::empty(),
        Some(f) => seq!["RETURNING"@, f],
    }
}

pub open spec fn insert_cols_parts(c: Option<Seq<Seq<char>>>) -> Seq<Seq<char>> {
    match c {
        Some(cols) => if cols.len() > 0 {
            seq!["("@, spec_joined(cols, ", "@), ")"@]
        } else {
            Seq::empty()
        },
        None => Seq::empty(),
    }
}

/// The VALUES clause of an INSERT: rows of one placeholder per column.
pub open spec fn insert_values_parts(c: Option<Seq<Seq<char>>>, n_params: int) -> Seq<
    Seq<char>,
> {
    match c {
        Some(cols) => if n_params > 0 && cols.len() > 0 {
            let num_rows = n_params / cols.len() as int;
            let n_chunks = n_params / num_rows + if n_params % num_rows != 0 {
                1int
            } else {
                0int
            };
            let row = spec_repeated("?"@, ", "@, cols.len() as int);
            seq!["VALUES"@, spec_repeated(row, ", "@, n_chunks)]
        } else {
            Seq::empty()
        },
        None => Seq::empty(),
    }
}

pub open spec fn set_parts(c: Option<Seq<Seq<char>>>) -> Seq<Seq<char>> {
    match c {
        Some(cols) => if cols.len() > 0 {
            seq!["SET"@, spec_joined(cols.map_values(|f: Seq<char>| f + " = ?"@), ", "@)]
        } else {
            Seq::empty()
        },
        None => Seq::empty(),
    }
}

/// The words of the statement, in order, before they are glued with spaces.
pub open spec fn spec_parts(v: SqlBuilderView) -> Seq<Seq<char>> {
    match v.query_type {
        QueryKind::Select => seq![
            "SELECT"@,
            spec_joined(v.projections, ", "@),
            "FROM"@,
            select_tables_sql(v.tables),
        ] + where_parts(v.conditions) + order_parts(v.orders) + limit_parts(v.limit),
        QueryKind::Insert => seq!["INSERT INTO"@, join_plain_sql(v.tables[0])]
            + insert_cols_parts(v.columns) + insert_values_parts(v.columns, v.n_params as int)
            + returning_parts(v.returning),
        QueryKind::Update => seq!["UPDATE"@, join_plain_sql(v.tables[0])] + set_parts(v.columns)
            + where_parts(v.conditions) + returning_parts(v.returning),
        QueryKind::Delete => seq!["DELETE FROM"@, join_plain_sql(v.tables[0])] + where_parts(
            v.conditions,
        ) + returning_parts(v.returning),
    }
}

/// The full rendered statement: the words glued with spaces, a closing
/// semicolon, and placeholders numbered from $1.
pub open spec fn spec_sql(v: SqlBuilderView) -> Seq<char> {
    spec_numbered(spec_joined(spec_parts(v), " "@) + ";"@, 1)
}

/// An INSERT whose parameters do not fill its columns cannot be rendered.
pub open spec fn build_safe(v: SqlBuilderView) -> bool {
    &&& v.tables.len() >= 1
    &&& v.query_type is Insert && v.n_params > 0 ==> v.columns is Some && v.columns->0.len()
        > 0 && v.n_params >= v.columns->0.len()
}

impl SqlBuilder {
    fn new(table: &str, query_type: QueryKind) -> (r: SqlBuilder)
        ensures
            r@ == fresh_builder(query_type, table@),
    {
        let r = SqlBuilder {
            query_type,
            projections: Vec::new(),
            tables: vec![Join::Single(table.to_owned())],
            orders: Vec::new(),
            limit: None,
            columns: None,
            parameters: Vec::new(),
            conditions: Vec::new(),
            returning: None,
        };
        proof {
            assert(r@.projections =~= Seq::<Seq<char>>::empty());
            assert(r@.tables =~= seq![JoinView::Single(table@)]);
            assert(r@.orders =~= Seq::<Seq<char>>::empty());
            assert(r@.conditions =~= Seq::<Seq<char>>::empty());
        }
        r
    }

    pub fn select(table: &str) -> (r: SqlBuilder)
        ensures
            r@ == fresh_builder(QueryKind::Select, table@),
    {
        SqlBuilder::new(table, QueryKind::Select)
    }

    pub fn insert(table: &str) -> (r: SqlBuilder)
        ensures
            r@ == fresh_builder(QueryKind::Insert, table@),
    {
        SqlBuilder::new(table, QueryKind::Insert)
    }

    pub fn update(table: &str) -> (r: SqlBuilder)
        ensures
            r@ == fresh_builder(QueryKind::Update, table@),
    {
        SqlBuilder::new(table, QueryKind::Update)
    }

    pub fn delete(table: &str) -> (r: SqlBuilder)
        ensures
            r@ == fresh_builder(QueryKind::Delete, table@),
    {
        SqlBuilder::new(table, QueryKind::Delete)
    }

    pub fn join(self, table: Join) -> (r: SqlBuilder)
        ensures
            r@ == (SqlBuilderView { tables: self@.tables.push(table@), ..self@ }),
    {
        let ghost tv = table@;
        let mut b = self;
        b.tables.push(table);
        proof {
            assert(b@.tables =~= self@.tables.push(tv));
        }
        b
    }

    pub fn filter(self, filter: &str) -> (r: SqlBuilder)
        ensures
            r@ == (SqlBuilderView { conditions: self@.conditions.push(filter@), ..self@ }),
    {
        let mut b = self;
        b.conditions.push(filter.to_owned());
        proof {
            assert(b@.conditions =~= self@.conditions.push(filter@));
        }
        b
    }

    pub fn bind(self, value: SqlValue) -> (r: SqlBuilder)
        ensures
            r@ == (SqlBuilderView { n_params: self@.n_params + 1, ..self@ }),
    {
        let mut b = self;
        b.parameters.push(value);
        b
    }

    pub fn column(self, field: &str) -> (r: SqlBuilder)
        ensures
            r@ == (SqlBuilderView { projections: self@.projections.push(field@), ..self@ }),
    {
        let mut b = self;
        b.projections.push(field.to_owned());
        proof {
            assert(b@.projections =~= self@.projections.push(field@));
        }
        b
    }

    /// Takes a whole row for an INSERT: its column names once, its values as
    /// parameters. What the row reports is up to its `Insertable` impl, so
    /// only the untouched parts of the builder are specified.
    pub fn values<R: Insertable>(self, row: &R) -> (r: SqlBuilder)
        ensures
            r@.query_type == self@.query_type,
            r@.projections == self@.projections,
            r@.tables == self@.tables,
            r@.orders == self@.orders,
            r@.limit == self@.limit,
            r@.conditions == self@.conditions,
            r@.returning == self@.returning,
    {
        let mut b = self;
        if b.columns.is_none() {
            b.columns = Some(row.columns());
        }
        let vals = row.values();
        let mut i: usize = 0;
        while i < vals.len()
            invariant
                i <= vals@.len(),
                b@.query_type == self@.query_type,
                b@.projections == self@.projections,
                b@.tables == self@.tables,
                b@.orders == self@.orders,
                b@.limit == self@.limit,
                b@.conditions == self@.conditions,
                b@.returning == self@.returning,
            decreases vals@.len() - i,
        {
            b.parameters.push(vals[i].clone());
            i = i + 1;
        }
        b
    }

    /// Adds one column to SET, with its value as a parameter.
    pub fn set_field(self, field: &str, value: SqlValue) -> (r: SqlBuilder)
        ensures
            r@ == (SqlBuilderView {
                columns: match self@.columns {
                    None => Some(seq![field@]),
                    Some(c) => Some(c.push(field@)),
                },
                n_params: self@.n_params + 1,
                ..self@
            }),
    {
        let mut b = self;
        let had = b.columns.is_some();
        match &mut b.columns {
            None => {
                b.columns = Some(vec![field.to_owned()]);
            },
            Some(c) => {
                c.push(field.to_owned());
            },
        }
        b.parameters.push(value);
        proof {
            if !had {
                assert(b@.columns->0 =~= seq![field@]);
            } else {
                assert(b@.columns->0 =~= self@.columns->0.push(field@));
            }
        }
        b
    }

    /// Takes a row's changed columns for an UPDATE. What the row reports is
    /// up to its `Updatable` impl, so only the untouched parts of the
    /// builder are specified.
    pub fn set<R: Updatable>(self, row: &R) -> (r: SqlBuilder)
        ensures
            r@.query_type == self@.query_type,
            r@.projections == self@.projections,
            r@.tables == self@.tables,
            r@.orders == self@.orders,
            r@.limit == self@.limit,
            r@.conditions == self@.conditions,
            r@.returning == self@.returning,
    {
        let mut b = self;
        let pairs = row.columns();
        if b.columns.is_none() {
            let mut names: Vec<String> = Vec::new();
            let mut i: usize = 0;
            while i < pairs.len()
                invariant
                    i <= pairs@.len(),
                decreases pairs@.len() - i,
            {
                names.push(pairs[i].0.clone());
                i = i + 1;
            }
            b.columns = Some(names);
        }
        let mut i: usize = 0;
        while i < pairs.len()
            invariant
                i <= pairs@.len(),
                b@.query_type == self@.query_type,
                b@.projections == self@.projections,
                b@.tables == self@.tables,
                b@.orders == self@.orders,
                b@.limit == self@.limit,
                b@.conditions == self@.conditions,
                b@.returning == self@.returning,
            decreases pairs@.len() - i,
        {
            b.parameters.push(pairs[i].1.clone());
            i = i + 1;
        }
        b
    }

    pub fn order_by(self, field: &str) -> (r: SqlBuilder)
        ensures
            r@ == (SqlBuilderView { orders: self@.orders.push(field@), ..self@ }),
    {
        let mut b = self;
        b.orders.push(field.to_owned());
        proof {
            assert(b@.orders =~= self@.orders.push(field@));
        }
        b
    }

    pub fn limit(self, limit: i64) -> (r: SqlBuilder)
        ensures
            r@ == (SqlBuilderView { limit: Some(limit), ..self@ }),
    {
        let mut b = self;
        b.limit = Some(limit);
        b
    }

    pub fn returning(self, field: &str) -> (r: SqlBuilder)
        ensures
            r@ == (SqlBuilderView { returning: Some(field@), ..self@ }),
    {
        let mut b = self;
        b.returning = Some(field.to_owned());
        b
    }

    /// Renders the statement: the clauses of the query in order, glued with
    /// spaces, closed with a semicolon, placeholders numbered from $1; the
    /// bound parameters ride along.
    pub fn build(&self) -> (r: (String, &Vec<SqlValue>))
        requires
            build_safe(self@),
        ensures
            r.0@ == spec_sql(self@),
            r.1@.len() == self@.n_params,
    {
        let mut parts: Vec<String> = Vec::new();
        match self.query_type {
            QueryKind::Select => {
                parts.push("SELECT".to_owned());
                parts.push(join_strings(&self.projections, ", "));
                parts.push("FROM".to_owned());
                let mut tbl = String::new();
                let mut i: usize = 0;
                while i < self.tables.len()
                    invariant
                        i <= self.tables@.len(),
                        tbl@ == select_tables_sql(joins_view(self.tables@).subrange(0, i as int)),
                    decreases self.tables@.len() - i,
                {
                    proof {
                        let jv = joins_view(self.tables@);
                        assert(jv.subrange(0, i + 1).drop_last() =~= jv.subrange(0, i as int));
                        assert(jv.subrange(0, i + 1).last() == jv[i as int]);
                        assert(jv[i as int] == self.tables@[i as int]@);
                    }
                    let t = join_select_exec(&self.tables[i]);
                    tbl.append(t.as_str());
                    i = i + 1;
                }
                proof {
                    assert(joins_view(self.tables@).subrange(
                        0,
                        joins_view(self.tables@).len() as int,
                    ) =~= joins_view(self.tables@));
                }
                parts.push(tbl);
                if self.conditions.len() > 0 {
                    parts.push("WHERE".to_owned());
                    parts.push(join_strings(&self.conditions, " AND "));
                }
                if self.orders.len() > 0 {
                    parts.push("ORDER BY".to_owned());
                    parts.push(join_strings(&self.orders, ", "));
                }
                match self.limit {
                    Some(l) => {
                        parts.push("LIMIT".to_owned());
                        parts.push(i64_to_string(l));
                    },
                    None => (),
                }
                proof {
                    assert(strings_view(parts) =~= spec_parts(self@));
                }
            },
            QueryKind::Insert => {
                parts.push("INSERT INTO".to_owned());
                parts.push(join_plain_exec(&self.tables[0]));
                let has_cols: bool = match &self.columns {
                    Some(c) => c.len() > 0,
                    None => false,
                };
                if has_cols {
                    match &self.columns {
                        Some(c) => {
                            parts.push("(".to_owned());
                            parts.push(join_strings(c, ", "));
                            parts.push(")".to_owned());
                        },
                        None => (),
                    }
                }
                if self.parameters.len() > 0 && has_cols {
                    match &self.columns {
                        Some(c) => {
                            parts.push("VALUES".to_owned());
                            let plen = self.parameters.len();
                            let clen = c.len();
                            proof {
                                assert(self@.n_params == plen);
                                assert(self@.columns->0 == strings_view(*c));
                                assert(plen >= clen >= 1);
                            }
                            let num_rows = plen / clen;
                            proof {
                                assert(num_rows >= 1) by (nonlinear_arith)
                                    requires
                                        plen >= clen,
                                        clen >= 1,
                                        num_rows == plen / clen,
                                ;
                                if plen % num_rows != 0 {
                                    assert(num_rows != 1);
                                    assert(plen / num_rows <= plen / 2) by (nonlinear_arith)
                                        requires
                                            num_rows >= 2,
                                            plen >= 0,
                                    ;
                                }
                            }
                            let n_chunks = plen / num_rows + if plen % num_rows != 0 {
                                1
                            } else {
                                0
                            };
                            let row = repeat_string("?", ", ", clen);
                            parts.push(repeat_string(row.as_str(), ", ", n_chunks));
                        },
                        None => (),
                    }
                }
                match &self.returning {
                    Some(f) => {
                        parts.push("RETURNING".to_owned());
                        parts.push(f.clone());
                    },
                    None => (),
                }
                proof {
                    assert(strings_view(parts) =~= spec_parts(self@));
                }
            },
            QueryKind::Update => {
                parts.push("UPDATE".to_owned());
                parts.push(join_plain_exec(&self.tables[0]));
                let has_cols: bool = match &self.columns {
                    Some(c) => c.len() > 0,
                    None => false,
                };
                if has_cols {
                    match &self.columns {
                        Some(c) => {
                            parts.push("SET".to_owned());
                            let mut sets: Vec<String> = Vec::new();
                            let mut i: usize = 0;
                            while i < c.len()
                                invariant
                                    i <= c@.len(),
                                    sets@.len() == i,
                                    forall|k: int|
                                        0 <= k < i ==> #[trigger] sets@[k]@ == c@[k]@
                                            + " = ?"@,
                                decreases c@.len() - i,
                            {
                                let mut one = c[i].clone();
                                one.append(" = ?");
                                sets.push(one);
                                i = i + 1;
                            }
                            proof {
                                assert(strings_view(sets) =~= strings_view(*c).map_values(
                                    |f: Seq<char>| f + " = ?"@,
                                ));
                            }
                            parts.push(join_strings(&sets, ", "));
                        },
                        None => (),
                    }
                }
                if self.conditions.len() > 0 {
                    parts.push("WHERE".to_owned());
                    parts.push(join_strings(&self.conditions, " AND "));
                }
                match &self.returning {
                    Some(f) => {
                        parts.push("RETURNING".to_owned());
                        parts.push(f.clone());
                    },
                    None => (),
                }
                proof {
                    assert(strings_view(parts) =~= spec_parts(self@));
                }
            },
            QueryKind::Delete => {
                parts.push("DELETE FROM".to_owned());
                parts.push(join_plain_exec(&self.tables[0]));
                if self.conditions.len() > 0 {
                    parts.push("WHERE".to_owned());
                    parts.push(join_strings(&self.conditions, " AND "));
                }
                match &self.returning {
                    Some(f) => {
                        parts.push("RETURNING".to_owned());
                        parts.push(f.clone());
                    },
                    None => (),
                }
                proof {
                    assert(strings_view(parts) =~= spec_parts(self@));
                }
            },
        }
        let mut full = join_strings(&parts, " ");
        full.append(";");
        let sql = number_placeholders(full.as_str());
        (sql, &self.parameters)
    }
}

} // verus!
