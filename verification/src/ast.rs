//! The AST walk protocol: fragment nodes emit SQL text and bind parameters
//! into a shared sink, in a fixed left-to-right order.
//!
//! The sink ([`AstPass`]) numbers positional placeholders (`$1`, `$2`, ...)
//! by bind position, so a node that registers a bound value always writes the
//! placeholder that matches the value's position in the bind stream. The
//! sink keeps [`AstPass::numbering_ok`] through every walk: its text holds
//! exactly one placeholder per bound value, numbered by bind position, in
//! order of appearance. Every fragment node also proves
//! ([`QueryFragment::placeholders_match`]) that the number of placeholders
//! in its own emitted text equals the number of bound values it contributes.

use vstd::prelude::*;

verus! {

/// The mathematical model of one bound value.
pub enum BindVal {
    Bytes(Seq<u8>),
    Text(Seq<char>),
    BigInt(int),
    Bool(bool),
    /// Microseconds relative to the PostgreSQL epoch.
    Timestamp(int),
    Interval { microseconds: int, days: int, months: int },
}

/// A SQL interval, split into the three independently-stored components.
#[derive(Debug, Clone, Copy, PartialEq, Eq)]
pub struct IntervalValue {
    pub microseconds: i64,
    pub days: i32,
    pub months: i32,
}

impl IntervalValue {
    /// An interval of whole microseconds.
    pub fn from_microseconds(microseconds: i64) -> (r: Self)
        ensures
            r == (IntervalValue { microseconds, days: 0, months: 0 }),
    {
        IntervalValue { microseconds, days: 0, months: 0 }
    }
}

/// One typed value substituted positionally for a placeholder.
#[derive(Debug, PartialEq, Eq)]
pub enum BindValue {
    Bytes(Vec<u8>),
    Text(String),
    BigInt(i64),
    Bool(bool),
    /// Microseconds relative to the PostgreSQL epoch.
    Timestamp(i64),
    Interval(IntervalValue),
}

impl View for BindValue {
    type V = BindVal;

    open spec fn view(&self) -> BindVal {
        match self {
            BindValue::Bytes(b) => BindVal::Bytes(b@),
            BindValue::Text(t) => BindVal::Text(t@),
            BindValue::BigInt(x) => BindVal::BigInt(*x as int),
            BindValue::Bool(x) => BindVal::Bool(*x),
            BindValue::Timestamp(x) => BindVal::Timestamp(*x as int),
            BindValue::Interval(iv) => BindVal::Interval {
                microseconds: iv.microseconds as int,
                days: iv.days as int,
                months: iv.months as int,
            },
        }
    }
}

impl Clone for BindValue {
    fn clone(&self) -> (r: Self)
        ensures
            r@ == self@,
    {
        match self {
            BindValue::Bytes(b) => {
                let c = b.clone();
                proof {
                    assert(c@ =~= b@);
                }
                BindValue::Bytes(c)
            },
            BindValue::Text(t) => BindValue::Text(t.clone()),
            BindValue::BigInt(x) => BindValue::BigInt(*x),
            BindValue::Bool(x) => BindValue::Bool(*x),
            BindValue::Timestamp(x) => BindValue::Timestamp(*x),
            BindValue::Interval(iv) => BindValue::Interval(*iv),
        }
    }
}

/// The decimal digit characters of `n`, most significant first.
pub open spec fn digit_char(d: nat) -> char {
    if d == 0 {
        '0'
    } else if d == 1 {
        '1'
    } else if d == 2 {
        '2'
    } else if d == 3 {
        '3'
    } else if d == 4 {
        '4'
    } else if d == 5 {
        '5'
    } else if d == 6 {
        '6'
    } else if d == 7 {
        '7'
    } else if d == 8 {
        '8'
    } else {
        '9'
    }
}

/// The decimal text of `n`, most significant digit first.
pub open spec fn dec_digits(n: nat) -> Seq<char>
    decreases n,
{
    if n < 10 {
        seq![digit_char(n)]
    } else {
        dec_digits(n / 10).push(digit_char(n % 10))
    }
}

/// The text of the positional placeholder for bind position `k` (1-based).
pub open spec fn placeholder_text(k: nat) -> Seq<char> {
    seq!['$'] + dec_digits(k)
}

/// True when `s` contains no placeholder marker.
pub open spec fn dollar_free(s: Seq<char>) -> bool {
    forall|i: int| 0 <= i < s.len() ==> s[i] != '$'
}

/// The number of positional placeholders in `s`, counted by their marker.
pub open spec fn placeholder_count(s: Seq<char>) -> nat
    decreases s.len(),
{
    if s.len() == 0 {
        0
    } else {
        placeholder_count(s.drop_last()) + if s.last() == '$' {
            1nat
        } else {
            0nat
        }
    }
}

pub proof fn lemma_count_concat(a: Seq<char>, b: Seq<char>)
    ensures
        placeholder_count(a + b) == placeholder_count(a) + placeholder_count(b),
    decreases b.len(),
{
    if b.len() == 0 {
        assert(a + b =~= a);
    } else {
        lemma_count_concat(a, b.drop_last());
        assert((a + b).drop_last() =~= a + b.drop_last());
        assert((a + b).last() == b.last());
    }
}

pub proof fn lemma_count_dollar_free(s: Seq<char>)
    requires
        dollar_free(s),
    ensures
        placeholder_count(s) == 0,
    decreases s.len(),
{
    if s.len() > 0 {
        assert(dollar_free(s.drop_last()));
        lemma_count_dollar_free(s.drop_last());
    }
}

pub proof fn lemma_digits_dollar_free(n: nat)
    ensures
        dollar_free(dec_digits(n)),
    decreases n,
{
    if n >= 10 {
        lemma_digits_dollar_free(n / 10);
    }
}

/// A placeholder is one marker followed by digits.
pub proof fn lemma_placeholder_count_one(k: nat)
    ensures
        placeholder_count(placeholder_text(k)) == 1,
{
    lemma_digits_dollar_free(k);
    lemma_count_dollar_free(dec_digits(k));
    lemma_count_concat(seq!['$'], dec_digits(k));
    assert(placeholder_count(seq!['$']) == 1) by {
        let s = seq!['$'];
        assert(s.drop_last().len() == 0);
        assert(placeholder_count(s.drop_last()) == 0);
        assert(s.last() == '$');
    }
}

/// The index in `s` of the marker of its `k`-th placeholder (0-based),
/// counting from the left. Meaningful when `k < placeholder_count(s)`.
pub open spec fn dollar_index(s: Seq<char>, k: int) -> int
    decreases s.len(),
{
    if s.len() == 0 {
        0
    } else if k < placeholder_count(s.drop_last()) {
        dollar_index(s.drop_last(), k)
    } else {
        s.len() - 1
    }
}

/// The full text of the placeholder numbered `num` stands in `s` at index
/// `i`.
pub open spec fn placeholder_at(s: Seq<char>, i: int, num: nat) -> bool {
    &&& 0 <= i
    &&& i + placeholder_text(num).len() <= s.len()
    &&& s.subrange(i, i + placeholder_text(num).len() as int) == placeholder_text(num)
}

/// The text `s` holds exactly `n` placeholders and, left to right, they read
/// `$offset+1`, `$offset+2`, ..., `$offset+n`: placeholder count and bind
/// positions agree one for one, in order.
pub open spec fn well_numbered(s: Seq<char>, offset: nat, n: nat) -> bool {
    &&& placeholder_count(s) == n
    &&& forall|k: int|
        0 <= k < n ==> placeholder_at(s, #[trigger] dollar_index(s, k), (offset + k + 1) as nat)
}

/// Appending anything moves no existing marker: the `k`-th marker of `s`
/// keeps its index in `s + t`.
pub proof fn lemma_dollar_index_append(s: Seq<char>, t: Seq<char>, k: int)
    requires
        0 <= k < placeholder_count(s),
    ensures
        dollar_index(s + t, k) == dollar_index(s, k),
    decreases t.len(),
{
    if t.len() == 0 {
        assert(s + t =~= s);
    } else {
        assert((s + t).drop_last() =~= s + t.drop_last());
        lemma_count_concat(s, t.drop_last());
        lemma_dollar_index_append(s, t.drop_last(), k);
    }
}

/// The marker appended after `s`, followed by placeholder-free digits,
/// becomes the `placeholder_count(s)`-th marker, at index `s.len()`.
pub proof fn lemma_dollar_index_appended_marker(s: Seq<char>, d: Seq<char>)
    requires
        dollar_free(d),
    ensures
        dollar_index(s + seq!['$'] + d, placeholder_count(s) as int) == s.len(),
    decreases d.len(),
{
    let k = placeholder_count(s) as int;
    if d.len() == 0 {
        assert(s + seq!['$'] + d =~= s + seq!['$']);
        assert((s + seq!['$']).drop_last() =~= s);
        assert(dollar_index(s + seq!['$'], k) == (s + seq!['$']).len() - 1);
    } else {
        assert((s + seq!['$'] + d).drop_last() =~= s + seq!['$'] + d.drop_last());
        assert(dollar_free(d.drop_last()));
        lemma_count_concat(s + seq!['$'], d.drop_last());
        lemma_count_concat(s, seq!['$']);
        assert(placeholder_count(seq!['$']) == 1) by {
            assert(seq!['$'].drop_last().len() == 0);
            assert(placeholder_count(seq!['$'].drop_last()) == 0);
        }
        lemma_count_dollar_free(d.drop_last());
        lemma_dollar_index_appended_marker(s, d.drop_last());
    }
}

/// Appending placeholder-free text keeps a text well numbered.
pub proof fn lemma_well_numbered_push_text(s: Seq<char>, t: Seq<char>, offset: nat, n: nat)
    requires
        well_numbered(s, offset, n),
        dollar_free(t),
    ensures
        well_numbered(s + t, offset, n),
{
    lemma_count_concat(s, t);
    lemma_count_dollar_free(t);
    assert forall|k: int| 0 <= k < n implies placeholder_at(
        s + t,
        #[trigger] dollar_index(s + t, k),
        (offset + k + 1) as nat,
    ) by {
        lemma_dollar_index_append(s, t, k);
        let i = dollar_index(s, k);
        let ph = placeholder_text((offset + k + 1) as nat);
        assert(placeholder_at(s, i, (offset + k + 1) as nat));
        assert((s + t).subrange(i, i + ph.len() as int) =~= s.subrange(i, i + ph.len() as int));
    }
}

/// Appending the next placeholder extends a well-numbered text by one.
pub proof fn lemma_well_numbered_push_placeholder(s: Seq<char>, offset: nat, n: nat)
    requires
        well_numbered(s, offset, n),
    ensures
        well_numbered(s + placeholder_text(offset + n + 1), offset, n + 1),
{
    let ph = placeholder_text(offset + n + 1);
    let grown = s + ph;
    lemma_count_concat(s, ph);
    lemma_placeholder_count_one(offset + n + 1);
    assert forall|k: int| 0 <= k < n + 1 implies placeholder_at(
        grown,
        #[trigger] dollar_index(grown, k),
        (offset + k + 1) as nat,
    ) by {
        if k < n {
            lemma_dollar_index_append(s, ph, k);
            let i = dollar_index(s, k);
            let phk = placeholder_text((offset + k + 1) as nat);
            assert(placeholder_at(s, i, (offset + k + 1) as nat));
            assert(grown.subrange(i, i + phk.len() as int) =~= s.subrange(
                i,
                i + phk.len() as int,
            ));
        } else {
            lemma_digits_dollar_free(offset + n + 1);
            assert(grown =~= s + seq!['$'] + dec_digits(offset + n + 1));
            lemma_dollar_index_appended_marker(s, dec_digits(offset + n + 1));
            assert(dollar_index(grown, k) == s.len());
            assert(grown.subrange(s.len() as int, s.len() + ph.len() as int) =~= ph);
        }
    }
}

/// `parts` joined by `", "` separators.
pub open spec fn comma_join(parts: Seq<Seq<char>>) -> Seq<char>
    decreases parts.len(),
{
    if parts.len() == 0 {
        Seq::empty()
    } else if parts.len() == 1 {
        parts[0]
    } else {
        comma_join(parts.drop_last()) + ", "@ + parts.last()
    }
}

/// Joining one more part appends a separator (except before the first part)
/// and the part itself.
pub proof fn lemma_comma_join_step(parts: Seq<Seq<char>>, i: int)
    requires
        0 <= i < parts.len(),
    ensures
        comma_join(parts.take(i + 1)) == if i == 0 {
            parts[0]
        } else {
            comma_join(parts.take(i)) + ", "@ + parts[i]
        },
{
    let front = parts.take(i + 1);
    assert(front.drop_last() =~= parts.take(i));
    assert(front.last() == parts[i]);
    if i == 0 {
        assert(front.len() == 1);
        assert(front[0] == parts[0]);
    }
}

/// The placeholder count of each of `parts`, summed.
pub open spec fn total_placeholder_count(parts: Seq<Seq<char>>) -> nat
    decreases parts.len(),
{
    if parts.len() == 0 {
        0
    } else {
        total_placeholder_count(parts.drop_last()) + placeholder_count(parts.last())
    }
}

/// A sum of all-zero placeholder counts is zero.
pub proof fn lemma_total_count_zero(parts: Seq<Seq<char>>)
    requires
        forall|i: int| 0 <= i < parts.len() ==> placeholder_count(#[trigger] parts[i]) == 0,
    ensures
        total_placeholder_count(parts) == 0,
    decreases parts.len(),
{
    if parts.len() > 0 {
        lemma_total_count_zero(parts.drop_last());
        assert(parts.last() == parts[parts.len() - 1]);
    }
}

/// A sum of uniform placeholder counts is the count times the number of
/// parts.
pub proof fn lemma_total_count_uniform(parts: Seq<Seq<char>>, c: nat)
    requires
        forall|i: int| 0 <= i < parts.len() ==> placeholder_count(#[trigger] parts[i]) == c,
    ensures
        total_placeholder_count(parts) == parts.len() * c,
    decreases parts.len(),
{
    if parts.len() > 0 {
        lemma_total_count_uniform(parts.drop_last(), c);
        assert(parts.last() == parts[parts.len() - 1]);
        assert(parts.len() * c == (parts.len() - 1) * c + c) by (nonlinear_arith);
    }
}

pub proof fn lemma_comma_join_count(parts: Seq<Seq<char>>)
    ensures
        placeholder_count(comma_join(parts)) == total_placeholder_count(parts),
    decreases parts.len(),
{
    if parts.len() == 0 {
    } else if parts.len() == 1 {
        assert(total_placeholder_count(parts.drop_last()) == 0);
    } else {
        lemma_comma_join_count(parts.drop_last());
        lemma_count_concat(comma_join(parts.drop_last()), ", "@);
        lemma_count_concat(comma_join(parts.drop_last()) + ", "@, parts.last());
        assert(dollar_free(", "@)) by {
            reveal_strlit(", ");
        }
        lemma_count_dollar_free(", "@);
    }
}

/// An identifier wrapped in the dialect's quoting characters.
pub open spec fn quoted(name: Seq<char>) -> Seq<char> {
    seq!['"'] + name + seq!['"']
}

pub proof fn lemma_quoted_dollar_free(name: Seq<char>)
    requires
        dollar_free(name),
    ensures
        dollar_free(quoted(name)),
        placeholder_count(quoted(name)) == 0,
{
    lemma_count_dollar_free(quoted(name));
}

/// The shared sink of one walk: append-only SQL text, the ordered bind
/// parameter stream, and the advisory statement cacheability flag.
pub struct AstPass {
    sql: String,
    binds: Vec<BindValue>,
    safe_to_cache: bool,
}

impl AstPass {
    /// The SQL text accumulated so far.
    pub closed spec fn sql(&self) -> Seq<char> {
        self.sql@
    }

    /// The bind parameter stream accumulated so far, in emission order.
    pub closed spec fn binds(&self) -> Seq<BindVal> {
        self.binds@.map_values(|b: BindValue| b@)
    }

    /// False once any node has declared the statement unsafe to cache.
    pub closed spec fn safe_to_cache(&self) -> bool {
        self.safe_to_cache
    }

    /// The sink's structural invariant: its text holds exactly one
    /// placeholder per bound value, numbered by bind position, in order of
    /// appearance. Emission keeps it: literal text may not carry the
    /// placeholder marker, and registering a bound value writes the next
    /// placeholder.
    pub open spec fn numbering_ok(&self) -> bool {
        well_numbered(self.sql(), 0, self.binds().len())
    }

    /// A fresh sink: no text, no binds, cacheable by default.
    pub fn new() -> (r: AstPass)
        ensures
            r.sql() == Seq::<char>::empty(),
            r.binds() == Seq::<BindVal>::empty(),
            r.safe_to_cache(),
            r.numbering_ok(),
    {
        let r = AstPass { sql: String::new(), binds: Vec::new(), safe_to_cache: true };
        proof {
            assert(r.binds() =~= Seq::<BindVal>::empty());
            assert(r.sql() =~= Seq::<char>::empty());
        }
        r
    }

    /// Appends literal SQL text; the bind stream and the flag are untouched.
    /// The text may not carry the placeholder marker: that would break the
    /// correspondence between placeholders and bound values.
    pub fn push_sql(&mut self, sql: &str)
        requires
            dollar_free(sql@),
            old(self).numbering_ok(),
        ensures
            final(self).sql() == old(self).sql() + sql@,
            final(self).binds() == old(self).binds(),
            final(self).safe_to_cache() == old(self).safe_to_cache(),
            final(self).numbering_ok(),
    {
        proof {
            lemma_well_numbered_push_text(self.sql(), sql@, 0, self.binds().len());
        }
        self.sql.append(sql);
    }

    /// Registers one bound value and writes the positional placeholder that
    /// matches its position in the bind stream (1-based).
    pub fn push_bind_param(&mut self, value: BindValue)
        requires
            old(self).numbering_ok(),
        ensures
            final(self).sql() == old(self).sql() + placeholder_text(old(self).binds().len() + 1),
            final(self).binds() == old(self).binds().push(value@),
            final(self).safe_to_cache() == old(self).safe_to_cache(),
            final(self).numbering_ok(),
    {
        proof {
            lemma_well_numbered_push_placeholder(self.sql(), 0, self.binds().len());
        }
        let ghost prev_binds = self.binds@;
        let ghost v = value@;
        self.binds.push(value);
        proof {
            assert(self.binds@.map_values(|b: BindValue| b@) =~= prev_binds.map_values(
                |b: BindValue| b@,
            ).push(v));
        }
        proof {
            reveal_strlit("$");
            assert("$"@ =~= seq!['$']);
        }
        self.sql.append("$");
        let n: usize = self.binds.len();
        push_decimal(&mut self.sql, n);
        proof {
            assert(self.sql@ =~= old(self).sql() + placeholder_text(prev_binds.len() + 1));
        }
    }

    /// Declares the statement's text shape unstable: the walk's result must
    /// not be reused as a cached prepared statement.
    pub fn unsafe_to_cache_prepared(&mut self)
        ensures
            final(self).sql() == old(self).sql(),
            final(self).binds() == old(self).binds(),
            !final(self).safe_to_cache(),
    {
        self.safe_to_cache = false;
    }

    /// The accumulated SQL text.
    pub fn sql_str(&self) -> (r: &str)
        ensures
            r@ == self.sql(),
    {
        self.sql.as_str()
    }

    /// The accumulated bind parameters, in emission order.
    pub fn bind_values(&self) -> (r: &Vec<BindValue>)
        ensures
            r@.len() == self.binds().len(),
            forall|i: int| 0 <= i < r@.len() ==> (#[trigger] r@[i])@ == self.binds()[i],
    {
        &self.binds
    }

    /// Whether no node of the walk has objected to statement caching.
    pub fn is_safe_to_cache(&self) -> (r: bool)
        ensures
            r == self.safe_to_cache(),
    {
        self.safe_to_cache
    }
}

/// Appends an identifier wrapped in the dialect's quoting characters; no
/// binds, flag untouched.
pub fn push_quoted(out: &mut AstPass, name: &str)
    requires
        dollar_free(name@),
        old(out).numbering_ok(),
    ensures
        final(out).sql() == old(out).sql() + quoted(name@),
        final(out).binds() == old(out).binds(),
        final(out).safe_to_cache() == old(out).safe_to_cache(),
        final(out).numbering_ok(),
{
    proof {
        reveal_strlit("\"");
        assert("\""@ =~= seq!['"']);
        assert(dollar_free("\""@));
    }
    out.push_sql("\"");
    out.push_sql(name);
    out.push_sql("\"");
    proof {
        assert(out.sql() =~= old(out).sql() + quoted(name@));
    }
}

/// Appends one decimal digit character.
fn push_digit(s: &mut String, d: usize)
    requires
        d < 10,
    ensures
        final(s)@ == old(s)@ + seq![digit_char(d as nat)],
{
    if d == 0 {
        proof {
            reveal_strlit("0");
            assert("0"@ =~= seq![digit_char(0)]);
        }
        s.append("0");
    } else if d == 1 {
        proof {
            reveal_strlit("1");
            assert("1"@ =~= seq![digit_char(1)]);
        }
        s.append("1");
    } else if d == 2 {
        proof {
            reveal_strlit("2");
            assert("2"@ =~= seq![digit_char(2)]);
        }
        s.append("2");
    } else if d == 3 {
        proof {
            reveal_strlit("3");
            assert("3"@ =~= seq![digit_char(3)]);
        }
        s.append("3");
    } else if d == 4 {
        proof {
            reveal_strlit("4");
            assert("4"@ =~= seq![digit_char(4)]);
        }
        s.append("4");
    } else if d == 5 {
        proof {
            reveal_strlit("5");
            assert("5"@ =~= seq![digit_char(5)]);
        }
        s.append("5");
    } else if d == 6 {
        proof {
            reveal_strlit("6");
            assert("6"@ =~= seq![digit_char(6)]);
        }
        s.append("6");
    } else if d == 7 {
        proof {
            reveal_strlit("7");
            assert("7"@ =~= seq![digit_char(7)]);
        }
        s.append("7");
    } else if d == 8 {
        proof {
            reveal_strlit("8");
            assert("8"@ =~= seq![digit_char(8)]);
        }
        s.append("8");
    } else {
        proof {
            reveal_strlit("9");
            assert("9"@ =~= seq![digit_char(9)]);
        }
        s.append("9");
    }
}

/// Appends the decimal text of `n`, most significant digit first.
fn push_decimal(s: &mut String, n: usize)
    ensures
        final(s)@ == old(s)@ + dec_digits(n as nat),
    decreases n,
{
    if n >= 10 {
        push_decimal(s, n / 10);
        push_digit(s, n % 10);
        proof {
            assert(s@ =~= old(s)@ + dec_digits(n as nat));
        }
    } else {
        push_digit(s, n);
    }
}

/// One piece of a SQL statement: walked, it appends its text and registers
/// its bind parameters, recursing into owned children in the order the SQL
/// grammar puts them.
pub trait QueryFragment {
    /// The structural conditions under which this node emits what its
    /// specification says.
    spec fn wf(&self) -> bool;

    /// The SQL text this node emits when `offset` bound values precede it in
    /// the walk (its own placeholders are numbered from `offset + 1`).
    spec fn sql_text(&self, offset: nat) -> Seq<char>;

    /// The bound values this node contributes, in emission order.
    spec fn bind_params(&self) -> Seq<BindVal>;

    /// False when this node declares the statement's text shape unstable and
    /// therefore unsafe to cache as a prepared statement.
    spec fn preserves_cacheable(&self) -> bool;

    /// The count of positional placeholders in the emitted text equals the
    /// length of the bound-value sequence.
    proof fn placeholders_match(&self, offset: nat)
        requires
            self.wf(),
        ensures
            placeholder_count(self.sql_text(offset)) == self.bind_params().len(),
    ;

    /// Walks this node into `out`, appending exactly its text and its binds.
    fn walk_ast(&self, out: &mut AstPass)
        requires
            self.wf(),
            old(out).numbering_ok(),
        ensures
            final(out).sql() == old(out).sql() + self.sql_text(old(out).binds().len()),
            final(out).binds() == old(out).binds() + self.bind_params(),
            final(out).safe_to_cache() == (old(out).safe_to_cache()
                && self.preserves_cacheable()),
            final(out).numbering_ok(),
    ;
}

/// A table-like source of rows: provides the reference clause that names it.
pub trait QuerySource {
    /// The structural conditions under which the reference clause is emitted
    /// as specified.
    spec fn src_wf(&self) -> bool;

    /// The text of the clause that references this source.
    spec fn from_clause_text(&self) -> Seq<char>;

    /// A reference clause carries no placeholders.
    proof fn from_clause_dollar_free(&self)
        requires
            self.src_wf(),
        ensures
            dollar_free(self.from_clause_text()),
    ;

    /// Appends the reference clause; no binds, flag untouched.
    fn walk_from_clause(&self, out: &mut AstPass)
        requires
            self.src_wf(),
            old(out).numbering_ok(),
        ensures
            final(out).sql() == old(out).sql() + self.from_clause_text(),
            final(out).binds() == old(out).binds(),
            final(out).safe_to_cache() == old(out).safe_to_cache(),
            final(out).numbering_ok(),
    ;
}

/// A query with a declared output column list (its shape).
pub trait SelectQuery {
    /// The names of the columns the query produces, in order.
    spec fn output_columns(&self) -> Seq<Seq<char>>;
}

/// Walks `q` into a fresh sink and returns the completed sink: the full SQL
/// text, the bind parameter stream, and the cacheability verdict. The
/// result's placeholders are `$1` up to `$n` in order, one per bound value.
pub fn emit<Q: QueryFragment>(q: &Q) -> (r: AstPass)
    requires
        q.wf(),
    ensures
        r.sql() == q.sql_text(0),
        r.binds() == q.bind_params(),
        r.safe_to_cache() == q.preserves_cacheable(),
        r.numbering_ok(),
{
    let mut out = AstPass::new();
    q.walk_ast(&mut out);
    proof {
        assert(out.sql() =~= q.sql_text(0));
        assert(out.binds() =~= q.bind_params());
    }
    out
}

} // verus!
