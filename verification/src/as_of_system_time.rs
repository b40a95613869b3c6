//! The `AS OF SYSTEM TIME` clause: a shape-transparent wrapper that walks its
//! source query verbatim, appends the clause keyword, then walks the
//! time-value expression.
//!
//! The recognized time-value expressions are leaf fragment nodes for the
//! dialect's time functions: a zero-argument call, single-argument calls
//! taking a timestamp or an interval, and two-argument variants adding a
//! boolean nearest-only flag. Each forwards its arguments as bound values in
//! left-to-right order.

use vstd::prelude::*;
use crate::ast::{AstPass, BindVal, BindValue, IntervalValue, QueryFragment, SelectQuery};
use crate::ast::{dollar_free, placeholder_count, placeholder_text};
use crate::ast::{lemma_count_concat, lemma_count_dollar_free, lemma_placeholder_count_one};

verus! {

/// A source query wrapped with an `AS OF SYSTEM TIME` clause.
///
/// `S` is the source select query; `T` is the time-value expression.
#[derive(Debug, PartialEq, Eq)]
pub struct AsOfSystemTime<S, T> {
    pub source: S,
    pub system_time: T,
}

impl<S, T> AsOfSystemTime<S, T> {
    pub fn new(source: S, system_time: T) -> (r: Self)
        ensures
            r == (AsOfSystemTime { source, system_time }),
    {
        AsOfSystemTime { source, system_time }
    }
}

/// The wrapper is shape-transparent: its output column list is its source's.
impl<S: SelectQuery, T> SelectQuery for AsOfSystemTime<S, T> {
    open spec fn output_columns(&self) -> Seq<Seq<char>> {
        self.source.output_columns()
    }
}

impl<S: SelectQuery + QueryFragment, T: QueryFragment> QueryFragment for AsOfSystemTime<S, T> {
    open spec fn wf(&self) -> bool {
        self.source.wf() && self.system_time.wf()
    }

    open spec fn sql_text(&self, offset: nat) -> Seq<char> {
        self.source.sql_text(offset) + " AS OF SYSTEM TIME "@ + self.system_time.sql_text(
            offset + self.source.bind_params().len(),
        )
    }

    open spec fn bind_params(&self) -> Seq<BindVal> {
        self.source.bind_params() + self.system_time.bind_params()
    }

    open spec fn preserves_cacheable(&self) -> bool {
        self.source.preserves_cacheable() && self.system_time.preserves_cacheable()
    }

    proof fn placeholders_match(&self, offset: nat) {
        let inner: nat = offset + self.source.bind_params().len();
        self.source.placeholders_match(offset);
        self.system_time.placeholders_match(inner);
        assert(dollar_free(" AS OF SYSTEM TIME "@)) by {
            reveal_strlit(" AS OF SYSTEM TIME ");
        }
        lemma_count_dollar_free(" AS OF SYSTEM TIME "@);
        lemma_count_concat(self.source.sql_text(offset), " AS OF SYSTEM TIME "@);
        lemma_count_concat(
            self.source.sql_text(offset) + " AS OF SYSTEM TIME "@,
            self.system_time.sql_text(inner),
        );
    }

    fn walk_ast(&self, out: &mut AstPass) {
        proof {
            lemma_clause_literals_dollar_free();
        }
        self.source.walk_ast(out);
        out.push_sql(" AS OF SYSTEM TIME ");
        self.system_time.walk_ast(out);
        proof {
            assert(out.sql() =~= old(out).sql() + self.sql_text(old(out).binds().len()));
            assert(out.binds() =~= old(out).binds() + self.bind_params());
        }
    }
}

/// The `as_of_system_time` method, attached to every query value; whether
/// the composition can be walked is checked only where the resulting node is
/// required to be a fragment.
pub trait AsOfSystemTimeDsl<T>: Sized {
    type Output;

    /// The wrapper node the method returns.
    spec fn as_of_output(self, system_time: T) -> Self::Output;

    /// Adds the `AS OF SYSTEM TIME` clause to a `SELECT` statement.
    fn as_of_system_time(self, system_time: T) -> (r: Self::Output)
        ensures
            r == self.as_of_output(system_time),
    ;
}

impl<S, T> AsOfSystemTimeDsl<T> for S {
    type Output = AsOfSystemTime<S, T>;

    open spec fn as_of_output(self, system_time: T) -> AsOfSystemTime<S, T> {
        AsOfSystemTime { source: self, system_time }
    }

    fn as_of_system_time(self, system_time: T) -> (r: AsOfSystemTime<S, T>) {
        AsOfSystemTime::new(self, system_time)
    }
}

/// The zero-argument time function `follower_read_timestamp()`.
#[derive(Debug, PartialEq, Eq, Clone, Copy)]
pub struct FollowerReadTimestamp;

/// The SQL function call `follower_read_timestamp()`.
pub fn follower_read_timestamp() -> (r: FollowerReadTimestamp)
    ensures
        r == (FollowerReadTimestamp),
{
    FollowerReadTimestamp
}

impl QueryFragment for FollowerReadTimestamp {
    open spec fn wf(&self) -> bool {
        true
    }

    open spec fn sql_text(&self, offset: nat) -> Seq<char> {
        "follower_read_timestamp()"@
    }

    open spec fn bind_params(&self) -> Seq<BindVal> {
        Seq::empty()
    }

    open spec fn preserves_cacheable(&self) -> bool {
        true
    }

    proof fn placeholders_match(&self, offset: nat) {
        assert(dollar_free("follower_read_timestamp()"@)) by {
            reveal_strlit("follower_read_timestamp()");
        }
        lemma_count_dollar_free("follower_read_timestamp()"@);
    }

    fn walk_ast(&self, out: &mut AstPass) {
        proof {
            lemma_clause_literals_dollar_free();
        }
        out.push_sql("follower_read_timestamp()");
    }
}

/// The single-argument time function `with_min_timestamp(TIMESTAMPTZ)`; the
/// timestamp is forwarded as a bound value.
#[derive(Debug, PartialEq, Eq, Clone, Copy)]
pub struct WithMinTimestamp {
    pub timestamp: i64,
}

/// The SQL function call `with_min_timestamp($timestamp)`.
pub fn with_min_timestamp(timestamp: i64) -> (r: WithMinTimestamp)
    ensures
        r == (WithMinTimestamp { timestamp }),
{
    WithMinTimestamp { timestamp }
}

impl QueryFragment for WithMinTimestamp {
    open spec fn wf(&self) -> bool {
        true
    }

    open spec fn sql_text(&self, offset: nat) -> Seq<char> {
        "with_min_timestamp("@ + placeholder_text(offset + 1) + ")"@
    }

    open spec fn bind_params(&self) -> Seq<BindVal> {
        seq![BindVal::Timestamp(self.timestamp as int)]
    }

    open spec fn preserves_cacheable(&self) -> bool {
        true
    }

    proof fn placeholders_match(&self, offset: nat) {
        assert(dollar_free("with_min_timestamp("@)) by {
            reveal_strlit("with_min_timestamp(");
        }
        lemma_one_argument_call_count("with_min_timestamp("@, offset);
    }

    fn walk_ast(&self, out: &mut AstPass) {
        proof {
            lemma_clause_literals_dollar_free();
        }
        out.push_sql("with_min_timestamp(");
        out.push_bind_param(BindValue::Timestamp(self.timestamp));
        out.push_sql(")");
        proof {
            assert(out.sql() =~= old(out).sql() + self.sql_text(old(out).binds().len()));
            assert(out.binds() =~= old(out).binds() + self.bind_params());
        }
    }
}

/// The two-argument time function
/// `with_min_timestamp(TIMESTAMPTZ, nearest_only)`; both arguments are
/// forwarded as bound values, in declared order.
#[derive(Debug, PartialEq, Eq, Clone, Copy)]
pub struct WithMinTimestampNearestOnly {
    pub timestamp: i64,
    pub nearest_only: bool,
}

/// The SQL function call `with_min_timestamp($timestamp, $nearest_only)`.
pub fn with_min_timestamp_nearest_only(timestamp: i64, nearest_only: bool) -> (r:
    WithMinTimestampNearestOnly)
    ensures
        r == (WithMinTimestampNearestOnly { timestamp, nearest_only }),
{
    WithMinTimestampNearestOnly { timestamp, nearest_only }
}

impl QueryFragment for WithMinTimestampNearestOnly {
    open spec fn wf(&self) -> bool {
        true
    }

    open spec fn sql_text(&self, offset: nat) -> Seq<char> {
        "with_min_timestamp("@ + placeholder_text(offset + 1) + ", "@ + placeholder_text(offset + 2)
            + ")"@
    }

    open spec fn bind_params(&self) -> Seq<BindVal> {
        seq![BindVal::Timestamp(self.timestamp as int), BindVal::Bool(self.nearest_only)]
    }

    open spec fn preserves_cacheable(&self) -> bool {
        true
    }

    proof fn placeholders_match(&self, offset: nat) {
        assert(dollar_free("with_min_timestamp("@)) by {
            reveal_strlit("with_min_timestamp(");
        }
        lemma_two_argument_call_count("with_min_timestamp("@, offset);
    }

    fn walk_ast(&self, out: &mut AstPass) {
        proof {
            lemma_clause_literals_dollar_free();
        }
        out.push_sql("with_min_timestamp(");
        out.push_bind_param(BindValue::Timestamp(self.timestamp));
        out.push_sql(", ");
        out.push_bind_param(BindValue::Bool(self.nearest_only));
        out.push_sql(")");
        proof {
            assert(out.sql() =~= old(out).sql() + self.sql_text(old(out).binds().len()));
            assert(out.binds() =~= old(out).binds() + self.bind_params());
        }
    }
}

/// The single-argument time function `with_max_staleness(INTERVAL)`; the
/// interval is forwarded as a bound value.
#[derive(Debug, PartialEq, Eq, Clone, Copy)]
pub struct WithMaxStaleness {
    pub interval: IntervalValue,
}

/// The SQL function call `with_max_staleness($interval)`.
pub fn with_max_staleness(interval: IntervalValue) -> (r: WithMaxStaleness)
    ensures
        r == (WithMaxStaleness { interval }),
{
    WithMaxStaleness { interval }
}

impl QueryFragment for WithMaxStaleness {
    open spec fn wf(&self) -> bool {
        true
    }

    open spec fn sql_text(&self, offset: nat) -> Seq<char> {
        "with_max_staleness("@ + placeholder_text(offset + 1) + ")"@
    }

    open spec fn bind_params(&self) -> Seq<BindVal> {
        seq![
            BindVal::Interval {
                microseconds: self.interval.microseconds as int,
                days: self.interval.days as int,
                months: self.interval.months as int,
            },
        ]
    }

    open spec fn preserves_cacheable(&self) -> bool {
        true
    }

    proof fn placeholders_match(&self, offset: nat) {
        assert(dollar_free("with_max_staleness("@)) by {
            reveal_strlit("with_max_staleness(");
        }
        lemma_one_argument_call_count("with_max_staleness("@, offset);
    }

    fn walk_ast(&self, out: &mut AstPass) {
        proof {
            lemma_clause_literals_dollar_free();
        }
        out.push_sql("with_max_staleness(");
        out.push_bind_param(BindValue::Interval(self.interval));
        out.push_sql(")");
        proof {
            assert(out.sql() =~= old(out).sql() + self.sql_text(old(out).binds().len()));
            assert(out.binds() =~= old(out).binds() + self.bind_params());
        }
    }
}

/// The two-argument time function `with_max_staleness(INTERVAL, nearest_only)`;
/// both arguments are forwarded as bound values, in declared order.
#[derive(Debug, PartialEq, Eq, Clone, Copy)]
pub struct WithMaxStalenessNearestOnly {
    pub interval: IntervalValue,
    pub nearest_only: bool,
}

/// The SQL function call `with_max_staleness($interval, $nearest_only)`.
pub fn with_max_staleness_nearest_only(interval: IntervalValue, nearest_only: bool) -> (r:
    WithMaxStalenessNearestOnly)
    ensures
        r == (WithMaxStalenessNearestOnly { interval, nearest_only }),
{
    WithMaxStalenessNearestOnly { interval, nearest_only }
}

impl QueryFragment for WithMaxStalenessNearestOnly {
    open spec fn wf(&self) -> bool {
        true
    }

    open spec fn sql_text(&self, offset: nat) -> Seq<char> {
        "with_max_staleness("@ + placeholder_text(offset + 1) + ", "@ + placeholder_text(offset + 2)
            + ")"@
    }

    open spec fn bind_params(&self) -> Seq<BindVal> {
        seq![
            BindVal::Interval {
                microseconds: self.interval.microseconds as int,
                days: self.interval.days as int,
                months: self.interval.months as int,
            },
            BindVal::Bool(self.nearest_only),
        ]
    }

    open spec fn preserves_cacheable(&self) -> bool {
        true
    }

    proof fn placeholders_match(&self, offset: nat) {
        assert(dollar_free("with_max_staleness("@)) by {
            reveal_strlit("with_max_staleness(");
        }
        lemma_two_argument_call_count("with_max_staleness("@, offset);
    }

    fn walk_ast(&self, out: &mut AstPass) {
        proof {
            lemma_clause_literals_dollar_free();
        }
        out.push_sql("with_max_staleness(");
        out.push_bind_param(BindValue::Interval(self.interval));
        out.push_sql(", ");
        out.push_bind_param(BindValue::Bool(self.nearest_only));
        out.push_sql(")");
        proof {
            assert(out.sql() =~= old(out).sql() + self.sql_text(old(out).binds().len()));
            assert(out.binds() =~= old(out).binds() + self.bind_params());
        }
    }
}

/// The literal texts of this module carry no placeholder marker.
proof fn lemma_clause_literals_dollar_free()
    ensures
        dollar_free(" AS OF SYSTEM TIME "@),
        dollar_free("follower_read_timestamp()"@),
        dollar_free("with_min_timestamp("@),
        dollar_free("with_max_staleness("@),
        dollar_free(", "@),
        dollar_free(")"@),
{
    reveal_strlit(" AS OF SYSTEM TIME ");
    reveal_strlit("follower_read_timestamp()");
    reveal_strlit("with_min_timestamp(");
    reveal_strlit("with_max_staleness(");
    reveal_strlit(", ");
    reveal_strlit(")");
}

/// A call head, one placeholder, a closing parenthesis: one placeholder.
proof fn lemma_one_argument_call_count(head: Seq<char>, offset: nat)
    requires
        dollar_free(head),
    ensures
        placeholder_count(head + placeholder_text(offset + 1) + ")"@) == 1,
{
    lemma_count_dollar_free(head);
    lemma_placeholder_count_one(offset + 1);
    assert(dollar_free(")"@)) by {
        reveal_strlit(")");
    }
    lemma_count_dollar_free(")"@);
    lemma_count_concat(head, placeholder_text(offset + 1));
    lemma_count_concat(head + placeholder_text(offset + 1), ")"@);
}

/// A call head, two placeholders with a separator, a closing parenthesis:
/// two placeholders.
proof fn lemma_two_argument_call_count(head: Seq<char>, offset: nat)
    requires
        dollar_free(head),
    ensures
        placeholder_count(
            head + placeholder_text(offset + 1) + ", "@ + placeholder_text(offset + 2) + ")"@,
        ) == 2,
{
    lemma_count_dollar_free(head);
    lemma_placeholder_count_one(offset + 1);
    lemma_placeholder_count_one(offset + 2);
    assert(dollar_free(", "@)) by {
        reveal_strlit(", ");
    }
    assert(dollar_free(")"@)) by {
        reveal_strlit(")");
    }
    lemma_count_dollar_free(", "@);
    lemma_count_dollar_free(")"@);
    lemma_count_concat(head, placeholder_text(offset + 1));
    lemma_count_concat(head + placeholder_text(offset + 1), ", "@);
    lemma_count_concat(head + placeholder_text(offset + 1) + ", "@, placeholder_text(offset + 2));
    lemma_count_concat(
        head + placeholder_text(offset + 1) + ", "@ + placeholder_text(offset + 2),
        ")"@,
    );
}

/// the time-travel wrapper preserves the inner query's output column
/// list unchanged.
pub proof fn lemma_as_of_system_time_preserves_columns<S: SelectQuery, T>(q: AsOfSystemTime<S, T>)
    ensures
        q.output_columns() == q.source.output_columns(),
{
}

/// a zero-argument time function emits no bound values, and its text
/// carries no placeholder.
pub proof fn lemma_zero_argument_time_function(f: FollowerReadTimestamp, offset: nat)
    ensures
        f.bind_params() == Seq::<BindVal>::empty(),
        placeholder_count(f.sql_text(offset)) == 0,
{
    f.placeholders_match(offset);
}

/// the two-argument minimum-timestamp function emits both arguments as
/// bound values, in declared order: the timestamp first, the flag second.
pub proof fn lemma_with_min_timestamp_nearest_only_bind_order(f: WithMinTimestampNearestOnly)
    ensures
        f.bind_params() == seq![
            BindVal::Timestamp(f.timestamp as int),
            BindVal::Bool(f.nearest_only),
        ],
{
}

/// the two-argument maximum-staleness function emits both arguments as
/// bound values, in declared order: the interval first, the flag second.
pub proof fn lemma_with_max_staleness_nearest_only_bind_order(f: WithMaxStalenessNearestOnly)
    ensures
        f.bind_params() == seq![
            BindVal::Interval {
                microseconds: f.interval.microseconds as int,
                days: f.interval.days as int,
                months: f.interval.months as int,
            },
            BindVal::Bool(f.nearest_only),
        ],
{
}

} // verus!
