//! The `UPSERT` statement: a two-stage builder that first captures the
//! target table, then attaches a record set and yields the complete
//! statement node.
//!
//! The emitted column/value-list shape varies with the record set's size, so
//! a walk of the statement always clears the sink's cacheability flag. An
//! empty record set still emits a syntactically valid statement: just the
//! keyword and the table reference, with no trailing clause.

use vstd::prelude::*;
use crate::ast::{AstPass, BindVal, BindValue, QueryFragment, QuerySource};
use crate::ast::{comma_join, dollar_free, placeholder_count, placeholder_text, push_quoted, quoted};
use crate::ast::{
    lemma_comma_join_count, lemma_comma_join_step, lemma_count_concat, lemma_count_dollar_free,
    lemma_placeholder_count_one, lemma_quoted_dollar_free, lemma_total_count_uniform,
    lemma_total_count_zero,
};

verus! {

/// Starts an upsert statement against `target`; attach the records with
/// [`IncompleteUpsertStatement::values`].
pub fn upsert_into<T>(target: T) -> (r: IncompleteUpsertStatement<T>)
    ensures
        r == (IncompleteUpsertStatement { target }),
{
    IncompleteUpsertStatement::new(target)
}

/// The structure returned by [`upsert_into`]: an upsert with its target
/// captured but no record set attached yet.
#[derive(Debug, Clone, Copy, PartialEq, Eq)]
#[must_use]
pub struct IncompleteUpsertStatement<T> {
    pub target: T,
}

impl<T> IncompleteUpsertStatement<T> {
    pub fn new(target: T) -> (r: Self)
        ensures
            r == (IncompleteUpsertStatement { target }),
    {
        IncompleteUpsertStatement { target }
    }

    /// Attaches the record set, completing the statement. No validation
    /// happens here: whether the composition can be walked is checked only
    /// where the resulting node is required to be a fragment.
    pub fn values<U>(self, records: U) -> (r: UpsertStatement<T, U>)
        ensures
            r == (UpsertStatement { target: self.target, records }),
    {
        UpsertStatement::new(self.target, records)
    }
}

/// A fully constructed upsert statement.
///
/// `T` is the table being upserted into; `U` is the record set. Its text
/// shape depends on the record set's size, so it declares every walk's
/// result unsafe to reuse as a cached prepared statement.
#[derive(Debug, Clone, Copy, PartialEq, Eq)]
#[must_use]
pub struct UpsertStatement<T, U> {
    pub target: T,
    pub records: U,
}

impl<T, U> UpsertStatement<T, U> {
    pub fn new(target: T, records: U) -> (r: Self)
        ensures
            r == (UpsertStatement { target, records }),
    {
        UpsertStatement { target, records }
    }
}

impl<T: QuerySource, U: QueryFragment> QueryFragment for UpsertStatement<T, U> {
    open spec fn wf(&self) -> bool {
        self.target.src_wf() && self.records.wf()
    }

    open spec fn sql_text(&self, offset: nat) -> Seq<char> {
        "UPSERT INTO "@ + self.target.from_clause_text() + " "@ + self.records.sql_text(offset)
    }

    open spec fn bind_params(&self) -> Seq<BindVal> {
        self.records.bind_params()
    }

    open spec fn preserves_cacheable(&self) -> bool {
        false
    }

    proof fn placeholders_match(&self, offset: nat) {
        self.records.placeholders_match(offset);
        self.target.from_clause_dollar_free();
        assert(dollar_free("UPSERT INTO "@)) by {
            reveal_strlit("UPSERT INTO ");
        }
        assert(dollar_free(" "@)) by {
            reveal_strlit(" ");
        }
        lemma_count_dollar_free("UPSERT INTO "@);
        lemma_count_dollar_free(" "@);
        lemma_count_dollar_free(self.target.from_clause_text());
        lemma_count_concat("UPSERT INTO "@, self.target.from_clause_text());
        lemma_count_concat("UPSERT INTO "@ + self.target.from_clause_text(), " "@);
        lemma_count_concat(
            "UPSERT INTO "@ + self.target.from_clause_text() + " "@,
            self.records.sql_text(offset),
        );
    }

    fn walk_ast(&self, out: &mut AstPass) {
        proof {
            lemma_upsert_literals_dollar_free();
        }
        out.unsafe_to_cache_prepared();
        out.push_sql("UPSERT INTO ");
        self.target.walk_from_clause(out);
        out.push_sql(" ");
        self.records.walk_ast(out);
        proof {
            assert(out.sql() =~= old(out).sql() + self.sql_text(old(out).binds().len()));
            assert(out.binds() =~= old(out).binds() + self.bind_params());
            assert(!out.safe_to_cache());
        }
    }
}

/// A record set: a homogeneous ordered sequence of row values conforming to
/// the target's column set. Walked, it emits the column list and one
/// parenthesized value tuple per record, comma-separated, each tuple's
/// values becoming bound parameters in column-declaration order; an empty
/// record set emits nothing.
#[derive(Debug, PartialEq, Eq)]
pub struct InsertValues {
    pub columns: Vec<String>,
    pub rows: Vec<Vec<BindValue>>,
}

impl InsertValues {
    /// The column names, in declaration order.
    pub open spec fn columns_view(&self) -> Seq<Seq<char>> {
        self.columns@.map_values(|c: String| c@)
    }

    /// The rows as sequences of bind-value models, in input order.
    pub open spec fn rows_view(&self) -> Seq<Seq<BindVal>> {
        self.rows@.map_values(|r: Vec<BindValue>| r@.map_values(|b: BindValue| b@))
    }

    /// An empty record set over the given columns.
    pub fn new(columns: Vec<String>) -> (r: Self)
        ensures
            r.columns@ == columns@,
            r.rows@.len() == 0,
    {
        InsertValues { columns, rows: Vec::new() }
    }

    /// Appends one record; its values must conform to the column set.
    pub fn push_row(&mut self, row: Vec<BindValue>)
        requires
            row@.len() == old(self).columns@.len(),
        ensures
            final(self).columns@ == old(self).columns@,
            final(self).rows@ == old(self).rows@.push(row),
    {
        self.rows.push(row);
    }

    /// Walks record `j` as one parenthesized value tuple.
    #[verifier::loop_isolation(false)]
    #[verifier::rlimit(30)]
    fn walk_tuple(&self, j: usize, out: &mut AstPass)
        requires
            self.wf(),
            j < self.rows@.len(),
            old(out).numbering_ok(),
        ensures
            final(out).sql() == old(out).sql() + tuple_text(
                old(out).binds().len(),
                self.columns@.len(),
            ),
            final(out).binds() == old(out).binds() + self.rows_view()[j as int],
            final(out).safe_to_cache() == old(out).safe_to_cache(),
            final(out).numbering_ok(),
    {
        let ghost start = old(out).binds().len();
        let ghost arity = self.columns@.len();
        let ghost phparts = Seq::new(arity, |k: int| placeholder_text((start + k + 1) as nat));
        proof {
            lemma_upsert_literals_dollar_free();
        }
        out.push_sql("(");
        proof {
            assert(comma_join(phparts.take(0)) =~= Seq::<char>::empty());
        }
        let row: &Vec<BindValue> = &self.rows[j];
        let m: usize = row.len();
        for k in 0..m
            invariant
                out.sql() == old(out).sql() + "("@ + comma_join(phparts.take(k as int)),
                out.binds() == old(out).binds() + row@.map_values(|b: BindValue| b@).take(k as int),
                out.safe_to_cache() == old(out).safe_to_cache(),
                out.numbering_ok(),
        {
            if k > 0 {
                out.push_sql(", ");
            }
            out.push_bind_param(row[k].clone());
            proof {
                lemma_comma_join_step(phparts, k as int);
                assert(out.sql() =~= old(out).sql() + "("@ + comma_join(phparts.take(k as int + 1)));
                assert(out.binds() =~= old(out).binds() + row@.map_values(|b: BindValue| b@).take(
                    k as int + 1,
                ));
            }
        }
        out.push_sql(")");
        proof {
            assert(phparts.take(m as int) =~= phparts);
            assert(row@.map_values(|b: BindValue| b@).take(m as int) =~= self.rows_view()[j as int]);
            assert(out.sql() =~= old(out).sql() + tuple_text(start, arity));
        }
    }
}

/// The literal texts of this module carry no placeholder marker.
proof fn lemma_upsert_literals_dollar_free()
    ensures
        dollar_free("UPSERT INTO "@),
        dollar_free(" "@),
        dollar_free("("@),
        dollar_free(") VALUES "@),
        dollar_free(", "@),
        dollar_free(")"@),
{
    reveal_strlit("UPSERT INTO ");
    reveal_strlit(" ");
    reveal_strlit("(");
    reveal_strlit(") VALUES ");
    reveal_strlit(", ");
    reveal_strlit(")");
}

/// The text of one value tuple: `arity` placeholders numbered from
/// `start + 1`, parenthesized and comma-separated.
pub open spec fn tuple_text(start: nat, arity: nat) -> Seq<char> {
    "("@ + comma_join(Seq::new(arity, |k: int| placeholder_text((start + k + 1) as nat)))
        + ")"@
}

/// The texts of the value tuples of `nrows` records of `arity` values each,
/// placeholders numbered row-major from `offset + 1`.
pub open spec fn emitted_tuples(offset: nat, arity: nat, nrows: nat) -> Seq<Seq<char>> {
    Seq::new(nrows, |j: int| tuple_text((offset + j * arity) as nat, arity))
}

/// The bound values of `rows`, concatenated in input order.
pub open spec fn rows_binds(rows: Seq<Seq<BindVal>>) -> Seq<BindVal>
    decreases rows.len(),
{
    if rows.len() == 0 {
        Seq::empty()
    } else {
        rows_binds(rows.drop_last()) + rows.last()
    }
}

/// Taking one more row appends exactly that row's values.
pub proof fn lemma_rows_binds_step(rows: Seq<Seq<BindVal>>, j: int)
    requires
        0 <= j < rows.len(),
    ensures
        rows_binds(rows.take(j + 1)) == rows_binds(rows.take(j)) + rows[j],
{
    assert(rows.take(j + 1).drop_last() =~= rows.take(j));
    assert(rows.take(j + 1).last() == rows[j]);
}

/// Rows of uniform arity contribute rows × arity bound values.
pub proof fn lemma_rows_binds_len(rows: Seq<Seq<BindVal>>, arity: nat)
    requires
        forall|j: int| 0 <= j < rows.len() ==> (#[trigger] rows[j]).len() == arity,
    ensures
        rows_binds(rows).len() == rows.len() * arity,
    decreases rows.len(),
{
    if rows.len() > 0 {
        lemma_rows_binds_len(rows.drop_last(), arity);
        assert(rows.last() == rows[rows.len() - 1]);
        assert(rows.len() * arity == (rows.len() - 1) * arity + arity) by (nonlinear_arith);
    }
}

/// One value tuple carries exactly `arity` placeholders.
pub proof fn lemma_tuple_text_count(start: nat, arity: nat)
    ensures
        placeholder_count(tuple_text(start, arity)) == arity,
{
    let parts = Seq::new(arity, |k: int| placeholder_text((start + k + 1) as nat));
    assert forall|k: int| 0 <= k < parts.len() implies placeholder_count(#[trigger] parts[k]) == 1 by {
        lemma_placeholder_count_one((start + k + 1) as nat);
    }
    lemma_total_count_uniform(parts, 1);
    lemma_comma_join_count(parts);
    assert(dollar_free("("@)) by {
        reveal_strlit("(");
    }
    assert(dollar_free(")"@)) by {
        reveal_strlit(")");
    }
    lemma_count_dollar_free("("@);
    lemma_count_dollar_free(")"@);
    lemma_count_concat("("@, comma_join(parts));
    lemma_count_concat("("@ + comma_join(parts), ")"@);
}

impl QueryFragment for InsertValues {
    open spec fn wf(&self) -> bool {
        &&& self.columns@.len() >= 1
        &&& forall|i: int|
            0 <= i < self.columns@.len() ==> dollar_free((#[trigger] self.columns@[i])@)
        &&& forall|j: int|
            0 <= j < self.rows@.len() ==> (#[trigger] self.rows@[j])@.len() == self.columns@.len()
    }

    open spec fn sql_text(&self, offset: nat) -> Seq<char> {
        if self.rows@.len() == 0 {
            Seq::empty()
        } else {
            "("@ + comma_join(self.columns_view().map_values(|c: Seq<char>| quoted(c)))
                + ") VALUES "@ + comma_join(
                emitted_tuples(offset, self.columns@.len(), self.rows@.len()),
            )
        }
    }

    open spec fn bind_params(&self) -> Seq<BindVal> {
        rows_binds(self.rows_view())
    }

    open spec fn preserves_cacheable(&self) -> bool {
        true
    }

    proof fn placeholders_match(&self, offset: nat) {
        let arity: nat = self.columns@.len();
        let nrows: nat = self.rows@.len();
        assert forall|j: int| 0 <= j < self.rows_view().len() implies (
        #[trigger] self.rows_view()[j]).len() == arity by {
            assert(self.rows_view()[j] == (self.rows@[j])@.map_values(|b: BindValue| b@));
        }
        lemma_rows_binds_len(self.rows_view(), arity);
        if nrows == 0 {
            assert(placeholder_count(Seq::<char>::empty()) == 0);
        } else {
            let colparts = self.columns_view().map_values(|c: Seq<char>| quoted(c));
            assert forall|i: int| 0 <= i < colparts.len() implies placeholder_count(
                #[trigger] colparts[i],
            ) == 0 by {
                assert(colparts[i] == quoted((self.columns@[i])@));
                lemma_quoted_dollar_free((self.columns@[i])@);
            }
            lemma_total_count_zero(colparts);
            lemma_comma_join_count(colparts);
            let tparts = emitted_tuples(offset, arity, nrows);
            assert forall|j: int| 0 <= j < tparts.len() implies placeholder_count(
                #[trigger] tparts[j],
            ) == arity by {
                lemma_tuple_text_count((offset + j * arity) as nat, arity);
            }
            lemma_total_count_uniform(tparts, arity);
            lemma_comma_join_count(tparts);
            assert(dollar_free("("@)) by {
                reveal_strlit("(");
            }
            assert(dollar_free(") VALUES "@)) by {
                reveal_strlit(") VALUES ");
            }
            lemma_count_dollar_free("("@);
            lemma_count_dollar_free(") VALUES "@);
            lemma_count_concat("("@, comma_join(colparts));
            lemma_count_concat("("@ + comma_join(colparts), ") VALUES "@);
            lemma_count_concat("("@ + comma_join(colparts) + ") VALUES "@, comma_join(tparts));
        }
    }

    #[verifier::loop_isolation(false)]
    #[verifier::rlimit(50)]
    fn walk_ast(&self, out: &mut AstPass) {
        let ghost offset = old(out).binds().len();
        let ghost arity = self.columns@.len();
        proof {
            lemma_upsert_literals_dollar_free();
        }
        if self.rows.len() == 0 {
            proof {
                assert(out.sql() =~= old(out).sql() + self.sql_text(offset));
                assert(rows_binds(self.rows_view()) =~= Seq::<BindVal>::empty());
                assert(out.binds() =~= old(out).binds() + self.bind_params());
            }
            return ;
        }
        let ghost base_sql = old(out).sql();
        let ghost colparts = self.columns_view().map_values(|c: Seq<char>| quoted(c));
        out.push_sql("(");
        proof {
            assert(comma_join(colparts.take(0)) =~= Seq::<char>::empty());
        }
        let n: usize = self.columns.len();
        for i in 0..n
            invariant
                out.sql() == base_sql + "("@ + comma_join(colparts.take(i as int)),
                out.binds() == old(out).binds(),
                out.safe_to_cache() == old(out).safe_to_cache(),
                out.numbering_ok(),
        {
            if i > 0 {
                out.push_sql(", ");
            }
            proof {
                assert(dollar_free((self.columns@[i as int])@));
            }
            push_quoted(out, self.columns[i].as_str());
            proof {
                lemma_comma_join_step(colparts, i as int);
                assert(colparts[i as int] == quoted((self.columns@[i as int])@));
                assert(out.sql() =~= base_sql + "("@ + comma_join(colparts.take(i as int + 1)));
            }
        }
        proof {
            assert(colparts.take(n as int) =~= colparts);
        }
        out.push_sql(") VALUES ");
        let ghost mid_sql = out.sql();
        let ghost tparts = emitted_tuples(offset, arity, self.rows@.len());
        proof {
            assert(comma_join(tparts.take(0)) =~= Seq::<char>::empty());
            assert(rows_binds(self.rows_view().take(0)) =~= Seq::<BindVal>::empty());
        }
        let r: usize = self.rows.len();
        for j in 0..r
            invariant
                out.sql() == mid_sql + comma_join(tparts.take(j as int)),
                out.binds() == old(out).binds() + rows_binds(self.rows_view().take(j as int)),
                out.binds().len() == offset + j * arity,
                out.safe_to_cache() == old(out).safe_to_cache(),
                out.numbering_ok(),
        {
            if j > 0 {
                out.push_sql(", ");
            }
            self.walk_tuple(j, out);
            proof {
                lemma_comma_join_step(tparts, j as int);
                lemma_rows_binds_step(self.rows_view(), j as int);
                assert(tparts[j as int] == tuple_text((offset + j * arity) as nat, arity));
                assert(out.sql() =~= mid_sql + comma_join(tparts.take(j as int + 1)));
                assert(out.binds() =~= old(out).binds() + rows_binds(
                    self.rows_view().take(j as int + 1),
                ));
                assert(self.rows_view()[j as int].len() == arity) by {
                    assert(self.rows_view()[j as int] == (self.rows@[j as int])@.map_values(
                        |b: BindValue| b@,
                    ));
                }
                assert((j + 1) * arity == j * arity + arity) by (nonlinear_arith);
            }
        }
        proof {
            assert(tparts.take(r as int) =~= tparts);
            assert(self.rows_view().take(r as int) =~= self.rows_view());
            assert(out.sql() =~= old(out).sql() + self.sql_text(offset));
        }
    }
}

/// for every record set, the emitted value list holds one tuple per
/// input record, each tuple carries exactly as many placeholders as there
/// are columns, and the bound values number records × columns, in row-major,
/// column-declaration order.
pub proof fn lemma_value_tuples_match_records(v: InsertValues, offset: nat)
    requires
        v.wf(),
    ensures
        emitted_tuples(offset, v.columns@.len(), v.rows@.len()).len() == v.rows@.len(),
        forall|j: int|
            0 <= j < v.rows@.len() ==> placeholder_count(
                #[trigger] emitted_tuples(offset, v.columns@.len(), v.rows@.len())[j],
            ) == v.columns@.len(),
        v.bind_params().len() == v.rows@.len() * v.columns@.len(),
{
    let arity: nat = v.columns@.len();
    let tparts = emitted_tuples(offset, arity, v.rows@.len());
    assert forall|j: int| 0 <= j < v.rows@.len() implies placeholder_count(#[trigger] tparts[j])
        == arity by {
        lemma_tuple_text_count((offset + j * arity) as nat, arity);
    }
    assert forall|j: int| 0 <= j < v.rows_view().len() implies (#[trigger] v.rows_view()[j]).len()
        == arity by {
        assert(v.rows_view()[j] == (v.rows@[j])@.map_values(|b: BindValue| b@));
    }
    lemma_rows_binds_len(v.rows_view(), arity);
}

/// an empty record set still yields a syntactically valid statement —
/// only the statement keyword and the table reference are emitted, with an
/// empty bound-value sequence, and the statement is never cacheable.
pub proof fn lemma_upsert_empty_record_set<T: QuerySource>(
    s: UpsertStatement<T, InsertValues>,
    offset: nat,
)
    requires
        s.records.rows@.len() == 0,
    ensures
        s.sql_text(offset) == "UPSERT INTO "@ + s.target.from_clause_text() + " "@,
        s.bind_params() == Seq::<BindVal>::empty(),
        !s.preserves_cacheable(),
{
    assert(s.records.rows_view().len() == 0);
    assert(s.records.sql_text(offset) == Seq::<char>::empty());
    assert(s.sql_text(offset) =~= "UPSERT INTO "@ + s.target.from_clause_text() + " "@);
    assert(s.bind_params() =~= Seq::<BindVal>::empty());
}

} // verus!
