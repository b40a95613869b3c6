//! Minimal base-query fragments for the extensions to compose with: a table
//! reference and a plain column select over one table.
//!
//! The surrounding query builder is an external collaborator; these two nodes
//! model just the capabilities the extensions consume — a query source that
//! yields a reference clause, and a selectable query with a declared output
//! column list.

use vstd::prelude::*;
use crate::ast::{AstPass, BindVal, QueryFragment, QuerySource, SelectQuery};
use crate::ast::{comma_join, dollar_free, placeholder_count, push_quoted, quoted};
use crate::ast::{
    lemma_comma_join_count, lemma_comma_join_step, lemma_count_concat, lemma_count_dollar_free,
    lemma_quoted_dollar_free, lemma_total_count_zero,
};

verus! {

/// A table, identified by its unqualified name.
#[derive(Debug, PartialEq, Eq)]
pub struct Table {
    pub name: String,
}

impl Table {
    pub fn new(name: String) -> (r: Self)
        ensures
            r == (Table { name }),
    {
        Table { name }
    }
}

impl QuerySource for Table {
    open spec fn src_wf(&self) -> bool {
        dollar_free(self.name@)
    }

    open spec fn from_clause_text(&self) -> Seq<char> {
        quoted(self.name@)
    }

    proof fn from_clause_dollar_free(&self) {
        lemma_quoted_dollar_free(self.name@);
    }

    fn walk_from_clause(&self, out: &mut AstPass) {
        push_quoted(out, self.name.as_str());
    }
}

/// The text of a column reference qualified by its table:
/// `"table"."column"`.
pub open spec fn qualified(table: Seq<char>, column: Seq<char>) -> Seq<char> {
    quoted(table) + "."@ + quoted(column)
}

pub proof fn lemma_qualified_count_zero(table: Seq<char>, column: Seq<char>)
    requires
        dollar_free(table),
        dollar_free(column),
    ensures
        placeholder_count(qualified(table, column)) == 0,
{
    lemma_quoted_dollar_free(table);
    lemma_quoted_dollar_free(column);
    assert(dollar_free("."@)) by {
        reveal_strlit(".");
    }
    lemma_count_dollar_free("."@);
    lemma_count_concat(quoted(table), "."@);
    lemma_count_concat(quoted(table) + "."@, quoted(column));
}

/// The literal texts of this module carry no placeholder marker.
proof fn lemma_select_literals_dollar_free()
    ensures
        dollar_free("SELECT "@),
        dollar_free(" FROM "@),
        dollar_free(", "@),
        dollar_free("."@),
{
    reveal_strlit("SELECT ");
    reveal_strlit(" FROM ");
    reveal_strlit(", ");
    reveal_strlit(".");
}

/// A plain select of named columns over one table.
#[derive(Debug, PartialEq, Eq)]
pub struct Select {
    pub table: Table,
    pub columns: Vec<String>,
}

impl Select {
    /// The names of the selected columns, in order.
    pub open spec fn columns_view(&self) -> Seq<Seq<char>> {
        self.columns@.map_values(|c: String| c@)
    }

    /// The qualified, quoted text of each selected column, in order.
    pub open spec fn column_parts(&self) -> Seq<Seq<char>> {
        self.columns_view().map_values(|c: Seq<char>| qualified(self.table.name@, c))
    }

    pub fn new(table: Table, columns: Vec<String>) -> (r: Self)
        ensures
            r == (Select { table, columns }),
    {
        Select { table, columns }
    }
}

impl SelectQuery for Select {
    open spec fn output_columns(&self) -> Seq<Seq<char>> {
        self.columns_view()
    }
}

impl QueryFragment for Select {
    open spec fn wf(&self) -> bool {
        &&& dollar_free(self.table.name@)
        &&& self.columns@.len() >= 1
        &&& forall|i: int|
            0 <= i < self.columns@.len() ==> dollar_free((#[trigger] self.columns@[i])@)
    }

    open spec fn sql_text(&self, offset: nat) -> Seq<char> {
        "SELECT "@ + comma_join(self.column_parts()) + " FROM "@ + quoted(self.table.name@)
    }

    open spec fn bind_params(&self) -> Seq<BindVal> {
        Seq::empty()
    }

    open spec fn preserves_cacheable(&self) -> bool {
        true
    }

    proof fn placeholders_match(&self, offset: nat) {
        let parts = self.column_parts();
        assert forall|i: int| 0 <= i < parts.len() implies placeholder_count(
            #[trigger] parts[i],
        ) == 0 by {
            lemma_qualified_count_zero(self.table.name@, self.columns_view()[i]);
        }
        lemma_total_count_zero(parts);
        lemma_comma_join_count(parts);
        assert(dollar_free("SELECT "@)) by {
            reveal_strlit("SELECT ");
        }
        assert(dollar_free(" FROM "@)) by {
            reveal_strlit(" FROM ");
        }
        lemma_count_dollar_free("SELECT "@);
        lemma_count_dollar_free(" FROM "@);
        lemma_quoted_dollar_free(self.table.name@);
        lemma_count_concat("SELECT "@, comma_join(parts));
        lemma_count_concat("SELECT "@ + comma_join(parts), " FROM "@);
        lemma_count_concat("SELECT "@ + comma_join(parts) + " FROM "@, quoted(self.table.name@));
    }

    #[verifier::loop_isolation(false)]
    #[verifier::rlimit(30)]
    fn walk_ast(&self, out: &mut AstPass) {
        let ghost parts = self.column_parts();
        let ghost base_sql = old(out).sql();
        proof {
            lemma_select_literals_dollar_free();
        }
        out.push_sql("SELECT ");
        proof {
            assert(comma_join(parts.take(0)) =~= Seq::<char>::empty());
        }
        let n: usize = self.columns.len();
        for i in 0..n
            invariant
                out.sql() == base_sql + "SELECT "@ + comma_join(parts.take(i as int)),
                out.binds() == old(out).binds(),
                out.safe_to_cache() == old(out).safe_to_cache(),
                out.numbering_ok(),
        {
            let ghost prev = out.sql();
            if i > 0 {
                out.push_sql(", ");
            }
            proof {
                assert(dollar_free((self.columns@[i as int])@));
            }
            push_quoted(out, self.table.name.as_str());
            out.push_sql(".");
            push_quoted(out, self.columns[i].as_str());
            proof {
                lemma_comma_join_step(parts, i as int);
                let q = qualified(self.table.name@, self.columns_view()[i as int]);
                assert(parts[i as int] == q);
                if i > 0 {
                    assert(out.sql() =~= prev + ", "@ + q);
                } else {
                    assert(out.sql() =~= prev + q);
                }
                assert(out.sql() =~= base_sql + "SELECT "@ + comma_join(parts.take(i as int + 1)));
            }
        }
        proof {
            assert(parts.take(n as int) =~= parts);
        }
        out.push_sql(" FROM ");
        self.table.walk_from_clause(out);
        proof {
            assert(out.sql() =~= old(out).sql() + self.sql_text(old(out).binds().len()));
            assert(out.binds() =~= old(out).binds() + self.bind_params());
        }
    }
}

} // verus!
