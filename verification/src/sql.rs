//! Statement generation: namespace/drop/create DDL derived from a typed
//! batch's columns, the bulk-insert DML with type-driven literal formatting,
//! and a semantic model of the statement sequence showing that a load fully
//! replaces the destination table.

use vstd::prelude::*;
use vstd::string::*;
use crate::Error;
use crate::batch::{cell_fits, Cell, ColType, ColumnDef, TypedBatch};
use crate::num::int_str;
use crate::num::i64_to_string;
use crate::schema::{char_ix, find_char_from, sub_chars};
use crate::text::{chars_of, push_char, string_of};

verus! {

/// The string-literal escaping rule: every embedded delimiter (single
/// quote) is doubled, so a value cannot terminate its literal early.
pub open spec fn escape_sql(s: Seq<char>) -> Seq<char>
    decreases s.len(),
{
    if s.len() == 0 {
        Seq::empty()
    } else {
        escape_sql(s.drop_last()) + (if s.last() == '\'' {
            seq!['\'', '\'']
        } else {
            seq![s.last()]
        })
    }
}

/// The inverse of the escaping rule: every doubled delimiter collapses to
/// one.
pub open spec fn unescape_sql(s: Seq<char>) -> Seq<char>
    decreases s.len(),
{
    if s.len() == 0 {
        Seq::empty()
    } else if s.len() >= 2 && s[0] == '\'' && s[1] == '\'' {
        seq!['\''] + unescape_sql(s.skip(2))
    } else {
        seq![s[0]] + unescape_sql(s.skip(1))
    }
}

/// A non-empty escaped text decomposes from the left as its first
/// character's escaping followed by the escaping of the rest.
pub proof fn lemma_escape_left(s: Seq<char>)
    requires
        s.len() > 0,
    ensures
        escape_sql(s) == (if s[0] == '\'' {
            seq!['\'', '\'']
        } else {
            seq![s[0]]
        }) + escape_sql(s.skip(1)),
    decreases s.len(),
{
    let unit0 = if s[0] == '\'' {
        seq!['\'', '\'']
    } else {
        seq![s[0]]
    };
    if s.len() == 1 {
        assert(s.drop_last() =~= Seq::<char>::empty());
        assert(s.skip(1) =~= Seq::<char>::empty());
        assert(escape_sql(s) =~= unit0 + escape_sql(s.skip(1)));
    } else {
        let dl = s.drop_last();
        lemma_escape_left(dl);
        assert(s.skip(1).drop_last() =~= dl.skip(1));
        assert(s.skip(1).last() == s.last());
        assert(escape_sql(s.skip(1)) == escape_sql(dl.skip(1)) + (if s.last() == '\'' {
            seq!['\'', '\'']
        } else {
            seq![s.last()]
        }));
        assert(escape_sql(s) =~= unit0 + escape_sql(s.skip(1)));
    }
}

/// Unescaping an escaped text followed by anything peels off the original
/// text unchanged.
pub proof fn lemma_unescape_escape_prefix(s: Seq<char>, t: Seq<char>)
    ensures
        unescape_sql(escape_sql(s) + t) == s + unescape_sql(t),
    decreases s.len(),
{
    if s.len() == 0 {
        assert(escape_sql(s) + t =~= t);
        assert(s + unescape_sql(t) =~= unescape_sql(t));
    } else {
        lemma_escape_left(s);
        let rest = escape_sql(s.skip(1)) + t;
        lemma_unescape_escape_prefix(s.skip(1), t);
        if s[0] == '\'' {
            let w = seq!['\'', '\''] + rest;
            assert(escape_sql(s) + t =~= w);
            assert(w[0] == '\'' && w[1] == '\'');
            assert(w.skip(2) =~= rest);
            assert(unescape_sql(w) == seq!['\''] + unescape_sql(rest));
            assert(seq!['\''] + (s.skip(1) + unescape_sql(t)) =~= s + unescape_sql(t));
        } else {
            let w = seq![s[0]] + rest;
            assert(escape_sql(s) + t =~= w);
            assert(w[0] == s[0]);
            assert(w.skip(1) =~= rest);
            assert(unescape_sql(w) == seq![s[0]] + unescape_sql(rest));
            assert(seq![s[0]] + (s.skip(1) + unescape_sql(t)) =~= s + unescape_sql(t));
        }
    }
}

/// Escaping round-trip: unescaping an escaped text reproduces the original
/// exactly, for every text.
pub proof fn lemma_escape_roundtrip(s: Seq<char>)
    ensures
        unescape_sql(escape_sql(s)) == s,
{
    lemma_unescape_escape_prefix(s, Seq::empty());
    assert(escape_sql(s) + Seq::<char>::empty() =~= escape_sql(s));
    assert(s + unescape_sql(Seq::<char>::empty()) =~= s);
}

/// Appends the escaped form of `s` to `out`.
pub fn append_escaped(out: &mut String, s: &str)
    ensures
        final(out)@ == old(out)@ + escape_sql(s@),
{
    let cs: Vec<char> = chars_of(s);
    let mut i: usize = 0;
    while i < cs.len()
        invariant
            i <= cs@.len(),
            cs@ == s@,
            out@ == old(out)@ + escape_sql(s@.take(i as int)),
        decreases cs@.len() - i,
    {
        let c: char = cs[i];
        if c == '\'' {
            push_char(out, '\'');
            push_char(out, '\'');
        } else {
            push_char(out, c);
        }
        proof {
            assert(s@.take(i + 1 as int).drop_last() =~= s@.take(i as int));
            assert(s@.take(i + 1 as int).last() == s@[i as int]);
            assert(out@ =~= old(out)@ + escape_sql(s@.take(i + 1 as int)));
        }
        i += 1;
    }
    proof {
        assert(s@.take(cs@.len() as int) =~= s@);
    }
}

/// Unescapes a text: doubled delimiters collapse to one.
pub fn unescape(s: &str) -> (r: String)
    ensures
        r@ == unescape_sql(s@),
{
    let cs: Vec<char> = chars_of(s);
    let n: usize = cs.len();
    let mut out: String = String::new();
    let mut i: usize = 0;
    proof {
        assert(cs@.skip(0) =~= cs@);
    }
    while i < n
        invariant
            i <= n,
            n == cs@.len(),
            cs@ == s@,
            out@ + unescape_sql(s@.skip(i as int)) == unescape_sql(s@),
        decreases n - i,
    {
        let ghost pre = s@.skip(i as int);
        proof {
            assert(pre[0] == s@[i as int]);
            if pre.len() >= 2 {
                assert(pre[1] == s@[i + 1]);
            }
        }
        if cs[i] == '\'' && i + 1 < n {
            let c2: char = cs[i + 1];
            if c2 == '\'' {
                push_char(&mut out, '\'');
                proof {
                    assert(pre.skip(2) =~= s@.skip(i + 2 as int));
                    assert(unescape_sql(pre) == seq!['\''] + unescape_sql(s@.skip(i + 2 as int)));
                    assert(out@ + unescape_sql(s@.skip(i + 2 as int)) =~= unescape_sql(s@));
                }
                i += 2;
                continue;
            }
        }
        push_char(&mut out, cs[i]);
        proof {
            assert(pre.skip(1) =~= s@.skip(i + 1 as int));
            assert(!(pre.len() >= 2 && pre[0] == '\'' && pre[1] == '\''));
            assert(unescape_sql(pre) == seq![pre[0]] + unescape_sql(s@.skip(i + 1 as int)));
            assert(out@ + unescape_sql(s@.skip(i + 1 as int)) =~= unescape_sql(s@));
        }
        i += 1;
    }
    proof {
        assert(s@.skip(n as int) =~= Seq::<char>::empty());
        assert(out@ =~= unescape_sql(s@));
    }
    out
}

/// Escapes a text: every single quote is doubled.
pub fn escape(s: &str) -> (r: String)
    ensures
        r@ == escape_sql(s@),
{
    let mut out: String = String::new();
    append_escaped(&mut out, s);
    proof {
        assert(out@ =~= escape_sql(s@));
    }
    out
}

/// Whether `s` is a fully-qualified destination name: two non-empty
/// segments joined by exactly one dot.
pub open spec fn is_fqn(s: Seq<char>) -> bool {
    let d = char_ix(s, '.');
    &&& 0 < d
    &&& d + 1 < s.len()
    &&& char_ix(s.skip(d + 1), '.') == -1
}

/// The namespace segment of an FQN: the part after the dot, which the
/// generated create-namespace statement names.
pub open spec fn namespace_segment(s: Seq<char>) -> Seq<char>
    recommends
        is_fqn(s),
{
    s.skip(char_ix(s, '.') + 1)
}

/// Whether `s` is a well-formed FQN, executable.
pub fn check_fqn(s: &str) -> (r: bool)
    ensures
        r == is_fqn(s@),
{
    let cs: Vec<char> = chars_of(s);
    let n: usize = cs.len();
    proof {
        assert(cs@.skip(0) =~= cs@);
    }
    match find_char_from(&cs, '.', 0) {
        None => false,
        Some(d) => {
            if d == 0 || d + 1 >= n {
                false
            } else {
                find_char_from(&cs, '.', d + 1).is_none()
            }
        },
    }
}

/// The SQL type that renders a batch column type.
pub open spec fn sql_type_name(t: ColType) -> Seq<char> {
    match t {
        ColType::Utf8 => "varchar"@,
        ColType::Boolean => "bool"@,
        ColType::Int64 => "int"@,
        ColType::Float64 => "float"@,
        ColType::Date64 => "bigint"@,
    }
}

/// The SQL type that renders a batch column type, executable.
pub fn sql_type_str(t: ColType) -> (r: &'static str)
    ensures
        r@ == sql_type_name(t),
{
    match t {
        ColType::Utf8 => "varchar",
        ColType::Boolean => "bool",
        ColType::Int64 => "int",
        ColType::Float64 => "float",
        ColType::Date64 => "bigint",
    }
}

/// The create-namespace-if-absent statement.
pub open spec fn create_namespace_stmt(ns: Seq<char>) -> Seq<char> {
    "create schema if not exists \""@ + ns + "\";\n"@
}

/// The drop-table-if-exists statement.
pub open spec fn drop_table_stmt(fqn: Seq<char>) -> Seq<char> {
    "drop table if exists "@ + fqn + ";\n"@
}

/// One rendered column line of the create-table statement.
pub open spec fn col_line(c: ColumnDef, first: bool) -> Seq<char> {
    "\t"@ + (if first {
        Seq::empty()
    } else {
        ", "@
    }) + c.name@ + " "@ + sql_type_name(c.ctype) + "\n"@
}

/// The rendered column lines of the create-table statement, one per
/// column, in column order.
pub open spec fn cols_body(cols: Seq<ColumnDef>) -> Seq<char>
    decreases cols.len(),
{
    if cols.len() == 0 {
        Seq::empty()
    } else {
        cols_body(cols.drop_last()) + col_line(cols.last(), cols.len() == 1)
    }
}

/// The create-table statement.
pub open spec fn create_table_stmt(fqn: Seq<char>, cols: Seq<ColumnDef>) -> Seq<char> {
    "create table "@ + fqn + " (\n"@ + cols_body(cols) + ");\n"@
}

/// The concatenation of a sequence of texts.
pub open spec fn seq_join(ss: Seq<Seq<char>>) -> Seq<char>
    decreases ss.len(),
{
    if ss.len() == 0 {
        Seq::empty()
    } else {
        seq_join(ss.drop_last()) + ss.last()
    }
}

/// DDL column alignment: the create-table statement's body is exactly the
/// concatenation of one rendered line per batch column, in batch order —
/// its column count and order equal the typed batch's.
pub proof fn lemma_create_table_column_alignment(cols: Seq<ColumnDef>)
    ensures
        cols_body(cols) == seq_join(
            Seq::new(cols.len(), |i: int| col_line(cols[i], i == 0)),
        ),
    decreases cols.len(),
{
    let lines = Seq::new(cols.len(), |i: int| col_line(cols[i], i == 0));
    if cols.len() == 0 {
        assert(cols_body(cols) =~= seq_join(lines));
    } else {
        let dl = cols.drop_last();
        lemma_create_table_column_alignment(dl);
        let dlines = Seq::new(dl.len(), |i: int| col_line(dl[i], i == 0));
        assert(lines.drop_last() =~= dlines);
        assert(lines.last() == col_line(cols.last(), cols.len() == 1));
        assert(seq_join(lines) == seq_join(dlines) + lines.last());
    }
}

/// Appends `s` to `out` (a thin alias of string concatenation).
fn append_str(out: &mut String, s: &str)
    ensures
        final(out)@ == old(out)@ + s@,
{
    out.append(s);
}

/// Generates the three load statements for `fqn` from the batch's columns,
/// in the mandatory order: create-namespace-if-absent, drop-table-if-exists,
/// create-table with one column per batch column, in batch order.
///
/// This fixed order is what gives a load its full-replace semantics: see
/// `lemma_load_idempotent`.
pub fn generate_ddl(fqn: &String, b: &TypedBatch) -> (r: Vec<String>)
    requires
        is_fqn(fqn@),
    ensures
        r@.len() == 3,
        r@[0]@ == create_namespace_stmt(namespace_segment(fqn@)),
        r@[1]@ == drop_table_stmt(fqn@),
        r@[2]@ == create_table_stmt(fqn@, b.cols@),
{
    let cs: Vec<char> = chars_of(fqn.as_str());
    let n: usize = cs.len();
    proof {
        assert(cs@.skip(0) =~= cs@);
    }
    let d: usize = match find_char_from(&cs, '.', 0) {
        Some(j) => j,
        None => {
            proof {
                assert(false);
            }
            0
        },
    };
    let ns: String = string_of(&sub_chars(&cs, d + 1, n));
    proof {
        assert(cs@.subrange(d + 1 as int, cs@.len() as int) =~= namespace_segment(fqn@));
    }

    let mut s0: String = String::new();
    append_str(&mut s0, "create schema if not exists \"");
    append_str(&mut s0, ns.as_str());
    append_str(&mut s0, "\";\n");
    proof {
        assert(s0@ =~= create_namespace_stmt(namespace_segment(fqn@)));
    }

    let mut s1: String = String::new();
    append_str(&mut s1, "drop table if exists ");
    append_str(&mut s1, fqn.as_str());
    append_str(&mut s1, ";\n");
    proof {
        assert(s1@ =~= drop_table_stmt(fqn@));
    }

    let mut s2: String = String::new();
    append_str(&mut s2, "create table ");
    append_str(&mut s2, fqn.as_str());
    append_str(&mut s2, " (\n");
    let ghost head = "create table "@ + fqn@ + " (\n"@;
    proof {
        assert(s2@ =~= head + cols_body(b.cols@.take(0)));
        assert(cols_body(b.cols@.take(0)) =~= Seq::<char>::empty());
        assert(s2@ =~= head + cols_body(b.cols@.take(0)));
    }
    let mut i: usize = 0;
    while i < b.cols.len()
        invariant
            i <= b.cols@.len(),
            head == "create table "@ + fqn@ + " (\n"@,
            s2@ == head + cols_body(b.cols@.take(i as int)),
        decreases b.cols@.len() - i,
    {
        let c = &b.cols[i];
        append_str(&mut s2, "\t");
        if i > 0 {
            append_str(&mut s2, ", ");
        }
        append_str(&mut s2, c.name.as_str());
        append_str(&mut s2, " ");
        append_str(&mut s2, sql_type_str(c.ctype));
        append_str(&mut s2, "\n");
        proof {
            assert(b.cols@.take(i + 1 as int).drop_last() =~= b.cols@.take(i as int));
            assert(b.cols@.take(i + 1 as int).last() == b.cols@[i as int]);
            assert(col_line(b.cols@[i as int], i == 0) =~= "\t"@ + (if i == 0 {
                Seq::<char>::empty()
            } else {
                ", "@
            }) + b.cols@[i as int].name@ + " "@ + sql_type_name(b.cols@[i as int].ctype) + "\n"@);
            assert(s2@ =~= head + cols_body(b.cols@.take(i + 1 as int)));
        }
        i += 1;
    }
    append_str(&mut s2, ");\n");
    proof {
        assert(b.cols@.take(b.cols@.len() as int) =~= b.cols@);
        assert(s2@ =~= create_table_stmt(fqn@, b.cols@));
    }

    let mut r: Vec<String> = Vec::new();
    r.push(s0);
    r.push(s1);
    r.push(s2);
    r
}

/// The column-name list of the insert statement, joined by `, `.
pub open spec fn names_joined(cols: Seq<ColumnDef>) -> Seq<char>
    decreases cols.len(),
{
    if cols.len() == 0 {
        Seq::empty()
    } else if cols.len() == 1 {
        cols[0].name@
    } else {
        names_joined(cols.drop_last()) + ", "@ + cols.last().name@
    }
}

/// The rendered literal of one cell: numeric and date cells render bare,
/// textual cells render delimited with embedded delimiters doubled.
/// Boolean cells have no rendering (the generator rejects them).
pub open spec fn cell_sql(c: Cell) -> Seq<char> {
    match c {
        Cell::Int(v) => int_str(v as int),
        Cell::Float(s) => s@,
        Cell::Date(v) => int_str(v as int),
        Cell::Text(s) => "'"@ + escape_sql(s@) + "'"@,
        Cell::Bool(_) => Seq::empty(),
    }
}

/// One row's rendered value tuple, joined by `, `.
pub open spec fn cells_joined(row: Seq<Cell>) -> Seq<char>
    decreases row.len(),
{
    if row.len() == 0 {
        Seq::empty()
    } else if row.len() == 1 {
        cell_sql(row[0])
    } else {
        cells_joined(row.drop_last()) + ", "@ + cell_sql(row.last())
    }
}

/// One rendered value-tuple line of the insert statement.
pub open spec fn row_line(row: Seq<Cell>, first: bool) -> Seq<char> {
    "\t"@ + (if first {
        Seq::empty()
    } else {
        ", "@
    }) + "("@ + cells_joined(row) + ")\n"@
}

/// The rendered value-tuple lines, one per row, in row order.
pub open spec fn rows_body(rows: Seq<Vec<Cell>>) -> Seq<char>
    decreases rows.len(),
{
    if rows.len() == 0 {
        Seq::empty()
    } else {
        rows_body(rows.drop_last()) + row_line(rows.last()@, rows.len() == 1)
    }
}

/// The bulk-insert statement: the batch's column names in order, then one
/// value tuple per row, columns in the same order.
pub open spec fn insert_stmt(fqn: Seq<char>, b: TypedBatch) -> Seq<char> {
    "insert into "@ + fqn + " ("@ + names_joined(b.cols@) + ")\nvalues\n"@ + rows_body(b.rows@)
}

/// Whether some column is boolean.
pub open spec fn has_boolean_col(cols: Seq<ColumnDef>) -> bool {
    exists|c: int| 0 <= c < cols.len() && (#[trigger] cols[c]).ctype == ColType::Boolean
}

/// Appends one cell's rendered literal; `false`, with `out` unchanged,
/// for a boolean cell, which has no rendering.
fn append_cell_sql(out: &mut String, c: &Cell) -> (r: bool)
    ensures
        r ==> final(out)@ == old(out)@ + cell_sql(*c) && !(c is Bool),
        !r ==> c is Bool && final(out)@ == old(out)@,
{
    match c {
        Cell::Int(v) => {
            let s: String = i64_to_string(*v);
            out.append(s.as_str());
            true
        },
        Cell::Float(s) => {
            out.append(s.as_str());
            true
        },
        Cell::Date(v) => {
            let s: String = i64_to_string(*v);
            out.append(s.as_str());
            true
        },
        Cell::Text(s) => {
            out.append("'");
            append_escaped(out, s.as_str());
            out.append("'");
            proof {
                assert(out@ =~= old(out)@ + cell_sql(*c));
            }
            true
        },
        Cell::Bool(_) => false,
    }
}

/// Generates the bulk-insert statement for `fqn` from the batch: `None` for
/// a batch with no rows (no insert is emitted at all), `UnsupportedType`
/// exactly when rows exist and a column is boolean, which the value-tuple
/// rendering does not cover.
pub fn generate_dml(fqn: &String, b: &TypedBatch) -> (r: Result<Option<String>, Error>)
    requires
        b.wf(),
    ensures
        r is Err <==> b.rows@.len() > 0 && has_boolean_col(b.cols@),
        r matches Err(e) ==> e matches Error::UnsupportedType(_),
        r matches Ok(o) ==> (o is Some <==> b.rows@.len() > 0),
        r matches Ok(o) ==> (o matches Some(s) ==> s@ == insert_stmt(fqn@, *b)),
{
    if b.rows.len() == 0 {
        return Ok(None);
    }
    let mut out: String = String::new();
    append_str(&mut out, "insert into ");
    append_str(&mut out, fqn.as_str());
    append_str(&mut out, " (");
    let ghost pre1 = "insert into "@ + fqn@ + " ("@;
    proof {
        assert(out@ =~= pre1 + names_joined(b.cols@.take(0)));
    }
    let mut i: usize = 0;
    while i < b.cols.len()
        invariant
            i <= b.cols@.len(),
            pre1 == "insert into "@ + fqn@ + " ("@,
            out@ == pre1 + names_joined(b.cols@.take(i as int)),
        decreases b.cols@.len() - i,
    {
        if i > 0 {
            append_str(&mut out, ", ");
        }
        append_str(&mut out, b.cols[i].name.as_str());
        proof {
            assert(b.cols@.take(i + 1 as int).drop_last() =~= b.cols@.take(i as int));
            assert(b.cols@.take(i + 1 as int).last() == b.cols@[i as int]);
            if i == 0 {
                assert(b.cols@.take(1int)[0] == b.cols@[0]);
            }
            assert(out@ =~= pre1 + names_joined(b.cols@.take(i + 1 as int)));
        }
        i += 1;
    }
    append_str(&mut out, ")\nvalues\n");
    let ghost pre2 = "insert into "@ + fqn@ + " ("@ + names_joined(b.cols@) + ")\nvalues\n"@;
    proof {
        assert(b.cols@.take(b.cols@.len() as int) =~= b.cols@);
        assert(out@ =~= pre2 + rows_body(b.rows@.take(0)));
    }
    let mut rix: usize = 0;
    while rix < b.rows.len()
        invariant
            rix <= b.rows@.len(),
            b.wf(),
            pre2 == "insert into "@ + fqn@ + " ("@ + names_joined(b.cols@) + ")\nvalues\n"@,
            out@ == pre2 + rows_body(b.rows@.take(rix as int)),
            rix > 0 ==> !has_boolean_col(b.cols@),
        decreases b.rows@.len() - rix,
    {
        let row = &b.rows[rix];
        append_str(&mut out, "\t");
        if rix > 0 {
            append_str(&mut out, ", ");
        }
        append_str(&mut out, "(");
        let ghost pre3 = pre2 + rows_body(b.rows@.take(rix as int)) + "\t"@ + (if rix == 0 {
            Seq::<char>::empty()
        } else {
            ", "@
        }) + "("@;
        proof {
            assert(out@ =~= pre3 + cells_joined(row@.take(0)));
        }
        let mut cix: usize = 0;
        while cix < row.len()
            invariant
                cix <= row@.len(),
                b.wf(),
                row == &b.rows@[rix as int],
                rix < b.rows@.len(),
                row@.len() == b.cols@.len(),
                out@ == pre3 + cells_joined(row@.take(cix as int)),
                forall|c: int| 0 <= c < cix ==> (#[trigger] b.cols@[c]).ctype != ColType::Boolean,
            decreases row@.len() - cix,
        {
            if cix > 0 {
                append_str(&mut out, ", ");
            }
            let ok: bool = append_cell_sql(&mut out, &row[cix]);
            if !ok {
                proof {
                    assert(cell_fits(b.rows@[rix as int]@[cix as int], b.cols@[cix as int].ctype));
                    assert(b.cols@[cix as int].ctype == ColType::Boolean);
                    assert(has_boolean_col(b.cols@));
                }
                return Err(Error::UnsupportedType(b.cols[cix].name.clone()));
            }
            proof {
                assert(row@.take(cix + 1 as int).drop_last() =~= row@.take(cix as int));
                assert(row@.take(cix + 1 as int).last() == row@[cix as int]);
                if cix == 0 {
                    assert(row@.take(1int)[0] == row@[0]);
                }
                assert(out@ =~= pre3 + cells_joined(row@.take(cix + 1 as int)));
                assert(cell_fits(b.rows@[rix as int]@[cix as int], b.cols@[cix as int].ctype));
            }
            cix += 1;
        }
        append_str(&mut out, ")\n");
        proof {
            assert(row@.take(row@.len() as int) =~= row@);
            assert(b.rows@.take(rix + 1 as int).drop_last() =~= b.rows@.take(rix as int));
            assert(b.rows@.take(rix + 1 as int).last() == b.rows@[rix as int]);
            assert(out@ =~= pre2 + rows_body(b.rows@.take(rix as int)) + row_line(
                b.rows@[rix as int]@,
                rix == 0,
            ));
            assert(out@ =~= pre2 + rows_body(b.rows@.take(rix + 1 as int)));
            if rix == 0 {
                assert forall|c: int| 0 <= c < b.cols@.len() implies (#[trigger] b.cols@[c]).ctype
                    != ColType::Boolean by {
                    assert(cell_fits(b.rows@[0]@[c], b.cols@[c].ctype));
                }
            }
        }
        rix += 1;
    }
    proof {
        assert(b.rows@.take(b.rows@.len() as int) =~= b.rows@);
        assert(out@ =~= insert_stmt(fqn@, *b));
    }
    Ok(Some(out))
}

/// A table of the semantic store model: its columns and its rows.
#[verifier::ext_equal]
pub struct TableModel {
    pub cols: Seq<ColumnDef>,
    pub rows: Seq<Vec<Cell>>,
}

/// The store model: tables by fully-qualified name. The create-namespace
/// statement does not touch tables.
pub open spec fn apply_create_namespace(
    st: Map<Seq<char>, TableModel>,
    ns: Seq<char>,
) -> Map<Seq<char>, TableModel> {
    st
}

/// Drop-table-if-exists removes the table, if present.
pub open spec fn apply_drop_table(
    st: Map<Seq<char>, TableModel>,
    fqn: Seq<char>,
) -> Map<Seq<char>, TableModel> {
    st.remove(fqn)
}

/// Create-table installs an empty table with the given columns.
pub open spec fn apply_create_table(
    st: Map<Seq<char>, TableModel>,
    fqn: Seq<char>,
    cols: Seq<ColumnDef>,
) -> Map<Seq<char>, TableModel> {
    st.insert(fqn, TableModel { cols, rows: Seq::empty() })
}

/// A bulk insert appends its rows to an existing table.
pub open spec fn apply_insert(
    st: Map<Seq<char>, TableModel>,
    fqn: Seq<char>,
    rows: Seq<Vec<Cell>>,
) -> Map<Seq<char>, TableModel> {
    if st.dom().contains(fqn) {
        st.insert(fqn, TableModel { cols: st[fqn].cols, rows: st[fqn].rows + rows })
    } else {
        st
    }
}

/// The effect of one load's generated statements, applied in their
/// mandatory order: create-namespace, drop-table, create-table, and the
/// insert when the batch has rows.
pub open spec fn apply_load(
    st: Map<Seq<char>, TableModel>,
    fqn: Seq<char>,
    b: TypedBatch,
) -> Map<Seq<char>, TableModel> {
    let st1 = apply_create_namespace(st, namespace_segment(fqn));
    let st2 = apply_drop_table(st1, fqn);
    let st3 = apply_create_table(st2, fqn, b.cols@);
    if b.rows@.len() == 0 {
        st3
    } else {
        apply_insert(st3, fqn, b.rows@)
    }
}

/// A load fully replaces the destination: afterwards it holds exactly the
/// batch's columns and rows — never a union with prior contents — and no
/// other table is touched.
pub proof fn lemma_load_replaces(st: Map<Seq<char>, TableModel>, fqn: Seq<char>, b: TypedBatch)
    ensures
        apply_load(st, fqn, b).dom().contains(fqn),
        apply_load(st, fqn, b)[fqn].cols == b.cols@,
        apply_load(st, fqn, b)[fqn].rows == b.rows@,
        forall|k: Seq<char>| k != fqn ==> (apply_load(st, fqn, b).dom().contains(k)
            <==> st.dom().contains(k)),
        forall|k: Seq<char>| k != fqn && st.dom().contains(k) ==> apply_load(st, fqn, b)[k]
            == st[k],
{
    if b.rows@.len() == 0 {
        assert(Seq::<Vec<Cell>>::empty() =~= b.rows@);
    } else {
        assert(Seq::<Vec<Cell>>::empty() + b.rows@ =~= b.rows@);
    }
}

/// Load idempotence: a second load of the same batch against the same
/// destination leaves the store exactly as the first load did.
pub proof fn lemma_load_idempotent(st: Map<Seq<char>, TableModel>, fqn: Seq<char>, b: TypedBatch)
    ensures
        apply_load(apply_load(st, fqn, b), fqn, b) == apply_load(st, fqn, b),
{
    let once = apply_load(st, fqn, b);
    let twice = apply_load(once, fqn, b);
    lemma_load_replaces(st, fqn, b);
    lemma_load_replaces(once, fqn, b);
    assert(twice.dom() =~= once.dom());
    assert forall|k: Seq<char>| #[trigger] once.dom().contains(k) implies twice[k] == once[k] by {
        if k == fqn {
            assert(twice[fqn] =~= once[fqn]);
        }
    }
    assert(twice =~= once);
}

} // verus!
