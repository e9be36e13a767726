//! The typed batch builder: selects a parser by file extension or
//! content-type subtype, parses the raw text, and coerces each raw value
//! into the schema-declared primitive type, in schema field order.
//!
//! Only the first batch of records is read: a source with more than
//! `MAX_BATCH_ROWS` records has the rest ignored, and callers needing full
//! ingestion re-invoke per chunk.

use vstd::prelude::*;
use crate::Error;
use crate::batch::{
    cell_fits, cell_represents, coerce_text, coercible, col_of_field, columns_of_schema, Cell,
    ColumnDef, TypedBatch,
};
use crate::csv::{csv_rows, parse_csv, rows_view};
use crate::json::{json_records, parse_json, recs_view, JKind};
use crate::num::{in_i64_range, int_literal_val, is_float_literal, is_int_literal, parse_i64,
    check_float_literal};
use crate::schema::{char_ix, find_char_from, sub_chars, MapFieldType, Schema};
use crate::text::{chars_of, str_eq, string_eq_str, string_of};

verus! {

/// The number of records one batch reads at most.
pub const MAX_BATCH_ROWS: usize = 1024;

/// The source formats the batch builder parses.
#[derive(Debug, Clone, Copy, PartialEq, Eq, Structural)]
pub enum SourceFormat {
    Csv,
    Json,
}

/// The parser a file extension selects: `csv`, `json` or `jsonl`.
pub open spec fn format_of_extension(s: Seq<char>) -> Option<SourceFormat> {
    if s == "csv"@ {
        Some(SourceFormat::Csv)
    } else if s == "json"@ || s == "jsonl"@ {
        Some(SourceFormat::Json)
    } else {
        None
    }
}

/// Selects a parser by file extension; `UnsupportedFormat`, naming the
/// extension, exactly when none matches.
pub fn format_for_extension(ext: &str) -> (r: Result<SourceFormat, Error>)
    ensures
        r matches Ok(f) ==> format_of_extension(ext@) == Some(f),
        r is Err <==> format_of_extension(ext@) is None,
        r matches Err(e) ==> e matches Error::UnsupportedFormat(_),
{
    if str_eq(ext, "csv") {
        Ok(SourceFormat::Csv)
    } else if str_eq(ext, "json") || str_eq(ext, "jsonl") {
        Ok(SourceFormat::Json)
    } else {
        Err(Error::UnsupportedFormat(ext.to_owned()))
    }
}

/// The subtype of a content-type header value: parameters after `;` are
/// dropped and the part after `/` is the subtype.
pub open spec fn content_subtype(s: Seq<char>) -> Option<Seq<char>> {
    let semi = char_ix(s, ';');
    let head = if semi < 0 {
        s
    } else {
        s.take(semi)
    };
    let slash = char_ix(head, '/');
    if slash < 0 {
        None
    } else {
        Some(head.skip(slash + 1))
    }
}

/// The parser a content-type subtype selects: `csv` and `plain` choose the
/// CSV parser, `json` the JSON parser.
pub open spec fn format_of_content_type(s: Seq<char>) -> Option<SourceFormat> {
    match content_subtype(s) {
        None => None,
        Some(sub) => if sub == "csv"@ || sub == "plain"@ {
            Some(SourceFormat::Csv)
        } else if sub == "json"@ {
            Some(SourceFormat::Json)
        } else {
            None
        },
    }
}

/// Selects a parser from a response's content-type value;
/// `UnsupportedFormat` exactly when the subtype is unknown or missing.
pub fn format_for_content_type(ct: &str) -> (r: Result<SourceFormat, Error>)
    ensures
        r matches Ok(f) ==> format_of_content_type(ct@) == Some(f),
        r is Err <==> format_of_content_type(ct@) is None,
        r matches Err(e) ==> e matches Error::UnsupportedFormat(_),
{
    let cs: Vec<char> = chars_of(ct);
    let n: usize = cs.len();
    proof {
        assert(cs@.skip(0) =~= cs@);
    }
    let head_end: usize = match find_char_from(&cs, ';', 0) {
        Some(j) => j,
        None => n,
    };
    let head: Vec<char> = sub_chars(&cs, 0, head_end);
    proof {
        if char_ix(ct@, ';') < 0 {
            assert(head@ =~= ct@);
        } else {
            assert(head@ =~= ct@.take(char_ix(ct@, ';')));
        }
        assert(head@.skip(0) =~= head@);
    }
    match find_char_from(&head, '/', 0) {
        None => Err(Error::UnsupportedFormat(ct.to_owned())),
        Some(j) => {
            let sub: String = string_of(&sub_chars(&head, j + 1, head.len()));
            proof {
                assert(head@.subrange(j + 1 as int, head@.len() as int) =~= head@.skip(j + 1));
            }
            if string_eq_str(&sub, "csv") || string_eq_str(&sub, "plain") {
                Ok(SourceFormat::Csv)
            } else if string_eq_str(&sub, "json") {
                Ok(SourceFormat::Json)
            } else {
                Err(Error::UnsupportedFormat(sub))
            }
        },
    }
}

/// The parsed CSV rows, header included (empty when malformed).
pub open spec fn csv_all(s: Seq<char>) -> Seq<Seq<Seq<char>>> {
    match csv_rows(s) {
        Some(v) => v,
        None => Seq::empty(),
    }
}

/// The data rows read into one batch: everything after the header row,
/// capped at `MAX_BATCH_ROWS`.
pub open spec fn csv_data(s: Seq<char>) -> Seq<Seq<Seq<char>>> {
    let data = csv_all(s).skip(1);
    if data.len() > 1024 {
        data.take(1024)
    } else {
        data
    }
}

/// Whether every data row has one value per schema field and every value
/// coerces at its field's declared type.
pub open spec fn csv_rows_coercible(data: Seq<Seq<Seq<char>>>, schema: Schema) -> bool {
    forall|r: int| 0 <= r < data.len() ==> (#[trigger] data[r]).len() == schema.fields@.len()
        && forall|c: int| 0 <= c < schema.fields@.len() ==> coercible(
        #[trigger] data[r][c],
        schema.fields@[c].data_type,
    )
}

/// Whether every data row has exactly one value per schema field.
pub open spec fn csv_widths_ok(data: Seq<Seq<Seq<char>>>, schema: Schema) -> bool {
    forall|r: int| 0 <= r < data.len() ==> (#[trigger] data[r]).len() == schema.fields@.len()
}

/// Whether an error names an offending data cell: some value that does not
/// coerce at its field's declared type, under that field's column name.
pub open spec fn names_offending_cell(
    field: Seq<char>,
    raw: Seq<char>,
    data: Seq<Seq<Seq<char>>>,
    schema: Schema,
) -> bool {
    exists|r: int, c: int|
        0 <= r < data.len() && 0 <= c < schema.fields@.len() && !coercible(
            #[trigger] data[r][c],
            schema.fields@[c].data_type,
        ) && field == schema.fields@[c].name@ && raw == data[r][c]
}

/// Whether a CSV text ingests without error against the schema: well
/// formed, a header row present, and every data value coercible.
pub open spec fn csv_ingest_ok(s: Seq<char>, schema: Schema) -> bool {
    &&& csv_rows(s) is Some
    &&& csv_all(s).len() >= 1
    &&& csv_rows_coercible(csv_data(s), schema)
}

/// Whether a batch carries the schema's columns and represents the given
/// raw data rows.
pub open spec fn batch_matches(b: TypedBatch, data: Seq<Seq<Seq<char>>>, schema: Schema) -> bool {
    &&& b.wf()
    &&& b.cols@.len() == schema.fields@.len()
    &&& forall|c: int| 0 <= c < schema.fields@.len() ==> (#[trigger] b.cols@[c]).name@
        == schema.fields@[c].name@ && b.cols@[c].ctype == col_of_field(
        schema.fields@[c].data_type,
    )
    &&& b.rows@.len() == data.len()
    &&& forall|r: int, c: int|
        0 <= r < data.len() && 0 <= c < schema.fields@.len() ==> cell_represents(
            #[trigger] b.rows@[r]@[c],
            data[r][c],
            schema.fields@[c].data_type,
        )
}

/// Ingests a CSV text: the first row is the header (skipped), each later
/// row yields one batch row with exactly one coerced value per schema
/// field, in schema order. `UnsupportedFormat` for a malformed text, a
/// missing header or a row of the wrong width; `TypeMismatch`, naming the
/// field and raw value, for an uncoercible value.
pub fn ingest_csv(content: &str, schema: &Schema) -> (r: Result<TypedBatch, Error>)
    ensures
        r is Ok <==> csv_ingest_ok(content@, *schema),
        r matches Ok(b) ==> batch_matches(b, csv_data(content@), *schema),
        r matches Err(e) ==> (e matches Error::UnsupportedFormat(_) || e
            matches Error::TypeMismatch { .. }),
        csv_rows(content@) is Some && csv_all(content@).len() >= 1 && csv_widths_ok(
            csv_data(content@),
            *schema,
        ) && !csv_rows_coercible(csv_data(content@), *schema) ==> (r matches Err(e) && e
            matches Error::TypeMismatch { field, raw } && names_offending_cell(
            field@,
            raw@,
            csv_data(content@),
            *schema,
        )),
{
    let all: Vec<Vec<String>> = match parse_csv(content) {
        Ok(v) => v,
        Err(e) => {
            return Err(e);
        },
    };
    if all.len() == 0 {
        return Err(Error::UnsupportedFormat("source text has no header row".to_owned()));
    }
    let ghost data = csv_data(content@);
    let nf: usize = schema.fields.len();
    let cols: Vec<ColumnDef> = columns_of_schema(schema);
    let mut rows: Vec<Vec<Cell>> = Vec::new();
    let mut r: usize = 1;
    let end: usize = if all.len() - 1 > MAX_BATCH_ROWS {
        1 + MAX_BATCH_ROWS
    } else {
        all.len()
    };
    proof {
        assert(rows_view(all@) == csv_all(content@));
        assert(data.len() == end - 1);
        assert forall|k: int| 0 <= k < data.len() implies #[trigger] data[k] == rows_view(all@)[k
            + 1] by {
            assert(csv_all(content@).skip(1)[k] == csv_all(content@)[k + 1]);
        }
    }
    while r < end
        invariant
            1 <= r <= end,
            end <= all@.len(),
            end - 1 == data.len(),
            nf == schema.fields@.len(),
            rows_view(all@) == csv_all(content@),
            data == csv_data(content@),
            forall|k: int| 0 <= k < data.len() ==> #[trigger] data[k] == rows_view(all@)[k + 1],
            rows@.len() == r - 1,
            forall|k: int| 0 <= k < r - 1 ==> (#[trigger] rows@[k])@.len() == nf,
            forall|k: int, c: int|
                0 <= k < r - 1 && 0 <= c < nf ==> cell_represents(
                    #[trigger] rows@[k]@[c],
                    data[k][c],
                    schema.fields@[c].data_type,
                ) && cell_fits(rows@[k]@[c], col_of_field(schema.fields@[c].data_type)),
            forall|k: int| 0 <= k < r - 1 ==> (#[trigger] data[k]).len() == nf && forall|c: int|
                0 <= c < nf ==> coercible(#[trigger] data[k][c], schema.fields@[c].data_type),
        decreases end - r,
    {
        let raw_row = &all[r];
        proof {
            assert(rows_view(all@)[r as int] == crate::extract::vals_view(all@[r as int]@));
        }
        if raw_row.len() != nf {
            proof {
                assert(data[r - 1].len() != nf);
                if csv_rows_coercible(data, *schema) {
                    assert(data[r - 1 as int].len() == nf);
                }
                if csv_widths_ok(data, *schema) {
                    assert(data[r - 1 as int].len() == nf);
                }
            }
            return Err(
                Error::UnsupportedFormat(
                    "row does not hold one value per schema field".to_owned(),
                ),
            );
        }
        let mut row: Vec<Cell> = Vec::new();
        let mut c: usize = 0;
        while c < nf
            invariant
                0 <= c <= nf,
                nf == schema.fields@.len(),
                1 <= r < end,
                end - 1 == data.len(),
                data == csv_data(content@),
                csv_rows(content@) is Some,
                csv_all(content@).len() >= 1,
                raw_row == &all@[r as int],
                raw_row@.len() == nf,
                data[r - 1 as int] == crate::extract::vals_view(raw_row@),
                row@.len() == c,
                forall|j: int| 0 <= j < c ==> cell_represents(
                    #[trigger] row@[j],
                    data[r - 1 as int][j],
                    schema.fields@[j].data_type,
                ) && cell_fits(row@[j], col_of_field(schema.fields@[j].data_type)),
                forall|j: int| 0 <= j < c ==> coercible(
                    #[trigger] data[r - 1 as int][j],
                    schema.fields@[j].data_type,
                ),
            decreases nf - c,
        {
            proof {
                assert(data[r - 1 as int][c as int] == raw_row@[c as int]@);
            }
            match coerce_text(
                &schema.fields[c].name,
                raw_row[c].clone(),
                schema.fields[c].data_type,
            ) {
                Ok(cell) => {
                    row.push(cell);
                },
                Err(e) => {
                    proof {
                        assert(!coercible(
                            data[r - 1 as int][c as int],
                            schema.fields@[c as int].data_type,
                        ));
                        if csv_rows_coercible(data, *schema) {
                            assert(data[r - 1 as int].len() == nf);
                            assert(coercible(
                                data[r - 1 as int][c as int],
                                schema.fields@[c as int].data_type,
                            ));
                        }
                        assert(e matches Error::TypeMismatch { field, raw }
                            ==> names_offending_cell(field@, raw@, data, *schema));
                    }
                    return Err(e);
                },
            }
            c += 1;
        }
        rows.push(row);
        r += 1;
    }
    let b = TypedBatch { cols, rows };
    proof {
        assert(b.wf());
        assert(csv_ingest_ok(content@, *schema));
        assert(batch_matches(b, data, *schema));
    }
    Ok(b)
}

/// The parsed records of a JSON text (empty when malformed).
pub open spec fn json_all(s: Seq<char>) -> Seq<Seq<(Seq<char>, (JKind, Seq<char>))>> {
    match json_records(s) {
        Some(v) => v,
        None => Seq::empty(),
    }
}

/// The records read into one batch, capped at `MAX_BATCH_ROWS`.
pub open spec fn json_data(s: Seq<char>) -> Seq<Seq<(Seq<char>, (JKind, Seq<char>))>> {
    if json_all(s).len() > 1024 {
        json_all(s).take(1024)
    } else {
        json_all(s)
    }
}

/// The first member of a record named `k`, if any.
pub open spec fn member_lookup(
    rec: Seq<(Seq<char>, (JKind, Seq<char>))>,
    k: Seq<char>,
) -> Option<(JKind, Seq<char>)>
    decreases rec.len(),
{
    if rec.len() == 0 {
        None
    } else if rec[0].0 == k {
        Some(rec[0].1)
    } else {
        member_lookup(rec.skip(1), k)
    }
}

/// The member value for `k`, defaulting to `null` when absent.
pub open spec fn member_of(
    rec: Seq<(Seq<char>, (JKind, Seq<char>))>,
    k: Seq<char>,
) -> (JKind, Seq<char>) {
    match member_lookup(rec, k) {
        Some(v) => v,
        None => (JKind::JNull, Seq::empty()),
    }
}

/// Whether a record value coerces at the declared field type: integers and
/// dates arrive as integral numbers (a date as its epoch milliseconds),
/// floats as numbers, strings as strings.
pub open spec fn json_coercible(v: (JKind, Seq<char>), t: MapFieldType) -> bool {
    match t {
        MapFieldType::Int => v.0 == JKind::JNum && is_int_literal(v.1) && in_i64_range(
            int_literal_val(v.1),
        ),
        MapFieldType::String => v.0 == JKind::JStr,
        MapFieldType::Float => v.0 == JKind::JNum && is_float_literal(v.1),
        MapFieldType::Date => v.0 == JKind::JNum && is_int_literal(v.1) && in_i64_range(
            int_literal_val(v.1),
        ),
    }
}

/// Whether `c` is the coercion of a record value at the field type.
pub open spec fn json_cell_matches(c: Cell, v: (JKind, Seq<char>), t: MapFieldType) -> bool {
    match t {
        MapFieldType::Int => c matches Cell::Int(x) && x as int == int_literal_val(v.1),
        MapFieldType::String => c matches Cell::Text(x) && x@ == v.1,
        MapFieldType::Float => c matches Cell::Float(x) && x@ == v.1,
        MapFieldType::Date => c matches Cell::Date(x) && x as int == int_literal_val(v.1),
    }
}

/// Whether a record carries a coercible value for the field.
pub open spec fn rec_field_ok(
    rec: Seq<(Seq<char>, (JKind, Seq<char>))>,
    f: crate::schema::SchemaField,
) -> bool {
    match member_lookup(rec, f.name@) {
        Some(v) => json_coercible(v, f.data_type),
        None => false,
    }
}

/// Whether every capped record carries a coercible value for every schema
/// field.
pub open spec fn json_recs_coercible(
    data: Seq<Seq<(Seq<char>, (JKind, Seq<char>))>>,
    schema: Schema,
) -> bool {
    forall|r: int, c: int|
        0 <= r < data.len() && 0 <= c < schema.fields@.len() ==> rec_field_ok(
            #[trigger] data[r],
            #[trigger] schema.fields@[c],
        )
}

/// Whether an error names an offending record member: some schema field
/// whose value in some record is missing or does not coerce, under that
/// field's column name, with the member's raw payload (empty when absent).
pub open spec fn names_offending_member(
    field: Seq<char>,
    raw: Seq<char>,
    data: Seq<Seq<(Seq<char>, (JKind, Seq<char>))>>,
    schema: Schema,
) -> bool {
    exists|r: int, c: int|
        0 <= r < data.len() && 0 <= c < schema.fields@.len() && !rec_field_ok(
            #[trigger] data[r],
            #[trigger] schema.fields@[c],
        ) && field == schema.fields@[c].name@ && raw == (match member_lookup(
            data[r],
            schema.fields@[c].name@,
        ) {
            Some(v) => v.1,
            None => Seq::<char>::empty(),
        })
}

/// Whether a JSON text ingests without error against the schema.
pub open spec fn json_ingest_ok(s: Seq<char>, schema: Schema) -> bool {
    &&& json_records(s) is Some
    &&& json_recs_coercible(json_data(s), schema)
}

/// Whether a batch carries the schema's columns and represents the given
/// records.
pub open spec fn json_batch_matches(
    b: TypedBatch,
    data: Seq<Seq<(Seq<char>, (JKind, Seq<char>))>>,
    schema: Schema,
) -> bool {
    &&& b.wf()
    &&& b.cols@.len() == schema.fields@.len()
    &&& forall|c: int| 0 <= c < schema.fields@.len() ==> (#[trigger] b.cols@[c]).name@
        == schema.fields@[c].name@ && b.cols@[c].ctype == col_of_field(
        schema.fields@[c].data_type,
    )
    &&& b.rows@.len() == data.len()
    &&& forall|r: int, c: int|
        0 <= r < data.len() && 0 <= c < schema.fields@.len() ==> json_cell_matches(
            #[trigger] b.rows@[r]@[c],
            member_of(data[r], schema.fields@[c].name@),
            schema.fields@[c].data_type,
        )
}

/// The first member of an owned record named `k`, if any.
fn member_lookup_exec(rec: &Vec<(String, (JKind, String))>, k: &String) -> (r: Option<
    (JKind, String),
>)
    ensures
        r is None ==> member_lookup(crate::json::rec_view(rec@), k@) is None,
        r matches Some(v) ==> member_lookup(crate::json::rec_view(rec@), k@) == Some(
            (v.0, v.1@),
        ),
{
    let ghost rv = crate::json::rec_view(rec@);
    let n: usize = rec.len();
    let mut i: usize = 0;
    proof {
        assert(rv.skip(0) =~= rv);
    }
    while i < n
        invariant
            i <= n,
            n == rec@.len(),
            rv == crate::json::rec_view(rec@),
            rv.len() == n,
            member_lookup(rv.skip(i as int), k@) == member_lookup(rv, k@),
        decreases n - i,
    {
        let m = &rec[i];
        proof {
            assert(rv[i as int] == crate::json::member_view(rec@[i as int]));
            assert(rv.skip(i as int)[0] == rv[i as int]);
            assert(rv.skip(i as int).skip(1) =~= rv.skip(i + 1 as int));
        }
        if string_eq_str(&m.0, k.as_str()) {
            return Some((m.1.0, m.1.1.clone()));
        }
        i += 1;
    }
    proof {
        assert(rv.skip(n as int) =~= Seq::<(Seq<char>, (JKind, Seq<char>))>::empty());
    }
    None
}

/// Coerces one record value into the declared field type; `TypeMismatch`,
/// naming the field and the raw value, exactly when it does not fit.
fn coerce_json(field: &String, kind: JKind, payload: &String, t: MapFieldType) -> (r: Result<
    Cell,
    Error,
>)
    ensures
        r is Ok <==> json_coercible((kind, payload@), t),
        r matches Ok(c) ==> json_cell_matches(c, (kind, payload@), t) && cell_fits(
            c,
            col_of_field(t),
        ),
        r matches Err(e) ==> (e matches Error::TypeMismatch { field: fe, raw: re } && fe@
            == field@ && re@ == payload@),
{
    match t {
        MapFieldType::Int => {
            if kind == JKind::JNum {
                let cs: Vec<char> = chars_of(payload.as_str());
                match parse_i64(&cs) {
                    Some(v) => Ok(Cell::Int(v)),
                    None => Err(
                        Error::TypeMismatch { field: field.clone(), raw: payload.clone() },
                    ),
                }
            } else {
                Err(Error::TypeMismatch { field: field.clone(), raw: payload.clone() })
            }
        },
        MapFieldType::Date => {
            if kind == JKind::JNum {
                let cs: Vec<char> = chars_of(payload.as_str());
                match parse_i64(&cs) {
                    Some(v) => Ok(Cell::Date(v)),
                    None => Err(
                        Error::TypeMismatch { field: field.clone(), raw: payload.clone() },
                    ),
                }
            } else {
                Err(Error::TypeMismatch { field: field.clone(), raw: payload.clone() })
            }
        },
        MapFieldType::String => {
            if kind == JKind::JStr {
                Ok(Cell::Text(payload.clone()))
            } else {
                Err(Error::TypeMismatch { field: field.clone(), raw: payload.clone() })
            }
        },
        MapFieldType::Float => {
            if kind == JKind::JNum {
                let cs: Vec<char> = chars_of(payload.as_str());
                if check_float_literal(&cs) {
                    Ok(Cell::Float(payload.clone()))
                } else {
                    Err(Error::TypeMismatch { field: field.clone(), raw: payload.clone() })
                }
            } else {
                Err(Error::TypeMismatch { field: field.clone(), raw: payload.clone() })
            }
        },
    }
}

/// Ingests a JSON text: each record yields one batch row with one coerced
/// value per schema field, looked up by the field's column name, in schema
/// order. `UnsupportedFormat` for a malformed text; `TypeMismatch`, naming
/// the field, for a missing or uncoercible value.
pub fn ingest_json(content: &str, schema: &Schema) -> (r: Result<TypedBatch, Error>)
    ensures
        r is Ok <==> json_ingest_ok(content@, *schema),
        r matches Ok(b) ==> json_batch_matches(b, json_data(content@), *schema),
        r matches Err(e) ==> (e matches Error::UnsupportedFormat(_) || e
            matches Error::TypeMismatch { .. }),
        json_records(content@) is Some && !json_recs_coercible(json_data(content@), *schema)
            ==> (r matches Err(e) && e matches Error::TypeMismatch { field, raw }
            && names_offending_member(field@, raw@, json_data(content@), *schema)),
{
    let all: Vec<Vec<(String, (JKind, String))>> = match parse_json(content) {
        Ok(v) => v,
        Err(e) => {
            return Err(e);
        },
    };
    let ghost data = json_data(content@);
    let nf: usize = schema.fields.len();
    let cols: Vec<ColumnDef> = columns_of_schema(schema);
    let mut rows: Vec<Vec<Cell>> = Vec::new();
    let mut r: usize = 0;
    let end: usize = if all.len() > MAX_BATCH_ROWS {
        MAX_BATCH_ROWS
    } else {
        all.len()
    };
    proof {
        assert(recs_view(all@) == json_all(content@));
        assert(data.len() == end);
        assert forall|k: int| 0 <= k < data.len() implies #[trigger] data[k] == recs_view(all@)[k]
            by {}
    }
    while r < end
        invariant
            r <= end,
            end <= all@.len(),
            end == data.len(),
            nf == schema.fields@.len(),
            recs_view(all@) == json_all(content@),
            data == json_data(content@),
            json_records(content@) is Some,
            forall|k: int| 0 <= k < data.len() ==> #[trigger] data[k] == recs_view(all@)[k],
            rows@.len() == r,
            forall|k: int| 0 <= k < r ==> (#[trigger] rows@[k])@.len() == nf,
            forall|k: int, c: int|
                0 <= k < r && 0 <= c < nf ==> json_cell_matches(
                    #[trigger] rows@[k]@[c],
                    member_of(data[k], schema.fields@[c].name@),
                    schema.fields@[c].data_type,
                ) && cell_fits(rows@[k]@[c], col_of_field(schema.fields@[c].data_type)),
            forall|k: int, c: int|
                0 <= k < r && 0 <= c < nf ==> rec_field_ok(
                    #[trigger] data[k],
                    #[trigger] schema.fields@[c],
                ),
        decreases end - r,
    {
        let raw_rec = &all[r];
        proof {
            assert(recs_view(all@)[r as int] == crate::json::rec_view(all@[r as int]@));
        }
        let mut row: Vec<Cell> = Vec::new();
        let mut c: usize = 0;
        while c < nf
            invariant
                0 <= c <= nf,
                nf == schema.fields@.len(),
                r < end,
                end == data.len(),
                data == json_data(content@),
                json_records(content@) is Some,
                raw_rec == &all@[r as int],
                data[r as int] == crate::json::rec_view(raw_rec@),
                row@.len() == c,
                forall|j: int| 0 <= j < c ==> json_cell_matches(
                    #[trigger] row@[j],
                    member_of(data[r as int], schema.fields@[j].name@),
                    schema.fields@[j].data_type,
                ) && cell_fits(row@[j], col_of_field(schema.fields@[j].data_type)),
                forall|j: int| 0 <= j < c ==> rec_field_ok(
                    data[r as int],
                    #[trigger] schema.fields@[j],
                ),
            decreases nf - c,
        {
            let f = &schema.fields[c];
            match member_lookup_exec(raw_rec, &f.name) {
                None => {
                    let e = Error::TypeMismatch { field: f.name.clone(), raw: String::new() };
                    proof {
                        assert(!rec_field_ok(data[r as int], schema.fields@[c as int]));
                        if json_recs_coercible(data, *schema) {
                            assert(rec_field_ok(data[r as int], schema.fields@[c as int]));
                        }
                        assert(member_lookup(data[r as int], schema.fields@[c as int].name@)
                            is None);
                        assert(e matches Error::TypeMismatch { field, raw }
                            ==> names_offending_member(field@, raw@, data, *schema));
                    }
                    return Err(e);
                },
                Some(v) => {
                    match coerce_json(&f.name, v.0, &v.1, f.data_type) {
                        Ok(cell) => {
                            row.push(cell);
                        },
                        Err(e) => {
                            proof {
                                assert(!rec_field_ok(data[r as int], schema.fields@[c as int]));
                                if json_recs_coercible(data, *schema) {
                                    assert(rec_field_ok(
                                        data[r as int],
                                        schema.fields@[c as int],
                                    ));
                                }
                                assert(member_lookup(
                                    data[r as int],
                                    schema.fields@[c as int].name@,
                                ) == Some((v.0, v.1@)));
                                assert(e matches Error::TypeMismatch { field, raw }
                                    ==> names_offending_member(field@, raw@, data, *schema));
                            }
                            return Err(e);
                        },
                    }
                },
            }
            c += 1;
        }
        rows.push(row);
        r += 1;
    }
    let b = TypedBatch { cols, rows };
    proof {
        assert(b.wf());
        assert(json_ingest_ok(content@, *schema));
        assert(json_batch_matches(b, data, *schema));
    }
    Ok(b)
}

/// Ingests a source text in the selected format against the schema.
pub fn ingest(content: &str, format: SourceFormat, schema: &Schema) -> (r: Result<
    TypedBatch,
    Error,
>)
    ensures
        format == SourceFormat::Csv ==> (r is Ok <==> csv_ingest_ok(content@, *schema)) && (
        r matches Ok(b) ==> batch_matches(b, csv_data(content@), *schema)),
        format == SourceFormat::Json ==> (r is Ok <==> json_ingest_ok(content@, *schema)) && (
        r matches Ok(b) ==> json_batch_matches(b, json_data(content@), *schema)),
        r matches Err(e) ==> (e matches Error::UnsupportedFormat(_) || e
            matches Error::TypeMismatch { .. }),
        format == SourceFormat::Csv && csv_rows(content@) is Some && csv_all(content@).len() >= 1
            && csv_widths_ok(csv_data(content@), *schema) && !csv_rows_coercible(
            csv_data(content@),
            *schema,
        ) ==> (r matches Err(e) && e matches Error::TypeMismatch { field, raw }
            && names_offending_cell(field@, raw@, csv_data(content@), *schema)),
        format == SourceFormat::Json && json_records(content@) is Some && !json_recs_coercible(
            json_data(content@),
            *schema,
        ) ==> (r matches Err(e) && e matches Error::TypeMismatch { field, raw }
            && names_offending_member(field@, raw@, json_data(content@), *schema)),
{
    match format {
        SourceFormat::Csv => ingest_csv(content, schema),
        SourceFormat::Json => ingest_json(content, schema),
    }
}

} // verus!
