//! The typed columnar batch: column definitions whose types and order match
//! the schema, row-major cell values, and the coercion of raw text into the
//! declared primitive types.
//!
//! A `Float` cell keeps its validated decimal text rather than a computed
//! value; a `Date` cell keeps the epoch-millisecond encoding of its day.

use vstd::prelude::*;
use crate::Error;
use crate::num::{
    is_int_literal, int_literal_val, in_i64_range, is_float_literal, is_date_literal,
    date_literal_ms, parse_i64, check_float_literal, parse_date_ms,
};
use crate::schema::{MapFieldType, Schema};
use crate::text::chars_of;

verus! {

/// The primitive type of one batch column.
#[derive(Debug, Clone, Copy, PartialEq, Eq, Structural)]
pub enum ColType {
    Utf8,
    Boolean,
    Int64,
    Float64,
    Date64,
}

/// One cell value of a batch row.
#[derive(Debug, Clone, PartialEq, Eq)]
pub enum Cell {
    Text(String),
    Bool(bool),
    Int(i64),
    /// The validated decimal text of a floating-point value.
    Float(String),
    /// The epoch-millisecond encoding of a date.
    Date(i64),
}

/// One column of a typed batch.
#[derive(Debug, Clone, PartialEq, Eq)]
pub struct ColumnDef {
    pub name: String,
    pub ctype: ColType,
}

/// Whether a cell carries a value of the column type.
pub open spec fn cell_fits(c: Cell, t: ColType) -> bool {
    match (c, t) {
        (Cell::Text(_), ColType::Utf8) => true,
        (Cell::Bool(_), ColType::Boolean) => true,
        (Cell::Int(_), ColType::Int64) => true,
        (Cell::Float(s), ColType::Float64) => is_float_literal(s@),
        (Cell::Date(_), ColType::Date64) => true,
        _ => false,
    }
}

/// A materialized columnar batch: produced once by ingestion, consumed by
/// the statement generators.
#[derive(Debug, Clone, PartialEq, Eq)]
pub struct TypedBatch {
    pub cols: Vec<ColumnDef>,
    /// Row-major values; each row holds one cell per column.
    pub rows: Vec<Vec<Cell>>,
}

impl TypedBatch {
    /// Every row has one cell per column and each cell fits its column type.
    pub open spec fn wf(self) -> bool {
        forall|r: int| 0 <= r < self.rows@.len() ==> (#[trigger] self.rows@[r])@.len()
            == self.cols@.len() && forall|c: int| 0 <= c < self.cols@.len() ==> cell_fits(
            #[trigger] self.rows@[r]@[c],
            self.cols@[c].ctype,
        )
    }

    /// Whether the batch is well formed, executable: the guard callers use
    /// before handing a hand-built batch to the statement generators.
    pub fn check_wf(&self) -> (r: bool)
        ensures
            r == self.wf(),
    {
        let nc: usize = self.cols.len();
        let mut i: usize = 0;
        while i < self.rows.len()
            invariant
                i <= self.rows@.len(),
                nc == self.cols@.len(),
                forall|r: int| 0 <= r < i ==> (#[trigger] self.rows@[r])@.len() == nc && forall|
                    c: int,
                | 0 <= c < nc ==> cell_fits(#[trigger] self.rows@[r]@[c], self.cols@[c].ctype),
            decreases self.rows@.len() - i,
        {
            let row = &self.rows[i];
            if row.len() != nc {
                return false;
            }
            let mut c: usize = 0;
            while c < nc
                invariant
                    c <= nc,
                    nc == self.cols@.len(),
                    i < self.rows@.len(),
                    row == &self.rows@[i as int],
                    row@.len() == nc,
                    forall|j: int| 0 <= j < c ==> cell_fits(
                        #[trigger] self.rows@[i as int]@[j],
                        self.cols@[j].ctype,
                    ),
                decreases nc - c,
            {
                let fits: bool = match (&row[c], self.cols[c].ctype) {
                    (Cell::Text(_), ColType::Utf8) => true,
                    (Cell::Bool(_), ColType::Boolean) => true,
                    (Cell::Int(_), ColType::Int64) => true,
                    (Cell::Float(s), ColType::Float64) => check_float_literal(
                        &chars_of(s.as_str()),
                    ),
                    (Cell::Date(_), ColType::Date64) => true,
                    _ => false,
                };
                if !fits {
                    return false;
                }
                c += 1;
            }
            i += 1;
        }
        true
    }
}

/// The batch column type declared by a schema field type.
pub open spec fn col_of_field(t: MapFieldType) -> ColType {
    match t {
        MapFieldType::Int => ColType::Int64,
        MapFieldType::String => ColType::Utf8,
        MapFieldType::Float => ColType::Float64,
        MapFieldType::Date => ColType::Date64,
    }
}

/// The batch columns a schema declares: one per field, in field order,
/// named by the field's column name.
pub fn columns_of_schema(schema: &Schema) -> (r: Vec<ColumnDef>)
    ensures
        r@.len() == schema.fields@.len(),
        forall|i: int| 0 <= i < schema.fields@.len() ==> (#[trigger] r@[i]).name@
            == schema.fields@[i].name@ && r@[i].ctype == col_of_field(schema.fields@[i].data_type),
{
    let mut cols: Vec<ColumnDef> = Vec::new();
    let mut i: usize = 0;
    while i < schema.fields.len()
        invariant
            i <= schema.fields@.len(),
            cols@.len() == i,
            forall|j: int| 0 <= j < i ==> (#[trigger] cols@[j]).name@ == schema.fields@[j].name@
                && cols@[j].ctype == col_of_field(schema.fields@[j].data_type),
        decreases schema.fields@.len() - i,
    {
        let f = &schema.fields[i];
        let ctype: ColType = match f.data_type {
            MapFieldType::Int => ColType::Int64,
            MapFieldType::String => ColType::Utf8,
            MapFieldType::Float => ColType::Float64,
            MapFieldType::Date => ColType::Date64,
        };
        cols.push(ColumnDef { name: f.name.clone(), ctype });
        i += 1;
    }
    cols
}

/// Whether raw text can be coerced into the declared field type.
pub open spec fn coercible(s: Seq<char>, t: MapFieldType) -> bool {
    match t {
        MapFieldType::Int => is_int_literal(s) && in_i64_range(int_literal_val(s)),
        MapFieldType::String => true,
        MapFieldType::Float => is_float_literal(s),
        MapFieldType::Date => is_date_literal(s),
    }
}

/// Whether `c` is the coercion of the raw text `s` at field type `t`.
pub open spec fn cell_represents(c: Cell, s: Seq<char>, t: MapFieldType) -> bool {
    match t {
        MapFieldType::Int => c matches Cell::Int(v) && v as int == int_literal_val(s),
        MapFieldType::String => c matches Cell::Text(x) && x@ == s,
        MapFieldType::Float => c matches Cell::Float(x) && x@ == s,
        MapFieldType::Date => c matches Cell::Date(v) && v as int == date_literal_ms(s),
    }
}

/// Coerces one raw text value into the declared field type; `TypeMismatch`,
/// naming the field and the offending raw value, exactly when the text does
/// not parse at that type.
pub fn coerce_text(field: &String, raw: String, t: MapFieldType) -> (r: Result<Cell, Error>)
    ensures
        r is Ok <==> coercible(raw@, t),
        r matches Ok(c) ==> cell_represents(c, raw@, t) && cell_fits(c, col_of_field(t)),
        r matches Err(e) ==> (e matches Error::TypeMismatch { field: fe, raw: re } && fe@ == field@
            && re@ == raw@),
{
    match t {
        MapFieldType::Int => {
            let cs: Vec<char> = chars_of(raw.as_str());
            match parse_i64(&cs) {
                Some(v) => Ok(Cell::Int(v)),
                None => Err(Error::TypeMismatch { field: field.clone(), raw }),
            }
        },
        MapFieldType::String => Ok(Cell::Text(raw)),
        MapFieldType::Float => {
            let cs: Vec<char> = chars_of(raw.as_str());
            if check_float_literal(&cs) {
                Ok(Cell::Float(raw))
            } else {
                Err(Error::TypeMismatch { field: field.clone(), raw })
            }
        },
        MapFieldType::Date => {
            let cs: Vec<char> = chars_of(raw.as_str());
            match parse_date_ms(&cs) {
                Some(v) => Ok(Cell::Date(v)),
                None => Err(Error::TypeMismatch { field: field.clone(), raw }),
            }
        },
    }
}

} // verus!
