//! The CSV parser of the batch builder: one pass over the text, fields
//! separated by commas, rows by newlines (a carriage return before the
//! newline is trimmed), quoted fields with doubled-quote escaping, embedded
//! separators and newlines inside quotes, and blank lines skipped.

use vstd::prelude::*;
use crate::Error;
use crate::extract::vals_view;
use crate::text::chars_of;

verus! {

/// The scanner modes of the CSV parser.
#[derive(Debug, Clone, Copy, PartialEq, Eq, Structural)]
pub enum CsvMode {
    /// Inside an unquoted field (possibly empty so far).
    Plain,
    /// Inside a quoted field.
    Quoted,
    /// Right after the closing quote of a quoted field.
    QuoteClosed,
    /// A malformed text.
    Failed,
}

/// The scanner state: completed rows, the current row's completed fields,
/// the current field, and the mode.
pub struct CsvState {
    pub rows: Seq<Seq<Seq<char>>>,
    pub row: Seq<Seq<char>>,
    pub cur: Seq<char>,
    pub mode: CsvMode,
}

/// A field with a trailing carriage return trimmed (line ends of the
/// carriage-return-newline form).
pub open spec fn trim_cr(s: Seq<char>) -> Seq<char> {
    if s.len() > 0 && s.last() == '\r' {
        s.drop_last()
    } else {
        s
    }
}

/// One step of the CSV scanner.
pub open spec fn csv_step(st: CsvState, c: char) -> CsvState {
    match st.mode {
        CsvMode::Failed => st,
        CsvMode::Plain => {
            if c == '"' && st.cur.len() == 0 {
                CsvState { mode: CsvMode::Quoted, ..st }
            } else if c == ',' {
                CsvState { row: st.row.push(st.cur), cur: Seq::empty(), ..st }
            } else if c == '\n' {
                let f = trim_cr(st.cur);
                if st.row.len() == 0 && f.len() == 0 {
                    CsvState { cur: Seq::empty(), ..st }
                } else {
                    CsvState {
                        rows: st.rows.push(st.row.push(f)),
                        row: Seq::empty(),
                        cur: Seq::empty(),
                        ..st
                    }
                }
            } else {
                CsvState { cur: st.cur.push(c), ..st }
            }
        },
        CsvMode::Quoted => {
            if c == '"' {
                CsvState { mode: CsvMode::QuoteClosed, ..st }
            } else {
                CsvState { cur: st.cur.push(c), ..st }
            }
        },
        CsvMode::QuoteClosed => {
            if c == '"' {
                CsvState { cur: st.cur.push('"'), mode: CsvMode::Quoted, ..st }
            } else if c == ',' {
                CsvState { row: st.row.push(st.cur), cur: Seq::empty(), mode: CsvMode::Plain, ..st }
            } else if c == '\n' {
                CsvState {
                    rows: st.rows.push(st.row.push(st.cur)),
                    row: Seq::empty(),
                    cur: Seq::empty(),
                    mode: CsvMode::Plain,
                    ..st
                }
            } else if c == '\r' {
                st
            } else {
                CsvState { mode: CsvMode::Failed, ..st }
            }
        },
    }
}

/// The scanner's initial state.
pub open spec fn csv_init() -> CsvState {
    CsvState { rows: Seq::empty(), row: Seq::empty(), cur: Seq::empty(), mode: CsvMode::Plain }
}

/// The scanner state after reading all of `s`.
pub open spec fn csv_run(s: Seq<char>) -> CsvState
    decreases s.len(),
{
    if s.len() == 0 {
        csv_init()
    } else {
        csv_step(csv_run(s.drop_last()), s.last())
    }
}

/// Closes the final row: a text ending without a newline still yields its
/// last row; an unterminated quote is malformed.
pub open spec fn csv_finish(st: CsvState) -> Option<Seq<Seq<Seq<char>>>> {
    match st.mode {
        CsvMode::Failed => None,
        CsvMode::Quoted => None,
        CsvMode::Plain => {
            let f = trim_cr(st.cur);
            if st.row.len() == 0 && f.len() == 0 {
                Some(st.rows)
            } else {
                Some(st.rows.push(st.row.push(f)))
            }
        },
        CsvMode::QuoteClosed => Some(st.rows.push(st.row.push(st.cur))),
    }
}

/// The rows of a CSV text, or nothing if the text is malformed.
pub open spec fn csv_rows(s: Seq<char>) -> Option<Seq<Seq<Seq<char>>>> {
    csv_finish(csv_run(s))
}

/// The view of parsed rows as sequences of field texts.
pub open spec fn rows_view(rs: Seq<Vec<String>>) -> Seq<Seq<Seq<char>>> {
    rs.map(|i: int, r: Vec<String>| vals_view(r@))
}

/// Parses a CSV text into its rows of raw field texts, exactly when the
/// text is well formed.
pub fn parse_csv(s: &str) -> (r: Result<Vec<Vec<String>>, Error>)
    ensures
        r is Ok <==> csv_rows(s@) is Some,
        r matches Ok(rows) ==> Some(rows_view(rows@)) == csv_rows(s@),
        r matches Err(e) ==> e matches Error::UnsupportedFormat(_),
{
    let cs: Vec<char> = chars_of(s);
    let mut rows: Vec<Vec<String>> = Vec::new();
    let mut row: Vec<String> = Vec::new();
    let mut cur: Vec<char> = Vec::new();
    let mut mode: CsvMode = CsvMode::Plain;
    let mut i: usize = 0;
    proof {
        assert(s@.take(0) =~= Seq::<char>::empty());
        assert(rows_view(rows@) =~= csv_run(s@.take(0)).rows);
        assert(vals_view(row@) =~= csv_run(s@.take(0)).row);
    }
    while i < cs.len()
        invariant
            i <= cs@.len(),
            cs@ == s@,
            rows_view(rows@) == csv_run(s@.take(i as int)).rows,
            vals_view(row@) == csv_run(s@.take(i as int)).row,
            cur@ == csv_run(s@.take(i as int)).cur,
            mode == csv_run(s@.take(i as int)).mode,
            mode != CsvMode::Failed,
        decreases cs@.len() - i,
    {
        let ghost st = csv_run(s@.take(i as int));
        let c: char = cs[i];
        proof {
            assert(s@.take(i + 1 as int).drop_last() =~= s@.take(i as int));
            assert(s@.take(i + 1 as int).last() == s@[i as int]);
        }
        let ghost st2 = csv_step(st, c);
        match mode {
            CsvMode::Plain => {
                if c == '"' && cur.len() == 0 {
                    mode = CsvMode::Quoted;
                } else if c == ',' {
                    let f: String = crate::text::string_of(&cur);
                    row.push(f);
                    cur = Vec::new();
                    proof {
                        assert(vals_view(row@) =~= st.row.push(st.cur));
                    }
                } else if c == '\n' {
                    if cur.len() > 0 && cur[cur.len() - 1] == '\r' {
                        cur.pop();
                        proof {
                            assert(cur@ =~= trim_cr(st.cur));
                        }
                    }
                    proof {
                        assert(cur@ == trim_cr(st.cur));
                    }
                    if row.len() == 0 && cur.len() == 0 {
                    } else {
                        let f: String = crate::text::string_of(&cur);
                        row.push(f);
                        proof {
                            assert(vals_view(row@) =~= st.row.push(trim_cr(st.cur)));
                        }
                        rows.push(row);
                        proof {
                            assert(rows_view(rows@) =~= st.rows.push(st.row.push(trim_cr(st.cur))));
                        }
                        row = Vec::new();
                        cur = Vec::new();
                        proof {
                            assert(vals_view(row@) =~= Seq::<Seq<char>>::empty());
                        }
                    }
                } else {
                    cur.push(c);
                }
            },
            CsvMode::Quoted => {
                if c == '"' {
                    mode = CsvMode::QuoteClosed;
                } else {
                    cur.push(c);
                }
            },
            CsvMode::QuoteClosed => {
                if c == '"' {
                    cur.push('"');
                    mode = CsvMode::Quoted;
                } else if c == ',' {
                    let f: String = crate::text::string_of(&cur);
                    row.push(f);
                    cur = Vec::new();
                    mode = CsvMode::Plain;
                    proof {
                        assert(vals_view(row@) =~= st.row.push(st.cur));
                    }
                } else if c == '\n' {
                    let f: String = crate::text::string_of(&cur);
                    row.push(f);
                    proof {
                        assert(vals_view(row@) =~= st.row.push(st.cur));
                    }
                    rows.push(row);
                    proof {
                        assert(rows_view(rows@) =~= st.rows.push(st.row.push(st.cur)));
                    }
                    row = Vec::new();
                    cur = Vec::new();
                    mode = CsvMode::Plain;
                    proof {
                        assert(vals_view(row@) =~= Seq::<Seq<char>>::empty());
                    }
                } else if c == '\r' {
                } else {
                    proof {
                        lemma_csv_failed_absorbing(s@, i + 1 as int);
                    }
                    return Err(
                        Error::UnsupportedFormat(
                            "malformed quoting in the source text".to_owned(),
                        ),
                    );
                }
            },
            CsvMode::Failed => {
                proof {
                    assert(false);
                }
            },
        }
        i += 1;
    }
    proof {
        assert(s@.take(cs@.len() as int) =~= s@);
    }
    match mode {
        CsvMode::Quoted => Err(
            Error::UnsupportedFormat("unterminated quote in the source text".to_owned()),
        ),
        CsvMode::QuoteClosed => {
            let ghost st = csv_run(s@);
            let f: String = crate::text::string_of(&cur);
            row.push(f);
            proof {
                assert(vals_view(row@) =~= st.row.push(st.cur));
            }
            rows.push(row);
            proof {
                assert(rows_view(rows@) =~= st.rows.push(st.row.push(st.cur)));
            }
            Ok(rows)
        },
        _ => {
            let ghost st = csv_run(s@);
            if cur.len() > 0 && cur[cur.len() - 1] == '\r' {
                cur.pop();
                proof {
                    assert(cur@ =~= trim_cr(st.cur));
                }
            }
            proof {
                assert(cur@ == trim_cr(st.cur));
            }
            if row.len() == 0 && cur.len() == 0 {
                Ok(rows)
            } else {
                let f: String = crate::text::string_of(&cur);
                row.push(f);
                proof {
                    assert(vals_view(row@) =~= st.row.push(trim_cr(st.cur)));
                }
                rows.push(row);
                proof {
                    assert(rows_view(rows@) =~= st.rows.push(st.row.push(trim_cr(st.cur))));
                }
                Ok(rows)
            }
        },
    }
}

/// A malformed prefix leaves the whole text malformed.
pub proof fn lemma_csv_failed_absorbing(s: Seq<char>, i: int)
    requires
        0 <= i <= s.len(),
        csv_run(s.take(i)).mode == CsvMode::Failed,
    ensures
        csv_run(s).mode == CsvMode::Failed,
    decreases s.len() - i,
{
    if i < s.len() {
        assert(s.take(i + 1).drop_last() =~= s.take(i));
        assert(s.take(i + 1).last() == s[i]);
        lemma_csv_failed_absorbing(s, i + 1);
    } else {
        assert(s.take(i) =~= s);
    }
}

} // verus!
