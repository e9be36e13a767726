//! The JSON parser of the batch builder: a one-pass scanner for flat
//! records — objects whose values are strings, numbers, `true`, `false` or
//! `null` — given either as a stream of objects (line-delimited or
//! juxtaposed) or inside one top-level array. String escapes cover the
//! named escapes and `\u` for code points below 128; nested containers are
//! not record values and make the text malformed.

use vstd::prelude::*;
use crate::Error;
use crate::num::{is_digit, is_float_literal, check_float_literal};
use crate::text::{chars_of, string_of};

verus! {

/// The kind of one scalar record value.
#[derive(Debug, Clone, Copy, PartialEq, Eq, Structural)]
pub enum JKind {
    JStr,
    JNum,
    JTrue,
    JFalse,
    JNull,
}

/// The scanner modes of the JSON record reader.
#[derive(Debug, Clone, Copy, PartialEq, Eq, Structural)]
pub enum JMode {
    /// Nothing but whitespace seen yet.
    Start,
    /// After the opening bracket of the array form.
    ArrStart,
    /// Array form, after a record: a comma or the closing bracket.
    ArrSep,
    /// Array form, after a comma: the next object.
    BeforeObj,
    /// Stream form, after a record: the next object or the end.
    StreamSep,
    /// Array form, after the closing bracket: whitespace only.
    Closed,
    /// After an opening brace: a key or the closing brace.
    ObjOpen,
    /// After a comma inside an object: the next key.
    MemberNext,
    /// Inside a key string.
    Key,
    /// After a backslash inside a key string.
    KeyEsc,
    /// Inside the four hex digits of a key's `\u` escape.
    KeyHex,
    /// After a key string: the colon.
    Colon,
    /// After the colon: a value.
    Val,
    /// Inside a string value.
    VStr,
    /// After a backslash inside a string value.
    VStrEsc,
    /// Inside the four hex digits of a string value's `\u` escape.
    VStrHex,
    /// Inside a number value.
    VNum,
    /// Inside a `true`/`false`/`null` literal.
    Lit,
    /// After a member's value: a comma or the closing brace.
    AfterVal,
    /// A malformed text.
    Failed,
}

/// The scanner state: completed records, the open record's members, the
/// open key, the open scalar buffer, the pending hex digits, whether the
/// array form was chosen, and the mode.
pub struct JsonState {
    pub records: Seq<Seq<(Seq<char>, (JKind, Seq<char>))>>,
    pub rec: Seq<(Seq<char>, (JKind, Seq<char>))>,
    pub key: Seq<char>,
    pub buf: Seq<char>,
    pub hex: Seq<char>,
    pub wrapped: bool,
    pub mode: JMode,
}

/// Whether `c` is insignificant whitespace.
pub open spec fn is_ws(c: char) -> bool {
    c == ' ' || c == '\t' || c == '\n' || c == '\r'
}

/// Whether `c` is a hexadecimal digit.
pub open spec fn is_hex_digit(c: char) -> bool {
    is_digit(c) || (97 <= c as u32 && c as u32 <= 102) || (65 <= c as u32 && c as u32 <= 70)
}

/// The value of a hexadecimal digit.
pub open spec fn hex_digit_val(c: char) -> int {
    if is_digit(c) {
        c as u32 - 48
    } else if 97 <= c as u32 && c as u32 <= 102 {
        c as u32 - 87
    } else {
        c as u32 - 55
    }
}

/// The code point of four hex digits.
pub open spec fn hex4_val(h: Seq<char>) -> int
    recommends
        h.len() == 4,
{
    hex_digit_val(h[0]) * 4096 + hex_digit_val(h[1]) * 256 + hex_digit_val(h[2]) * 16
        + hex_digit_val(h[3])
}

/// The character a named escape stands for.
pub open spec fn esc_char(c: char) -> Option<char> {
    if c == '"' {
        Some('"')
    } else if c == '\\' {
        Some('\\')
    } else if c == '/' {
        Some('/')
    } else if c == 'b' {
        Some((8u8) as char)
    } else if c == 'f' {
        Some((12u8) as char)
    } else if c == 'n' {
        Some('\n')
    } else if c == 'r' {
        Some('\r')
    } else if c == 't' {
        Some('\t')
    } else {
        None
    }
}

/// Whether `c` can continue a number.
pub open spec fn is_num_char(c: char) -> bool {
    is_digit(c) || c == '-' || c == '+' || c == '.' || c == 'e' || c == 'E'
}

/// Whether `c` can continue a bare literal.
pub open spec fn is_lit_char(c: char) -> bool {
    97 <= c as u32 && c as u32 <= 122
}

/// The kind a bare literal names.
pub open spec fn lit_kind(s: Seq<char>) -> Option<JKind> {
    if s == "true"@ {
        Some(JKind::JTrue)
    } else if s == "false"@ {
        Some(JKind::JFalse)
    } else if s == "null"@ {
        Some(JKind::JNull)
    } else {
        None
    }
}

/// A failed state.
pub open spec fn json_fail(st: JsonState) -> JsonState {
    JsonState { mode: JMode::Failed, ..st }
}

/// Processing the character after a completed member.
pub open spec fn json_after_val(st: JsonState, c: char) -> JsonState {
    if is_ws(c) {
        JsonState { mode: JMode::AfterVal, ..st }
    } else if c == ',' {
        JsonState { mode: JMode::MemberNext, ..st }
    } else if c == '}' {
        JsonState {
            records: st.records.push(st.rec),
            rec: Seq::empty(),
            mode: if st.wrapped {
                JMode::ArrSep
            } else {
                JMode::StreamSep
            },
            ..st
        }
    } else {
        json_fail(st)
    }
}

/// One step of the JSON record scanner.
pub open spec fn json_step(st: JsonState, c: char) -> JsonState {
    match st.mode {
        JMode::Failed => st,
        JMode::Start => if is_ws(c) {
            st
        } else if c == '[' {
            JsonState { wrapped: true, mode: JMode::ArrStart, ..st }
        } else if c == '{' {
            JsonState { mode: JMode::ObjOpen, ..st }
        } else {
            json_fail(st)
        },
        JMode::ArrStart => if is_ws(c) {
            st
        } else if c == '{' {
            JsonState { mode: JMode::ObjOpen, ..st }
        } else if c == ']' {
            JsonState { mode: JMode::Closed, ..st }
        } else {
            json_fail(st)
        },
        JMode::ArrSep => if is_ws(c) {
            st
        } else if c == ',' {
            JsonState { mode: JMode::BeforeObj, ..st }
        } else if c == ']' {
            JsonState { mode: JMode::Closed, ..st }
        } else {
            json_fail(st)
        },
        JMode::BeforeObj => if is_ws(c) {
            st
        } else if c == '{' {
            JsonState { mode: JMode::ObjOpen, ..st }
        } else {
            json_fail(st)
        },
        JMode::StreamSep => if is_ws(c) {
            st
        } else if c == '{' {
            JsonState { mode: JMode::ObjOpen, ..st }
        } else {
            json_fail(st)
        },
        JMode::Closed => if is_ws(c) {
            st
        } else {
            json_fail(st)
        },
        JMode::ObjOpen => if is_ws(c) {
            st
        } else if c == '"' {
            JsonState { key: Seq::empty(), mode: JMode::Key, ..st }
        } else if c == '}' {
            JsonState {
                records: st.records.push(st.rec),
                rec: Seq::empty(),
                mode: if st.wrapped {
                    JMode::ArrSep
                } else {
                    JMode::StreamSep
                },
                ..st
            }
        } else {
            json_fail(st)
        },
        JMode::MemberNext => if is_ws(c) {
            st
        } else if c == '"' {
            JsonState { key: Seq::empty(), mode: JMode::Key, ..st }
        } else {
            json_fail(st)
        },
        JMode::Key => if c == '"' {
            JsonState { mode: JMode::Colon, ..st }
        } else if c == '\\' {
            JsonState { mode: JMode::KeyEsc, ..st }
        } else {
            JsonState { key: st.key.push(c), ..st }
        },
        JMode::KeyEsc => if c == 'u' {
            JsonState { hex: Seq::empty(), mode: JMode::KeyHex, ..st }
        } else {
            match esc_char(c) {
                Some(e) => JsonState { key: st.key.push(e), mode: JMode::Key, ..st },
                None => json_fail(st),
            }
        },
        JMode::KeyHex => if is_hex_digit(c) {
            let h = st.hex.push(c);
            if h.len() == 4 {
                let v = hex4_val(h);
                if v < 128 {
                    JsonState {
                        key: st.key.push(((v as u8) as char)),
                        hex: Seq::empty(),
                        mode: JMode::Key,
                        ..st
                    }
                } else {
                    json_fail(st)
                }
            } else {
                JsonState { hex: h, ..st }
            }
        } else {
            json_fail(st)
        },
        JMode::Colon => if is_ws(c) {
            st
        } else if c == ':' {
            JsonState { mode: JMode::Val, ..st }
        } else {
            json_fail(st)
        },
        JMode::Val => if is_ws(c) {
            st
        } else if c == '"' {
            JsonState { buf: Seq::empty(), mode: JMode::VStr, ..st }
        } else if is_digit(c) || c == '-' {
            JsonState { buf: seq![c], mode: JMode::VNum, ..st }
        } else if c == 't' || c == 'f' || c == 'n' {
            JsonState { buf: seq![c], mode: JMode::Lit, ..st }
        } else {
            json_fail(st)
        },
        JMode::VStr => if c == '"' {
            JsonState {
                rec: st.rec.push((st.key, (JKind::JStr, st.buf))),
                mode: JMode::AfterVal,
                ..st
            }
        } else if c == '\\' {
            JsonState { mode: JMode::VStrEsc, ..st }
        } else {
            JsonState { buf: st.buf.push(c), ..st }
        },
        JMode::VStrEsc => if c == 'u' {
            JsonState { hex: Seq::empty(), mode: JMode::VStrHex, ..st }
        } else {
            match esc_char(c) {
                Some(e) => JsonState { buf: st.buf.push(e), mode: JMode::VStr, ..st },
                None => json_fail(st),
            }
        },
        JMode::VStrHex => if is_hex_digit(c) {
            let h = st.hex.push(c);
            if h.len() == 4 {
                let v = hex4_val(h);
                if v < 128 {
                    JsonState {
                        buf: st.buf.push(((v as u8) as char)),
                        hex: Seq::empty(),
                        mode: JMode::VStr,
                        ..st
                    }
                } else {
                    json_fail(st)
                }
            } else {
                JsonState { hex: h, ..st }
            }
        } else {
            json_fail(st)
        },
        JMode::VNum => if is_num_char(c) {
            JsonState { buf: st.buf.push(c), ..st }
        } else if is_float_literal(st.buf) {
            json_after_val(
                JsonState { rec: st.rec.push((st.key, (JKind::JNum, st.buf))), ..st },
                c,
            )
        } else {
            json_fail(st)
        },
        JMode::Lit => if is_lit_char(c) {
            JsonState { buf: st.buf.push(c), ..st }
        } else {
            match lit_kind(st.buf) {
                Some(k) => json_after_val(
                    JsonState { rec: st.rec.push((st.key, (k, Seq::empty()))), ..st },
                    c,
                ),
                None => json_fail(st),
            }
        },
        JMode::AfterVal => json_after_val(st, c),
    }
}

/// The scanner's initial state.
pub open spec fn json_init() -> JsonState {
    JsonState {
        records: Seq::empty(),
        rec: Seq::empty(),
        key: Seq::empty(),
        buf: Seq::empty(),
        hex: Seq::empty(),
        wrapped: false,
        mode: JMode::Start,
    }
}

/// The scanner state after reading all of `s`.
pub open spec fn json_run(s: Seq<char>) -> JsonState
    decreases s.len(),
{
    if s.len() == 0 {
        json_init()
    } else {
        json_step(json_run(s.drop_last()), s.last())
    }
}

/// The records of a JSON text, or nothing if the text is malformed: the
/// text must end outside any record (a whitespace-only text holds none).
pub open spec fn json_finish(st: JsonState) -> Option<
    Seq<Seq<(Seq<char>, (JKind, Seq<char>))>>,
> {
    match st.mode {
        JMode::Start => Some(st.records),
        JMode::StreamSep => Some(st.records),
        JMode::Closed => Some(st.records),
        _ => None,
    }
}

/// The records of a JSON text, or nothing if the text is malformed.
pub open spec fn json_records(s: Seq<char>) -> Option<Seq<Seq<(Seq<char>, (JKind, Seq<char>))>>> {
    json_finish(json_run(s))
}

/// The view of one owned record member.
pub open spec fn member_view(m: (String, (JKind, String))) -> (Seq<char>, (JKind, Seq<char>)) {
    (m.0@, (m.1.0, m.1.1@))
}

/// The view of one owned record.
pub open spec fn rec_view(r: Seq<(String, (JKind, String))>) -> Seq<(Seq<char>, (JKind, Seq<char>))> {
    r.map(|i: int, m: (String, (JKind, String))| member_view(m))
}

/// The view of a vector of owned records.
pub open spec fn recs_view(rs: Seq<Vec<(String, (JKind, String))>>) -> Seq<
    Seq<(Seq<char>, (JKind, Seq<char>))>,
> {
    rs.map(|i: int, r: Vec<(String, (JKind, String))>| rec_view(r@))
}

/// A malformed prefix leaves the whole text malformed.
pub proof fn lemma_json_failed_absorbing(s: Seq<char>, i: int)
    requires
        0 <= i <= s.len(),
        json_run(s.take(i)).mode == JMode::Failed,
    ensures
        json_run(s).mode == JMode::Failed,
    decreases s.len() - i,
{
    if i < s.len() {
        assert(s.take(i + 1).drop_last() =~= s.take(i));
        assert(s.take(i + 1).last() == s[i]);
        lemma_json_failed_absorbing(s, i + 1);
    } else {
        assert(s.take(i) =~= s);
    }
}

/// The kind a bare literal names, executable.
fn lit_kind_exec(buf: &Vec<char>) -> (r: Option<JKind>)
    ensures
        r == lit_kind(buf@),
{
    proof {
        reveal_strlit("true");
        reveal_strlit("false");
        reveal_strlit("null");
    }
    if buf.len() == 4 && buf[0] == 't' && buf[1] == 'r' && buf[2] == 'u' && buf[3] == 'e' {
        proof {
            assert(buf@ =~= "true"@);
        }
        Some(JKind::JTrue)
    } else if buf.len() == 4 && buf[0] == 'n' && buf[1] == 'u' && buf[2] == 'l' && buf[3] == 'l' {
        proof {
            assert(buf@ =~= "null"@);
        }
        Some(JKind::JNull)
    } else if buf.len() == 5 && buf[0] == 'f' && buf[1] == 'a' && buf[2] == 'l' && buf[3] == 's'
        && buf[4] == 'e' {
        proof {
            assert(buf@ =~= "false"@);
        }
        Some(JKind::JFalse)
    } else {
        None
    }
}

/// Whether `c` is insignificant whitespace, executable.
fn is_ws_exec(c: char) -> (r: bool)
    ensures
        r == is_ws(c),
{
    c == ' ' || c == '\t' || c == '\n' || c == '\r'
}

/// The value of a hexadecimal digit, executable.
fn hex_digit_val_exec(c: char) -> (r: u32)
    requires
        is_hex_digit(c),
    ensures
        r as int == hex_digit_val(c),
        r < 16,
{
    let u: u32 = c as u32;
    if 48 <= u && u <= 57 {
        u - 48
    } else if 97 <= u && u <= 102 {
        u - 87
    } else {
        u - 55
    }
}

/// The character a named escape stands for, executable.
fn esc_char_exec(c: char) -> (r: Option<char>)
    ensures
        r == esc_char(c),
{
    if c == '"' {
        Some('"')
    } else if c == '\\' {
        Some('\\')
    } else if c == '/' {
        Some('/')
    } else if c == 'b' {
        Some((8u8) as char)
    } else if c == 'f' {
        Some((12u8) as char)
    } else if c == 'n' {
        Some('\n')
    } else if c == 'r' {
        Some('\r')
    } else if c == 't' {
        Some('\t')
    } else {
        None
    }
}

/// Parses a JSON text into its flat records, exactly when the text is well
/// formed.
pub fn parse_json(s: &str) -> (r: Result<Vec<Vec<(String, (JKind, String))>>, Error>)
    ensures
        r is Ok <==> json_records(s@) is Some,
        r matches Ok(rs) ==> Some(recs_view(rs@)) == json_records(s@),
        r matches Err(e) ==> e matches Error::UnsupportedFormat(_),
{
    let cs: Vec<char> = chars_of(s);
    let mut records: Vec<Vec<(String, (JKind, String))>> = Vec::new();
    let mut rec: Vec<(String, (JKind, String))> = Vec::new();
    let mut key: Vec<char> = Vec::new();
    let mut buf: Vec<char> = Vec::new();
    let mut hex: Vec<char> = Vec::new();
    let mut wrapped: bool = false;
    let mut mode: JMode = JMode::Start;
    let mut i: usize = 0;
    proof {
        assert(s@.take(0) =~= Seq::<char>::empty());
        assert(recs_view(records@) =~= json_run(s@.take(0)).records);
        assert(rec_view(rec@) =~= json_run(s@.take(0)).rec);
    }
    while i < cs.len()
        invariant
            i <= cs@.len(),
            cs@ == s@,
            recs_view(records@) == json_run(s@.take(i as int)).records,
            rec_view(rec@) == json_run(s@.take(i as int)).rec,
            key@ == json_run(s@.take(i as int)).key,
            buf@ == json_run(s@.take(i as int)).buf,
            hex@ == json_run(s@.take(i as int)).hex,
            wrapped == json_run(s@.take(i as int)).wrapped,
            mode == json_run(s@.take(i as int)).mode,
            mode != JMode::Failed,
            forall|j: int| 0 <= j < hex@.len() ==> is_hex_digit(#[trigger] hex@[j]),
        decreases cs@.len() - i,
    {
        let ghost st = json_run(s@.take(i as int));
        let c: char = cs[i];
        proof {
            assert(s@.take(i + 1 as int).drop_last() =~= s@.take(i as int));
            assert(s@.take(i + 1 as int).last() == s@[i as int]);
        }
        match mode {
            JMode::Start => {
                if is_ws_exec(c) {
                } else if c == '[' {
                    wrapped = true;
                    mode = JMode::ArrStart;
                } else if c == '{' {
                    mode = JMode::ObjOpen;
                } else {
                    proof {
                        lemma_json_failed_absorbing(s@, i + 1 as int);
                    }
                    return Err(Error::UnsupportedFormat("malformed record text".to_owned()));
                }
            },
            JMode::ArrStart => {
                if is_ws_exec(c) {
                } else if c == '{' {
                    mode = JMode::ObjOpen;
                } else if c == ']' {
                    mode = JMode::Closed;
                } else {
                    proof {
                        lemma_json_failed_absorbing(s@, i + 1 as int);
                    }
                    return Err(Error::UnsupportedFormat("malformed record text".to_owned()));
                }
            },
            JMode::ArrSep => {
                if is_ws_exec(c) {
                } else if c == ',' {
                    mode = JMode::BeforeObj;
                } else if c == ']' {
                    mode = JMode::Closed;
                } else {
                    proof {
                        lemma_json_failed_absorbing(s@, i + 1 as int);
                    }
                    return Err(Error::UnsupportedFormat("malformed record text".to_owned()));
                }
            },
            JMode::BeforeObj => {
                if is_ws_exec(c) {
                } else if c == '{' {
                    mode = JMode::ObjOpen;
                } else {
                    proof {
                        lemma_json_failed_absorbing(s@, i + 1 as int);
                    }
                    return Err(Error::UnsupportedFormat("malformed record text".to_owned()));
                }
            },
            JMode::StreamSep => {
                if is_ws_exec(c) {
                } else if c == '{' {
                    mode = JMode::ObjOpen;
                } else {
                    proof {
                        lemma_json_failed_absorbing(s@, i + 1 as int);
                    }
                    return Err(Error::UnsupportedFormat("malformed record text".to_owned()));
                }
            },
            JMode::Closed => {
                if is_ws_exec(c) {
                } else {
                    proof {
                        lemma_json_failed_absorbing(s@, i + 1 as int);
                    }
                    return Err(Error::UnsupportedFormat("malformed record text".to_owned()));
                }
            },
            JMode::ObjOpen => {
                if is_ws_exec(c) {
                } else if c == '"' {
                    key = Vec::new();
                    mode = JMode::Key;
                } else if c == '}' {
                    records.push(rec);
                    rec = Vec::new();
                    mode = if wrapped {
                        JMode::ArrSep
                    } else {
                        JMode::StreamSep
                    };
                    proof {
                        assert(recs_view(records@) =~= st.records.push(st.rec));
                        assert(rec_view(rec@) =~= Seq::<(Seq<char>, (JKind, Seq<char>))>::empty());
                    }
                } else {
                    proof {
                        lemma_json_failed_absorbing(s@, i + 1 as int);
                    }
                    return Err(Error::UnsupportedFormat("malformed record text".to_owned()));
                }
            },
            JMode::MemberNext => {
                if is_ws_exec(c) {
                } else if c == '"' {
                    key = Vec::new();
                    mode = JMode::Key;
                } else {
                    proof {
                        lemma_json_failed_absorbing(s@, i + 1 as int);
                    }
                    return Err(Error::UnsupportedFormat("malformed record text".to_owned()));
                }
            },
            JMode::Key => {
                if c == '"' {
                    mode = JMode::Colon;
                } else if c == '\\' {
                    mode = JMode::KeyEsc;
                } else {
                    key.push(c);
                }
            },
            JMode::KeyEsc => {
                if c == 'u' {
                    hex = Vec::new();
                    mode = JMode::KeyHex;
                } else {
                    match esc_char_exec(c) {
                        Some(e) => {
                            key.push(e);
                            mode = JMode::Key;
                        },
                        None => {
                            proof {
                                lemma_json_failed_absorbing(s@, i + 1 as int);
                            }
                            return Err(
                                Error::UnsupportedFormat("malformed record text".to_owned()),
                            );
                        },
                    }
                }
            },
            JMode::KeyHex => {
                let u: u32 = c as u32;
                if (48 <= u && u <= 57) || (97 <= u && u <= 102) || (65 <= u && u <= 70) {
                    hex.push(c);
                    if hex.len() == 4 {
                        let v: u32 = hex_digit_val_exec(hex[0]) * 4096 + hex_digit_val_exec(
                            hex[1],
                        ) * 256 + hex_digit_val_exec(hex[2]) * 16 + hex_digit_val_exec(hex[3]);
                        proof {
                            assert(v as int == hex4_val(st.hex.push(c)));
                        }
                        if v < 128 {
                            key.push((v as u8) as char);
                            hex = Vec::new();
                            mode = JMode::Key;
                        } else {
                            proof {
                                lemma_json_failed_absorbing(s@, i + 1 as int);
                            }
                            return Err(
                                Error::UnsupportedFormat("malformed record text".to_owned()),
                            );
                        }
                    }
                } else {
                    proof {
                        lemma_json_failed_absorbing(s@, i + 1 as int);
                    }
                    return Err(Error::UnsupportedFormat("malformed record text".to_owned()));
                }
            },
            JMode::Colon => {
                if is_ws_exec(c) {
                } else if c == ':' {
                    mode = JMode::Val;
                } else {
                    proof {
                        lemma_json_failed_absorbing(s@, i + 1 as int);
                    }
                    return Err(Error::UnsupportedFormat("malformed record text".to_owned()));
                }
            },
            JMode::Val => {
                let u: u32 = c as u32;
                if is_ws_exec(c) {
                } else if c == '"' {
                    buf = Vec::new();
                    mode = JMode::VStr;
                } else if (48 <= u && u <= 57) || c == '-' {
                    buf = Vec::new();
                    buf.push(c);
                    mode = JMode::VNum;
                    proof {
                        assert(buf@ =~= seq![c]);
                    }
                } else if c == 't' || c == 'f' || c == 'n' {
                    buf = Vec::new();
                    buf.push(c);
                    mode = JMode::Lit;
                    proof {
                        assert(buf@ =~= seq![c]);
                    }
                } else {
                    proof {
                        lemma_json_failed_absorbing(s@, i + 1 as int);
                    }
                    return Err(Error::UnsupportedFormat("malformed record text".to_owned()));
                }
            },
            JMode::VStr => {
                if c == '"' {
                    rec.push((string_of(&key), (JKind::JStr, string_of(&buf))));
                    mode = JMode::AfterVal;
                    proof {
                        assert(rec_view(rec@) =~= st.rec.push((st.key, (JKind::JStr, st.buf))));
                    }
                } else if c == '\\' {
                    mode = JMode::VStrEsc;
                } else {
                    buf.push(c);
                }
            },
            JMode::VStrEsc => {
                if c == 'u' {
                    hex = Vec::new();
                    mode = JMode::VStrHex;
                } else {
                    match esc_char_exec(c) {
                        Some(e) => {
                            buf.push(e);
                            mode = JMode::VStr;
                        },
                        None => {
                            proof {
                                lemma_json_failed_absorbing(s@, i + 1 as int);
                            }
                            return Err(
                                Error::UnsupportedFormat("malformed record text".to_owned()),
                            );
                        },
                    }
                }
            },
            JMode::VStrHex => {
                let u: u32 = c as u32;
                if (48 <= u && u <= 57) || (97 <= u && u <= 102) || (65 <= u && u <= 70) {
                    hex.push(c);
                    if hex.len() == 4 {
                        let v: u32 = hex_digit_val_exec(hex[0]) * 4096 + hex_digit_val_exec(
                            hex[1],
                        ) * 256 + hex_digit_val_exec(hex[2]) * 16 + hex_digit_val_exec(hex[3]);
                        proof {
                            assert(v as int == hex4_val(st.hex.push(c)));
                        }
                        if v < 128 {
                            buf.push((v as u8) as char);
                            hex = Vec::new();
                            mode = JMode::VStr;
                        } else {
                            proof {
                                lemma_json_failed_absorbing(s@, i + 1 as int);
                            }
                            return Err(
                                Error::UnsupportedFormat("malformed record text".to_owned()),
                            );
                        }
                    }
                } else {
                    proof {
                        lemma_json_failed_absorbing(s@, i + 1 as int);
                    }
                    return Err(Error::UnsupportedFormat("malformed record text".to_owned()));
                }
            },
            JMode::VNum => {
                let u: u32 = c as u32;
                if (48 <= u && u <= 57) || c == '-' || c == '+' || c == '.' || c == 'e' || c
                    == 'E' {
                    buf.push(c);
                } else if check_float_literal(&buf) {
                    rec.push((string_of(&key), (JKind::JNum, string_of(&buf))));
                    proof {
                        assert(rec_view(rec@) =~= st.rec.push((st.key, (JKind::JNum, st.buf))));
                    }
                    if is_ws_exec(c) {
                        mode = JMode::AfterVal;
                    } else if c == ',' {
                        mode = JMode::MemberNext;
                    } else if c == '}' {
                        records.push(rec);
                        rec = Vec::new();
                        mode = if wrapped {
                            JMode::ArrSep
                        } else {
                            JMode::StreamSep
                        };
                        proof {
                            assert(recs_view(records@) =~= st.records.push(
                                st.rec.push((st.key, (JKind::JNum, st.buf))),
                            ));
                            assert(rec_view(rec@) =~= Seq::<
                                (Seq<char>, (JKind, Seq<char>)),
                            >::empty());
                        }
                    } else {
                        proof {
                            lemma_json_failed_absorbing(s@, i + 1 as int);
                        }
                        return Err(Error::UnsupportedFormat("malformed record text".to_owned()));
                    }
                } else {
                    proof {
                        lemma_json_failed_absorbing(s@, i + 1 as int);
                    }
                    return Err(Error::UnsupportedFormat("malformed record text".to_owned()));
                }
            },
            JMode::Lit => {
                let u: u32 = c as u32;
                if 97 <= u && u <= 122 {
                    buf.push(c);
                } else {
                    match lit_kind_exec(&buf) {
                        Some(k) => {
                            rec.push((string_of(&key), (k, String::new())));
                            proof {
                                assert(rec_view(rec@) =~= st.rec.push(
                                    (st.key, (k, Seq::empty())),
                                ));
                            }
                            if is_ws_exec(c) {
                                mode = JMode::AfterVal;
                            } else if c == ',' {
                                mode = JMode::MemberNext;
                            } else if c == '}' {
                                records.push(rec);
                                rec = Vec::new();
                                mode = if wrapped {
                                    JMode::ArrSep
                                } else {
                                    JMode::StreamSep
                                };
                                proof {
                                    assert(recs_view(records@) =~= st.records.push(
                                        st.rec.push((st.key, (k, Seq::empty()))),
                                    ));
                                    assert(rec_view(rec@) =~= Seq::<
                                        (Seq<char>, (JKind, Seq<char>)),
                                    >::empty());
                                }
                            } else {
                                proof {
                                    lemma_json_failed_absorbing(s@, i + 1 as int);
                                }
                                return Err(
                                    Error::UnsupportedFormat(
                                        "malformed record text".to_owned(),
                                    ),
                                );
                            }
                        },
                        None => {
                            proof {
                                lemma_json_failed_absorbing(s@, i + 1 as int);
                            }
                            return Err(
                                Error::UnsupportedFormat("malformed record text".to_owned()),
                            );
                        },
                    }
                }
            },
            JMode::AfterVal => {
                if is_ws_exec(c) {
                } else if c == ',' {
                    mode = JMode::MemberNext;
                } else if c == '}' {
                    records.push(rec);
                    rec = Vec::new();
                    mode = if wrapped {
                        JMode::ArrSep
                    } else {
                        JMode::StreamSep
                    };
                    proof {
                        assert(recs_view(records@) =~= st.records.push(st.rec));
                        assert(rec_view(rec@) =~= Seq::<(Seq<char>, (JKind, Seq<char>))>::empty());
                    }
                } else {
                    proof {
                        lemma_json_failed_absorbing(s@, i + 1 as int);
                    }
                    return Err(Error::UnsupportedFormat("malformed record text".to_owned()));
                }
            },
            JMode::Failed => {
                proof {
                    assert(false);
                }
            },
        }
        i += 1;
    }
    proof {
        assert(s@.take(cs@.len() as int) =~= s@);
    }
    match mode {
        JMode::Start => Ok(records),
        JMode::StreamSep => Ok(records),
        JMode::Closed => Ok(records),
        _ => Err(Error::UnsupportedFormat("truncated record text".to_owned())),
    }
}

} // verus!
