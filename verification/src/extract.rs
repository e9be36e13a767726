//! The row classifier/extractor: converts one query-result row's values to
//! display strings, groups them into entity and relationship buckets by the
//! schema's resolved affiliations, and emits one keyed message per group.
//!
//! Bucket order is first occurrence in schema field order; property order
//! within a payload is schema field order.

use vstd::prelude::*;
use vstd::string::*;
use crate::Error;
use crate::data::Message;
use crate::num::int_str;
use crate::num::i64_to_string;
use crate::schema::{data_type_tag, Affiliation, Schema, SchemaField, SchemaRel};
use crate::text::{chars_of, push_char, string_eq_str};

verus! {

/// One raw column value of a query-result row, with its runtime type tag.
#[derive(Debug, Clone, PartialEq, Eq)]
pub enum RowValue {
    /// A textual column value.
    Text(String),
    /// A 32-bit integer column value.
    Int32(i32),
    /// A 64-bit integer column value.
    Int64(i64),
    /// A value whose runtime column type is outside the supported table;
    /// carries the type's name.
    Unsupported(String),
}

/// The display string of a row value, if its runtime type is supported.
pub open spec fn display_of(v: RowValue) -> Option<Seq<char>> {
    match v {
        RowValue::Text(s) => Some(s@),
        RowValue::Int32(x) => Some(int_str(x as int)),
        RowValue::Int64(x) => Some(int_str(x as int)),
        RowValue::Unsupported(_) => None,
    }
}

/// Converts one row value to its display string;
/// `UnsupportedColumnType`, naming the runtime type, exactly when the
/// value's type is outside the supported table.
pub fn display_value(v: &RowValue) -> (r: Result<String, Error>)
    ensures
        r is Ok <==> display_of(*v) is Some,
        r matches Ok(s) ==> Some(s@) == display_of(*v),
        r matches Err(e) ==> e matches Error::UnsupportedColumnType(_),
{
    match v {
        RowValue::Text(s) => Ok(s.clone()),
        RowValue::Int32(x) => Ok(i64_to_string(*x as i64)),
        RowValue::Int64(x) => Ok(i64_to_string(*x)),
        RowValue::Unsupported(name) => Err(Error::UnsupportedColumnType(name.clone())),
    }
}

/// The hexadecimal digit character with value `d`.
pub open spec fn hex_char(d: int) -> char {
    if d < 10 {
        ((48 + d) as u8) as char
    } else {
        ((87 + d) as u8) as char
    }
}

/// The JSON escaping of one character.
pub open spec fn json_escape_unit(c: char) -> Seq<char> {
    if c == '"' {
        seq!['\\', '"']
    } else if c == '\\' {
        seq!['\\', '\\']
    } else if c == '\n' {
        seq!['\\', 'n']
    } else if c == '\r' {
        seq!['\\', 'r']
    } else if c == '\t' {
        seq!['\\', 't']
    } else if (c as u32) < 32 {
        seq!['\\', 'u', '0', '0', hex_char((c as u32 / 16) as int), hex_char((c as u32 % 16) as int)]
    } else {
        seq![c]
    }
}

/// The JSON escaping of a text.
pub open spec fn json_escape(s: Seq<char>) -> Seq<char>
    decreases s.len(),
{
    if s.len() == 0 {
        Seq::empty()
    } else {
        json_escape(s.drop_last()) + json_escape_unit(s.last())
    }
}

/// A JSON string literal holding `s`.
pub open spec fn json_str(s: Seq<char>) -> Seq<char> {
    "\""@ + json_escape(s) + "\""@
}

/// One property triple rendered as a JSON object.
pub open spec fn prop_json(t: (Seq<char>, Seq<char>, Seq<char>)) -> Seq<char> {
    "{\"label\":"@ + json_str(t.0) + ",\"value\":"@ + json_str(t.1) + ",\"dataType\":"@
        + json_str(t.2) + "}"@
}

/// Property triples rendered as the inside of a JSON array, joined by `,`.
pub open spec fn props_json(ts: Seq<(Seq<char>, Seq<char>, Seq<char>)>) -> Seq<char>
    decreases ts.len(),
{
    if ts.len() == 0 {
        Seq::empty()
    } else if ts.len() == 1 {
        prop_json(ts[0])
    } else {
        props_json(ts.drop_last()) + ","@ + prop_json(ts.last())
    }
}

/// An entity message's key: `Type.SubType.Identity`.
pub open spec fn entity_key(etype: Seq<char>, sub: Seq<char>, ident: Seq<char>) -> Seq<char> {
    etype + "."@ + sub + "."@ + ident
}

/// An entity message's payload.
pub open spec fn entity_payload(
    token: Seq<char>,
    etype: Seq<char>,
    sub: Seq<char>,
    set: Seq<char>,
    ident: Seq<char>,
    ts: Seq<(Seq<char>, Seq<char>, Seq<char>)>,
) -> Seq<char> {
    "{\"fqn\":"@ + json_str(token) + ",\"type\":"@ + json_str(etype) + ",\"subType\":"@
        + json_str(sub) + ",\"setId\":"@ + json_str(set) + ",\"sourceId\":"@ + json_str(ident)
        + ",\"props\":["@ + props_json(ts) + "]}"@
}

/// A relationship message's key: `reference.fromIdentity-toIdentity`.
pub open spec fn rel_key(reference: Seq<char>, fid: Seq<char>, tid: Seq<char>) -> Seq<char> {
    reference + "."@ + fid + "-"@ + tid
}

/// A relationship message's payload.
pub open spec fn rel_payload(
    label: Seq<char>,
    fid: Seq<char>,
    tid: Seq<char>,
    ts: Seq<(Seq<char>, Seq<char>, Seq<char>)>,
) -> Seq<char> {
    "{\"relType\":"@ + json_str(label) + ",\"fromId\":"@ + json_str(fid) + ",\"toId\":"@
        + json_str(tid) + ",\"props\":["@ + props_json(ts) + "]}"@
}

/// The view of a vector of owned property triples.
pub open spec fn triples_view(
    ts: Seq<(String, String, String)>,
) -> Seq<(Seq<char>, Seq<char>, Seq<char>)> {
    ts.map(|i: int, t: (String, String, String)| (t.0@, t.1@, t.2@))
}

/// Appends the JSON escaping of `s` to `out`.
fn append_json_escaped(out: &mut String, s: &str)
    ensures
        final(out)@ == old(out)@ + json_escape(s@),
{
    let cs: Vec<char> = chars_of(s);
    let mut i: usize = 0;
    while i < cs.len()
        invariant
            i <= cs@.len(),
            cs@ == s@,
            out@ == old(out)@ + json_escape(s@.take(i as int)),
        decreases cs@.len() - i,
    {
        let c: char = cs[i];
        let u: u32 = c as u32;
        if c == '"' {
            push_char(out, '\\');
            push_char(out, '"');
        } else if c == '\\' {
            push_char(out, '\\');
            push_char(out, '\\');
        } else if c == '\n' {
            push_char(out, '\\');
            push_char(out, 'n');
        } else if c == '\r' {
            push_char(out, '\\');
            push_char(out, 'r');
        } else if c == '\t' {
            push_char(out, '\\');
            push_char(out, 't');
        } else if u < 32 {
            push_char(out, '\\');
            push_char(out, 'u');
            push_char(out, '0');
            push_char(out, '0');
            let hi: u32 = u / 16;
            let lo: u32 = u % 16;
            let hc: char = if hi < 10 {
                ((48 + hi) as u8) as char
            } else {
                ((87 + hi) as u8) as char
            };
            let lc: char = if lo < 10 {
                ((48 + lo) as u8) as char
            } else {
                ((87 + lo) as u8) as char
            };
            push_char(out, hc);
            push_char(out, lc);
        } else {
            push_char(out, c);
        }
        proof {
            assert(s@.take(i + 1 as int).drop_last() =~= s@.take(i as int));
            assert(s@.take(i + 1 as int).last() == s@[i as int]);
            assert(out@ =~= old(out)@ + json_escape(s@.take(i + 1 as int)));
        }
        i += 1;
    }
    proof {
        assert(s@.take(cs@.len() as int) =~= s@);
    }
}

/// Appends the JSON string literal holding `s` to `out`.
fn append_json_str(out: &mut String, s: &str)
    ensures
        final(out)@ == old(out)@ + json_str(s@),
{
    out.append("\"");
    append_json_escaped(out, s);
    out.append("\"");
    proof {
        assert(out@ =~= old(out)@ + json_str(s@));
    }
}

/// Appends the JSON array body of the property triples to `out`.
fn append_props_json(out: &mut String, ts: &Vec<(String, String, String)>)
    ensures
        final(out)@ == old(out)@ + props_json(triples_view(ts@)),
{
    let mut i: usize = 0;
    proof {
        assert(triples_view(ts@.take(0)) =~= triples_view(ts@).take(0));
        assert(props_json(triples_view(ts@).take(0)) =~= Seq::<char>::empty());
    }
    while i < ts.len()
        invariant
            i <= ts@.len(),
            out@ == old(out)@ + props_json(triples_view(ts@).take(i as int)),
        decreases ts@.len() - i,
    {
        if i > 0 {
            out.append(",");
        }
        out.append("{\"label\":");
        append_json_str(out, ts[i].0.as_str());
        out.append(",\"value\":");
        append_json_str(out, ts[i].1.as_str());
        out.append(",\"dataType\":");
        append_json_str(out, ts[i].2.as_str());
        out.append("}");
        proof {
            let tv = triples_view(ts@);
            assert(tv.len() == ts@.len());
            assert(tv[i as int] == (ts@[i as int].0@, ts@[i as int].1@, ts@[i as int].2@));
            assert(tv.take(i + 1 as int).drop_last() =~= tv.take(i as int));
            assert(tv.take(i + 1 as int).last() == tv[i as int]);
            if i == 0 {
                assert(tv.take(1int)[0] == tv[0]);
            }
            assert(out@ =~= old(out)@ + props_json(tv.take(i + 1 as int)));
        }
        i += 1;
    }
    proof {
        assert(triples_view(ts@).take(ts@.len() as int) =~= triples_view(ts@));
    }
}

/// Builds one relationship message from a declared relationship, the two
/// endpoint identities resolved in the current row, and the accumulated
/// property triples; `UnresolvedRelationshipEndpoint`, naming the
/// reference, exactly when either identity is missing. Callers iterating a
/// row's declared relationships catch this per relationship: the row's
/// other messages are unaffected.
pub fn build_rel_message(
    rel: &SchemaRel,
    from_id: &Option<String>,
    to_id: &Option<String>,
    ts: &Vec<(String, String, String)>,
) -> (r: Result<Message, Error>)
    ensures
        r is Ok <==> from_id is Some && to_id is Some,
        r matches Ok(m) ==> (from_id matches Some(f) && to_id matches Some(t) && m.key@ == rel_key(
            rel.reference@,
            f@,
            t@,
        ) && m.value@ == rel_payload(rel.label@, f@, t@, triples_view(ts@))),
        r matches Err(e) ==> e matches Error::UnresolvedRelationshipEndpoint(_),
{
    match (from_id, to_id) {
        (Some(f), Some(t)) => {
            let mut key: String = String::new();
            key.append(rel.reference.as_str());
            key.append(".");
            key.append(f.as_str());
            key.append("-");
            key.append(t.as_str());
            proof {
                assert(key@ =~= rel_key(rel.reference@, f@, t@));
            }
            let mut value: String = String::new();
            value.append("{\"relType\":");
            append_json_str(&mut value, rel.label.as_str());
            value.append(",\"fromId\":");
            append_json_str(&mut value, f.as_str());
            value.append(",\"toId\":");
            append_json_str(&mut value, t.as_str());
            value.append(",\"props\":[");
            append_props_json(&mut value, ts);
            value.append("]}");
            proof {
                assert(value@ =~= rel_payload(rel.label@, f@, t@, triples_view(ts@)));
            }
            Ok(Message { key, value })
        },
        _ => Err(Error::UnresolvedRelationshipEndpoint(rel.reference.clone())),
    }
}

/// Builds one entity message from a populated bucket's address parts, its
/// resolved identity and its accumulated property triples.
pub fn build_entity_message(
    token: &String,
    etype: &String,
    sub: &String,
    set: &String,
    ident: &String,
    ts: &Vec<(String, String, String)>,
) -> (r: Message)
    ensures
        r.key@ == entity_key(etype@, sub@, ident@),
        r.value@ == entity_payload(token@, etype@, sub@, set@, ident@, triples_view(ts@)),
{
    let mut key: String = String::new();
    key.append(etype.as_str());
    key.append(".");
    key.append(sub.as_str());
    key.append(".");
    key.append(ident.as_str());
    proof {
        assert(key@ =~= entity_key(etype@, sub@, ident@));
    }
    let mut value: String = String::new();
    value.append("{\"fqn\":");
    append_json_str(&mut value, token.as_str());
    value.append(",\"type\":");
    append_json_str(&mut value, etype.as_str());
    value.append(",\"subType\":");
    append_json_str(&mut value, sub.as_str());
    value.append(",\"setId\":");
    append_json_str(&mut value, set.as_str());
    value.append(",\"sourceId\":");
    append_json_str(&mut value, ident.as_str());
    value.append(",\"props\":[");
    append_props_json(&mut value, ts);
    value.append("]}");
    proof {
        assert(value@ =~= entity_payload(token@, etype@, sub@, set@, ident@, triples_view(ts@)));
    }
    Message { key, value }
}

/// The entity token a field contributes to, if any.
pub open spec fn ent_token_of(f: SchemaField) -> Option<Seq<char>> {
    match f.affiliation {
        Some(Affiliation::Entity { token, .. }) => Some(token@),
        _ => None,
    }
}

/// The relationship reference a field contributes to, if any.
pub open spec fn rel_ref_of(f: SchemaField) -> Option<Seq<char>> {
    match f.affiliation {
        Some(Affiliation::Rel { reference }) => Some(reference@),
        _ => None,
    }
}

/// The property triple a field contributes: effective label, display
/// value, data-type tag.
pub open spec fn triple_of(f: SchemaField, v: Seq<char>) -> (Seq<char>, Seq<char>, Seq<char>) {
    (f.label@, v, data_type_tag(f.data_type))
}

/// Entity tokens populated by the fields, in first-occurrence order.
pub open spec fn ent_tokens(fields: Seq<SchemaField>) -> Seq<Seq<char>>
    decreases fields.len(),
{
    if fields.len() == 0 {
        Seq::empty()
    } else {
        let pre = ent_tokens(fields.drop_last());
        match ent_token_of(fields.last()) {
            Some(t) => if pre.contains(t) {
                pre
            } else {
                pre.push(t)
            },
            None => pre,
        }
    }
}

/// The triples accumulated for one entity token, in field order.
pub open spec fn ent_triples(
    fields: Seq<SchemaField>,
    vals: Seq<Seq<char>>,
    token: Seq<char>,
) -> Seq<(Seq<char>, Seq<char>, Seq<char>)>
    recommends
        vals.len() == fields.len(),
    decreases fields.len(),
{
    if fields.len() == 0 {
        Seq::empty()
    } else {
        let pre = ent_triples(fields.drop_last(), vals.drop_last(), token);
        if ent_token_of(fields.last()) == Some(token) {
            pre.push(triple_of(fields.last(), vals.last()))
        } else {
            pre
        }
    }
}

/// The triples accumulated for one relationship reference, in field order.
pub open spec fn rel_triples(
    fields: Seq<SchemaField>,
    vals: Seq<Seq<char>>,
    reference: Seq<char>,
) -> Seq<(Seq<char>, Seq<char>, Seq<char>)>
    recommends
        vals.len() == fields.len(),
    decreases fields.len(),
{
    if fields.len() == 0 {
        Seq::empty()
    } else {
        let pre = rel_triples(fields.drop_last(), vals.drop_last(), reference);
        if rel_ref_of(fields.last()) == Some(reference) {
            pre.push(triple_of(fields.last(), vals.last()))
        } else {
            pre
        }
    }
}

/// The resolved identity of an entity token: the value of the last field of
/// that token whose effective label is the reserved identity label.
pub open spec fn ent_ident(
    fields: Seq<SchemaField>,
    vals: Seq<Seq<char>>,
    token: Seq<char>,
) -> Option<Seq<char>>
    recommends
        vals.len() == fields.len(),
    decreases fields.len(),
{
    if fields.len() == 0 {
        None
    } else if ent_token_of(fields.last()) == Some(token) && fields.last().label@ == "sourceId"@ {
        Some(vals.last())
    } else {
        ent_ident(fields.drop_last(), vals.drop_last(), token)
    }
}

/// The address parts (type, sub-type, set id) recorded at a token's first
/// occurrence among the fields.
pub open spec fn ent_aff_of(fields: Seq<SchemaField>, token: Seq<char>) -> Option<
    (Seq<char>, Seq<char>, Seq<char>),
>
    decreases fields.len(),
{
    if fields.len() == 0 {
        None
    } else {
        let pre = ent_aff_of(fields.drop_last(), token);
        if pre is Some {
            pre
        } else {
            match fields.last().affiliation {
                Some(Affiliation::Entity { token: t, etype, sub_type, set_id }) => if t@ == token {
                    Some((etype@, sub_type@, set_id@))
                } else {
                    None
                },
                _ => None,
            }
        }
    }
}

/// A token's address parts resolve exactly when the token occurs.
pub proof fn lemma_aff_iff_token(fields: Seq<SchemaField>, token: Seq<char>)
    ensures
        ent_aff_of(fields, token) is Some <==> ent_tokens(fields).contains(token),
    decreases fields.len(),
{
    if fields.len() > 0 {
        let dl = fields.drop_last();
        lemma_aff_iff_token(dl, token);
        let pre = ent_tokens(dl);
        match ent_token_of(fields.last()) {
            Some(t) => {
                if pre.contains(t) {
                    assert(ent_tokens(fields) == pre);
                } else {
                    assert(ent_tokens(fields) == pre.push(t));
                }
                if ent_tokens(fields).contains(token) {
                    if pre.contains(token) {
                        assert(ent_aff_of(fields, token) is Some);
                    } else {
                        let i = choose|i: int|
                            0 <= i < ent_tokens(fields).len() && ent_tokens(fields)[i] == token;
                        if pre.contains(t) {
                            assert(pre[i] == token);
                        } else {
                            if i < pre.len() {
                                assert(pre[i] == token);
                            } else {
                                assert(t == token);
                            }
                        }
                        assert(t == token);
                        assert(ent_aff_of(fields, token) is Some);
                    }
                } else {
                    if t == token {
                        if pre.contains(t) {
                        } else {
                            assert(ent_tokens(fields)[ent_tokens(fields).len() - 1] == t);
                        }
                        assert(ent_tokens(fields).contains(token));
                    }
                    assert(!pre.contains(token)) by {
                        if pre.contains(token) {
                            let i = choose|i: int| 0 <= i < pre.len() && pre[i] == token;
                            assert(ent_tokens(fields)[i] == token);
                        }
                    }
                    assert(ent_aff_of(fields, token) is None);
                }
            },
            None => {
                assert(ent_tokens(fields) == pre);
                match fields.last().affiliation {
                    Some(Affiliation::Entity { .. }) => {
                        assert(false);
                    },
                    _ => {},
                }
            },
        }
    }
}

/// The view of a vector of display strings.
pub open spec fn vals_view(vs: Seq<String>) -> Seq<Seq<char>> {
    vs.map(|i: int, s: String| s@)
}

/// The view of an optional owned string.
pub open spec fn opt_view(o: Option<String>) -> Option<Seq<char>> {
    match o {
        Some(s) => Some(s@),
        None => None,
    }
}

/// Whether the first `n` row values all have supported runtime types.
pub open spec fn row_displayable(row: Seq<RowValue>, n: int) -> bool {
    row.len() >= n && forall|i: int| 0 <= i < n ==> display_of(#[trigger] row[i]) is Some
}

/// The display strings of the first `n` row values.
pub open spec fn vals_of(row: Seq<RowValue>, n: int) -> Seq<Seq<char>>
    recommends
        row_displayable(row, n),
{
    Seq::new(n as nat, |i: int| match display_of(row[i]) {
        Some(s) => s,
        None => Seq::empty(),
    })
}

/// Whether every field carries an affiliation.
pub open spec fn all_affiliated(fields: Seq<SchemaField>) -> bool {
    forall|i: int| 0 <= i < fields.len() ==> (#[trigger] fields[i]).affiliation is Some
}

/// Whether every populated entity token resolved an identity.
pub open spec fn all_idents_present(fields: Seq<SchemaField>, vals: Seq<Seq<char>>) -> bool {
    forall|i: int| 0 <= i < ent_tokens(fields).len() ==> ent_ident(
        fields,
        vals,
        #[trigger] ent_tokens(fields)[i],
    ) is Some
}

/// Whether a row extracts without error against the fields.
pub open spec fn extract_ok(fields: Seq<SchemaField>, row: Seq<RowValue>) -> bool {
    &&& row_displayable(row, fields.len() as int)
    &&& all_affiliated(fields)
    &&& all_idents_present(fields, vals_of(row, fields.len() as int))
}

/// The (key, payload) pair emitted for one populated entity token.
pub open spec fn entity_message_of(
    fields: Seq<SchemaField>,
    vals: Seq<Seq<char>>,
    token: Seq<char>,
) -> (Seq<char>, Seq<char>) {
    let aff = match ent_aff_of(fields, token) {
        Some(a) => a,
        None => (Seq::empty(), Seq::empty(), Seq::empty()),
    };
    let id = match ent_ident(fields, vals, token) {
        Some(s) => s,
        None => Seq::empty(),
    };
    (
        entity_key(aff.0, aff.1, id),
        entity_payload(token, aff.0, aff.1, aff.2, id, ent_triples(fields, vals, token)),
    )
}

/// The entity messages of one row: one per populated token, in
/// first-occurrence order.
pub open spec fn entity_messages(fields: Seq<SchemaField>, vals: Seq<Seq<char>>) -> Seq<
    (Seq<char>, Seq<char>),
> {
    Seq::new(ent_tokens(fields).len(), |i: int| entity_message_of(fields, vals, ent_tokens(fields)[i]))
}

/// Whether both endpoints of a declared relationship resolve in the row.
pub open spec fn rel_resolvable(
    fields: Seq<SchemaField>,
    vals: Seq<Seq<char>>,
    rel: SchemaRel,
) -> bool {
    ent_ident(fields, vals, rel.from@) is Some && ent_ident(fields, vals, rel.to@) is Some
}

/// The (key, payload) pair emitted for one resolvable declared
/// relationship.
pub open spec fn rel_message_of(
    fields: Seq<SchemaField>,
    vals: Seq<Seq<char>>,
    rel: SchemaRel,
) -> (Seq<char>, Seq<char>) {
    let f = match ent_ident(fields, vals, rel.from@) {
        Some(s) => s,
        None => Seq::empty(),
    };
    let t = match ent_ident(fields, vals, rel.to@) {
        Some(s) => s,
        None => Seq::empty(),
    };
    (
        rel_key(rel.reference@, f, t),
        rel_payload(rel.label@, f, t, rel_triples(fields, vals, rel.reference@)),
    )
}

/// The relationship messages of one row: one per declared relationship
/// whose both endpoints resolve, in declaration order; an unresolved
/// relationship emits nothing.
pub open spec fn rel_messages(
    rels: Seq<SchemaRel>,
    fields: Seq<SchemaField>,
    vals: Seq<Seq<char>>,
) -> Seq<(Seq<char>, Seq<char>)>
    decreases rels.len(),
{
    if rels.len() == 0 {
        Seq::empty()
    } else {
        let pre = rel_messages(rels.drop_last(), fields, vals);
        if rel_resolvable(fields, vals, rels.last()) {
            pre.push(rel_message_of(fields, vals, rels.last()))
        } else {
            pre
        }
    }
}

/// All messages of one row: the entity messages, then the relationship
/// messages.
pub open spec fn row_messages(schema: Schema, row: Seq<RowValue>) -> Seq<(Seq<char>, Seq<char>)> {
    let vals = vals_of(row, schema.fields@.len() as int);
    entity_messages(schema.fields@, vals) + rel_messages(schema.relationships@, schema.fields@, vals)
}

/// Whether the emitted messages carry exactly the given keys and payloads.
pub open spec fn msgs_match(out: Seq<Message>, ms: Seq<(Seq<char>, Seq<char>)>) -> bool {
    out.len() == ms.len() && forall|i: int| 0 <= i < out.len() ==> (#[trigger] out[i]).key@
        == ms[i].0 && out[i].value@ == ms[i].1
}

/// Collects the property triples of one entity token, in field order.
fn collect_ent_triples(fields: &Vec<SchemaField>, vals: &Vec<String>, token: &String) -> (r: Vec<
    (String, String, String),
>)
    requires
        vals@.len() == fields@.len(),
    ensures
        triples_view(r@) == ent_triples(fields@, vals_view(vals@), token@),
{
    let ghost w = vals_view(vals@);
    let mut r: Vec<(String, String, String)> = Vec::new();
    let mut i: usize = 0;
    proof {
        assert(fields@.take(0) =~= Seq::<SchemaField>::empty());
        assert(w.take(0) =~= Seq::<Seq<char>>::empty());
        assert(triples_view(r@) =~= ent_triples(fields@.take(0), w.take(0), token@));
    }
    while i < fields.len()
        invariant
            i <= fields@.len(),
            vals@.len() == fields@.len(),
            w == vals_view(vals@),
            triples_view(r@) == ent_triples(fields@.take(i as int), w.take(i as int), token@),
        decreases fields@.len() - i,
    {
        let ghost rpre = r@;
        let f = &fields[i];
        let hit: bool = match &f.affiliation {
            Some(Affiliation::Entity { token: t, .. }) => string_eq_str(t, token.as_str()),
            _ => false,
        };
        if hit {
            r.push((f.label.clone(), vals[i].clone(), f.data_type.as_string()));
        }
        proof {
            assert(fields@.take(i + 1 as int).drop_last() =~= fields@.take(i as int));
            assert(w.take(i + 1 as int).drop_last() =~= w.take(i as int));
            assert(fields@.take(i + 1 as int).last() == fields@[i as int]);
            assert(w.take(i + 1 as int).last() == w[i as int]);
            assert(w[i as int] == vals@[i as int]@);
            if hit {
                assert(ent_token_of(fields@[i as int]) == Some(token@));
                assert(triples_view(r@) =~= triples_view(rpre).push(
                    (fields@[i as int].label@, vals@[i as int]@, data_type_tag(
                        fields@[i as int].data_type,
                    )),
                ));
            } else {
                assert(ent_token_of(fields@[i as int]) != Some(token@));
            }
            assert(triples_view(r@) =~= ent_triples(
                fields@.take(i + 1 as int),
                w.take(i + 1 as int),
                token@,
            ));
        }
        i += 1;
    }
    proof {
        assert(fields@.take(fields@.len() as int) =~= fields@);
        assert(w.take(fields@.len() as int) =~= w);
    }
    r
}

/// Collects the property triples of one relationship reference, in field
/// order.
fn collect_rel_triples(fields: &Vec<SchemaField>, vals: &Vec<String>, reference: &String) -> (r:
    Vec<(String, String, String)>)
    requires
        vals@.len() == fields@.len(),
    ensures
        triples_view(r@) == rel_triples(fields@, vals_view(vals@), reference@),
{
    let ghost w = vals_view(vals@);
    let mut r: Vec<(String, String, String)> = Vec::new();
    let mut i: usize = 0;
    proof {
        assert(fields@.take(0) =~= Seq::<SchemaField>::empty());
        assert(w.take(0) =~= Seq::<Seq<char>>::empty());
        assert(triples_view(r@) =~= rel_triples(fields@.take(0), w.take(0), reference@));
    }
    while i < fields.len()
        invariant
            i <= fields@.len(),
            vals@.len() == fields@.len(),
            w == vals_view(vals@),
            triples_view(r@) == rel_triples(fields@.take(i as int), w.take(i as int), reference@),
        decreases fields@.len() - i,
    {
        let ghost rpre = r@;
        let f = &fields[i];
        let hit: bool = match &f.affiliation {
            Some(Affiliation::Rel { reference: t }) => string_eq_str(t, reference.as_str()),
            _ => false,
        };
        if hit {
            r.push((f.label.clone(), vals[i].clone(), f.data_type.as_string()));
        }
        proof {
            assert(fields@.take(i + 1 as int).drop_last() =~= fields@.take(i as int));
            assert(w.take(i + 1 as int).drop_last() =~= w.take(i as int));
            assert(fields@.take(i + 1 as int).last() == fields@[i as int]);
            assert(w.take(i + 1 as int).last() == w[i as int]);
            assert(w[i as int] == vals@[i as int]@);
            if hit {
                assert(rel_ref_of(fields@[i as int]) == Some(reference@));
                assert(triples_view(r@) =~= triples_view(rpre).push(
                    (fields@[i as int].label@, vals@[i as int]@, data_type_tag(
                        fields@[i as int].data_type,
                    )),
                ));
            } else {
                assert(rel_ref_of(fields@[i as int]) != Some(reference@));
            }
            assert(triples_view(r@) =~= rel_triples(
                fields@.take(i + 1 as int),
                w.take(i + 1 as int),
                reference@,
            ));
        }
        i += 1;
    }
    proof {
        assert(fields@.take(fields@.len() as int) =~= fields@);
        assert(w.take(fields@.len() as int) =~= w);
    }
    r
}

/// Resolves the identity recorded for one entity token, last record
/// winning.
fn find_ident(fields: &Vec<SchemaField>, vals: &Vec<String>, token: &String) -> (r: Option<String>)
    requires
        vals@.len() == fields@.len(),
    ensures
        opt_view(r) == ent_ident(fields@, vals_view(vals@), token@),
{
    let ghost w = vals_view(vals@);
    let mut cur: Option<String> = None;
    let mut i: usize = 0;
    proof {
        assert(fields@.take(0) =~= Seq::<SchemaField>::empty());
        assert(w.take(0) =~= Seq::<Seq<char>>::empty());
    }
    while i < fields.len()
        invariant
            i <= fields@.len(),
            vals@.len() == fields@.len(),
            w == vals_view(vals@),
            opt_view(cur) == ent_ident(fields@.take(i as int), w.take(i as int), token@),
        decreases fields@.len() - i,
    {
        let f = &fields[i];
        let hit: bool = match &f.affiliation {
            Some(Affiliation::Entity { token: t, .. }) => string_eq_str(t, token.as_str()),
            _ => false,
        };
        if hit && string_eq_str(&f.label, "sourceId") {
            cur = Some(vals[i].clone());
        }
        proof {
            assert(fields@.take(i + 1 as int).drop_last() =~= fields@.take(i as int));
            assert(w.take(i + 1 as int).drop_last() =~= w.take(i as int));
            assert(fields@.take(i + 1 as int).last() == fields@[i as int]);
            assert(w.take(i + 1 as int).last() == w[i as int]);
            assert(w[i as int] == vals@[i as int]@);
            if hit {
                assert(ent_token_of(fields@[i as int]) == Some(token@));
            } else {
                assert(ent_token_of(fields@[i as int]) != Some(token@));
            }
        }
        i += 1;
    }
    proof {
        assert(fields@.take(fields@.len() as int) =~= fields@);
        assert(w.take(fields@.len() as int) =~= w);
    }
    cur
}

/// Builds the first-occurrence entity token list with each token's address
/// parts.
fn token_list(fields: &Vec<SchemaField>) -> (r: Vec<(String, String, String, String)>)
    ensures
        r@.len() == ent_tokens(fields@).len(),
        forall|k: int| 0 <= k < r@.len() ==> (#[trigger] r@[k]).0@ == ent_tokens(fields@)[k],
        forall|k: int| 0 <= k < r@.len() ==> Some(
            ((#[trigger] r@[k]).1@, r@[k].2@, r@[k].3@),
        ) == ent_aff_of(fields@, ent_tokens(fields@)[k]),
{
    let mut r: Vec<(String, String, String, String)> = Vec::new();
    let mut i: usize = 0;
    proof {
        assert(fields@.take(0) =~= Seq::<SchemaField>::empty());
    }
    while i < fields.len()
        invariant
            i <= fields@.len(),
            r@.len() == ent_tokens(fields@.take(i as int)).len(),
            forall|k: int| 0 <= k < r@.len() ==> (#[trigger] r@[k]).0@ == ent_tokens(
                fields@.take(i as int),
            )[k],
            forall|k: int| 0 <= k < r@.len() ==> Some(
                ((#[trigger] r@[k]).1@, r@[k].2@, r@[k].3@),
            ) == ent_aff_of(fields@.take(i as int), ent_tokens(fields@.take(i as int))[k]),
        decreases fields@.len() - i,
    {
        let ghost prefields = fields@.take(i as int);
        let ghost pretoks = ent_tokens(prefields);
        proof {
            assert(fields@.take(i + 1 as int).drop_last() =~= prefields);
            assert(fields@.take(i + 1 as int).last() == fields@[i as int]);
        }
        let f = &fields[i];
        match &f.affiliation {
            Some(Affiliation::Entity { token, etype, sub_type, set_id }) => {
                let mut found: bool = false;
                let mut k: usize = 0;
                while k < r.len() && !found
                    invariant
                        k <= r@.len(),
                        r@.len() == pretoks.len(),
                        forall|j: int| 0 <= j < r@.len() ==> (#[trigger] r@[j]).0@ == pretoks[j],
                        found ==> pretoks.contains(token@),
                        !found ==> forall|j: int| 0 <= j < k ==> pretoks[j] != token@,
                    decreases r@.len() - k + (if found { 0int } else { 1int }),
                {
                    if string_eq_str(&r[k].0, token.as_str()) {
                        found = true;
                        proof {
                            assert(pretoks[k as int] == token@);
                        }
                    } else {
                        k += 1;
                    }
                }
                proof {
                    if !found {
                        assert(!pretoks.contains(token@)) by {
                            if pretoks.contains(token@) {
                                let j = choose|j: int|
                                    0 <= j < pretoks.len() && pretoks[j] == token@;
                                assert(r@[j].0@ == pretoks[j]);
                            }
                        }
                    }
                    assert(ent_token_of(fields@[i as int]) == Some(token@));
                }
                if !found {
                    r.push((token.clone(), etype.clone(), sub_type.clone(), set_id.clone()));
                    proof {
                        lemma_aff_iff_token(prefields, token@);
                        assert(ent_tokens(fields@.take(i + 1 as int)) =~= pretoks.push(token@));
                        assert forall|k2: int| 0 <= k2 < r@.len() implies Some(
                            ((#[trigger] r@[k2]).1@, r@[k2].2@, r@[k2].3@),
                        ) == ent_aff_of(
                            fields@.take(i + 1 as int),
                            ent_tokens(fields@.take(i + 1 as int))[k2],
                        ) by {
                            if k2 < r@.len() - 1 {
                                assert(ent_tokens(fields@.take(i + 1 as int))[k2] == pretoks[k2]);
                                lemma_aff_iff_token(prefields, pretoks[k2]);
                                assert(pretoks.contains(pretoks[k2]));
                                assert(ent_aff_of(prefields, pretoks[k2]) is Some);
                            } else {
                                assert(ent_tokens(fields@.take(i + 1 as int))[k2] == token@);
                                assert(ent_aff_of(prefields, token@) is None);
                            }
                        }
                    }
                } else {
                    proof {
                        assert(ent_tokens(fields@.take(i + 1 as int)) == pretoks);
                        assert forall|k2: int| 0 <= k2 < r@.len() implies Some(
                            ((#[trigger] r@[k2]).1@, r@[k2].2@, r@[k2].3@),
                        ) == ent_aff_of(
                            fields@.take(i + 1 as int),
                            ent_tokens(fields@.take(i + 1 as int))[k2],
                        ) by {
                            lemma_aff_iff_token(prefields, pretoks[k2]);
                            assert(pretoks.contains(pretoks[k2]));
                            assert(ent_aff_of(prefields, pretoks[k2]) is Some);
                        }
                    }
                }
            },
            _ => {
                proof {
                    assert(ent_token_of(fields@[i as int]) is None);
                    assert(ent_tokens(fields@.take(i + 1 as int)) == pretoks);
                    assert forall|k2: int| 0 <= k2 < r@.len() implies Some(
                        ((#[trigger] r@[k2]).1@, r@[k2].2@, r@[k2].3@),
                    ) == ent_aff_of(
                        fields@.take(i + 1 as int),
                        ent_tokens(fields@.take(i + 1 as int))[k2],
                    ) by {
                        lemma_aff_iff_token(prefields, pretoks[k2]);
                        assert(pretoks.contains(pretoks[k2]));
                        assert(ent_aff_of(prefields, pretoks[k2]) is Some);
                    }
                }
            },
        }
        i += 1;
    }
    proof {
        assert(fields@.take(fields@.len() as int) =~= fields@);
    }
    r
}

/// Classifies one query-result row into entity and relationship messages
/// and appends them: entity messages first, in token first-occurrence
/// order, then one message per resolvable declared relationship, in
/// declaration order. A failing row appends nothing.
///
/// A row with fewer values than the schema has fields, or a field without
/// an affiliation, fails with `SchemaIntegrity`; an unsupported runtime
/// column type fails with `UnsupportedColumnType`; a populated entity
/// bucket without an identity fails with `MissingIdentity`. An unresolved
/// endpoint of a declared relationship skips that relationship alone and
/// never disturbs the row's other messages.
pub fn row_into_messages(row: &Vec<RowValue>, schema: &Schema, messages: &mut Vec<Message>) -> (r:
    Result<(), Error>)
    ensures
        r is Ok <==> extract_ok(schema.fields@, row@),
        r is Ok ==> final(messages)@.len() == old(messages)@.len() + row_messages(
            *schema,
            row@,
        ).len(),
        r is Ok ==> final(messages)@.take(old(messages)@.len() as int) == old(messages)@,
        r is Ok ==> msgs_match(
            final(messages)@.skip(old(messages)@.len() as int),
            row_messages(*schema, row@),
        ),
        r is Err ==> final(messages)@ == old(messages)@,
        r matches Err(e) ==> (e matches Error::UnsupportedColumnType(_) || e
            matches Error::SchemaIntegrity(_) || e matches Error::MissingIdentity(_)),
        row@.len() < schema.fields@.len() ==> (r matches Err(e) && e
            matches Error::SchemaIntegrity(_)),
        row@.len() >= schema.fields@.len() && !row_displayable(
            row@,
            schema.fields@.len() as int,
        ) ==> (r matches Err(e) && e matches Error::UnsupportedColumnType(_)),
        row_displayable(row@, schema.fields@.len() as int) && !all_affiliated(schema.fields@)
            ==> (r matches Err(e) && e matches Error::SchemaIntegrity(_)),
        row_displayable(row@, schema.fields@.len() as int) && all_affiliated(schema.fields@)
            && !all_idents_present(
            schema.fields@,
            vals_of(row@, schema.fields@.len() as int),
        ) ==> (r matches Err(e) && e matches Error::MissingIdentity(_)),
{
    let n: usize = schema.fields.len();
    if row.len() < n {
        return Err(
            Error::SchemaIntegrity(
                "row has fewer values than the schema has fields".to_owned(),
            ),
        );
    }
    let mut vals: Vec<String> = Vec::new();
    let mut i: usize = 0;
    while i < n
        invariant
            i <= n,
            n == schema.fields@.len(),
            row@.len() >= n,
            vals@.len() == i,
            forall|j: int| 0 <= j < i ==> Some((#[trigger] vals@[j])@) == display_of(row@[j]),
        decreases n - i,
    {
        match display_value(&row[i]) {
            Ok(s) => {
                vals.push(s);
            },
            Err(e) => {
                proof {
                    assert(!row_displayable(row@, n as int));
                }
                return Err(e);
            },
        }
        i += 1;
    }
    let ghost w = vals_view(vals@);
    proof {
        assert forall|j: int| 0 <= j < n implies display_of(#[trigger] row@[j]) is Some by {
            assert(Some(vals@[j]@) == display_of(row@[j]));
        }
        assert(row_displayable(row@, n as int));
        assert forall|j: int| 0 <= j < n implies #[trigger] w[j] == vals_of(row@, n as int)[j] by {
            assert(Some(vals@[j]@) == display_of(row@[j]));
            assert(w[j] == vals@[j]@);
        }
        assert(w =~= vals_of(row@, n as int));
    }
    let mut i: usize = 0;
    while i < n
        invariant
            i <= n,
            n == schema.fields@.len(),
            row_displayable(row@, n as int),
            forall|j: int| 0 <= j < i ==> (#[trigger] schema.fields@[j]).affiliation is Some,
        decreases n - i,
    {
        if schema.fields[i].affiliation.is_none() {
            return Err(Error::SchemaIntegrity(schema.fields[i].label.clone()));
        }
        i += 1;
    }
    let toks: Vec<(String, String, String, String)> = token_list(&schema.fields);
    let mut out: Vec<Message> = Vec::new();
    let ghost emsgs = entity_messages(schema.fields@, w);
    let mut k: usize = 0;
    while k < toks.len()
        invariant
            k <= toks@.len(),
            n == schema.fields@.len(),
            vals@.len() == schema.fields@.len(),
            w == vals_view(vals@),
            w == vals_of(row@, n as int),
            row_displayable(row@, n as int),
            all_affiliated(schema.fields@),
            emsgs == entity_messages(schema.fields@, w),
            toks@.len() == ent_tokens(schema.fields@).len(),
            forall|j: int| 0 <= j < toks@.len() ==> (#[trigger] toks@[j]).0@ == ent_tokens(
                schema.fields@,
            )[j],
            forall|j: int| 0 <= j < toks@.len() ==> Some(
                ((#[trigger] toks@[j]).1@, toks@[j].2@, toks@[j].3@),
            ) == ent_aff_of(schema.fields@, ent_tokens(schema.fields@)[j]),
            out@.len() == k,
            forall|j: int| 0 <= j < k ==> (#[trigger] out@[j]).key@ == emsgs[j].0
                && out@[j].value@ == emsgs[j].1,
            forall|j: int| 0 <= j < k ==> ent_ident(
                schema.fields@,
                w,
                ent_tokens(schema.fields@)[j],
            ) is Some,
        decreases toks@.len() - k,
    {
        let tok = &toks[k];
        let ident_opt: Option<String> = find_ident(&schema.fields, &vals, &tok.0);
        match ident_opt {
            None => {
                proof {
                    assert(ent_ident(schema.fields@, w, ent_tokens(schema.fields@)[k as int])
                        is None);
                    assert(!all_idents_present(schema.fields@, w));
                }
                return Err(Error::MissingIdentity(tok.0.clone()));
            },
            Some(id) => {
                let ts: Vec<(String, String, String)> = collect_ent_triples(
                    &schema.fields,
                    &vals,
                    &tok.0,
                );
                let m: Message = build_entity_message(&tok.0, &tok.1, &tok.2, &tok.3, &id, &ts);
                out.push(m);
                proof {
                    let t = ent_tokens(schema.fields@)[k as int];
                    assert(emsgs[k as int] == entity_message_of(schema.fields@, w, t));
                    assert(ent_ident(schema.fields@, w, t) == Some(id@));
                    assert(ent_aff_of(schema.fields@, t) == Some((tok.1@, tok.2@, tok.3@)));
                }
            },
        }
        k += 1;
    }
    proof {
        assert(all_idents_present(schema.fields@, w));
        assert(extract_ok(schema.fields@, row@));
    }
    let ghost rmsgs_full = rel_messages(schema.relationships@, schema.fields@, w);
    let mut q: usize = 0;
    proof {
        assert(schema.relationships@.take(0) =~= Seq::<SchemaRel>::empty());
    }
    while q < schema.relationships.len()
        invariant
            q <= schema.relationships@.len(),
            n == schema.fields@.len(),
            vals@.len() == schema.fields@.len(),
            w == vals_view(vals@),
            emsgs == entity_messages(schema.fields@, w),
            out@.len() == emsgs.len() + rel_messages(
                schema.relationships@.take(q as int),
                schema.fields@,
                w,
            ).len(),
            forall|j: int| 0 <= j < emsgs.len() ==> (#[trigger] out@[j]).key@ == emsgs[j].0
                && out@[j].value@ == emsgs[j].1,
            forall|j: int| emsgs.len() <= j < out@.len() ==> (#[trigger] out@[j]).key@
                == rel_messages(schema.relationships@.take(q as int), schema.fields@, w)[j
                - emsgs.len()].0 && out@[j].value@ == rel_messages(
                schema.relationships@.take(q as int),
                schema.fields@,
                w,
            )[j - emsgs.len()].1,
        decreases schema.relationships@.len() - q,
    {
        let ghost rpre = rel_messages(schema.relationships@.take(q as int), schema.fields@, w);
        let rel = &schema.relationships[q];
        let fi: Option<String> = find_ident(&schema.fields, &vals, &rel.from);
        let ti: Option<String> = find_ident(&schema.fields, &vals, &rel.to);
        let ts: Vec<(String, String, String)> = collect_rel_triples(
            &schema.fields,
            &vals,
            &rel.reference,
        );
        proof {
            assert(schema.relationships@.take(q + 1 as int).drop_last() =~= schema.relationships@
                .take(q as int));
            assert(schema.relationships@.take(q + 1 as int).last()
                == schema.relationships@[q as int]);
        }
        match build_rel_message(rel, &fi, &ti, &ts) {
            Ok(m) => {
                out.push(m);
                proof {
                    assert(rel_resolvable(schema.fields@, w, schema.relationships@[q as int]));
                    assert(rel_messages(
                        schema.relationships@.take(q + 1 as int),
                        schema.fields@,
                        w,
                    ) == rpre.push(
                        rel_message_of(schema.fields@, w, schema.relationships@[q as int]),
                    ));
                }
            },
            Err(_) => {
                proof {
                    assert(!rel_resolvable(schema.fields@, w, schema.relationships@[q as int]));
                    assert(rel_messages(
                        schema.relationships@.take(q + 1 as int),
                        schema.fields@,
                        w,
                    ) == rpre);
                }
            },
        }
        q += 1;
    }
    proof {
        assert(schema.relationships@.take(schema.relationships@.len() as int)
            =~= schema.relationships@);
    }
    let ghost outseq = out@;
    let ghost oldlen = messages@.len();
    messages.append(&mut out);
    proof {
        assert(messages@.take(oldlen as int) =~= old(messages)@);
        assert(messages@.skip(oldlen as int) =~= outseq);
        assert(row_messages(*schema, row@) == emsgs + rmsgs_full);
        assert(msgs_match(outseq, emsgs + rmsgs_full)) by {
            assert(outseq.len() == emsgs.len() + rmsgs_full.len());
            assert forall|j: int| 0 <= j < outseq.len() implies (#[trigger] outseq[j]).key@ == (
            emsgs + rmsgs_full)[j].0 && outseq[j].value@ == (emsgs + rmsgs_full)[j].1 by {
                if j < emsgs.len() {
                    assert((emsgs + rmsgs_full)[j] == emsgs[j]);
                } else {
                    assert((emsgs + rmsgs_full)[j] == rmsgs_full[j - emsgs.len()]);
                }
            }
        }
    }
    Ok(())
}

/// Whether every row of a query result extracts without error.
pub open spec fn rows_ok(schema: Schema, rows: Seq<Vec<RowValue>>) -> bool {
    forall|r: int| 0 <= r < rows.len() ==> extract_ok(schema.fields@, (#[trigger] rows[r])@)
}

/// The messages of all rows, in row order.
pub open spec fn all_rows_messages(schema: Schema, rows: Seq<Vec<RowValue>>) -> Seq<
    (Seq<char>, Seq<char>),
>
    decreases rows.len(),
{
    if rows.len() == 0 {
        Seq::empty()
    } else {
        all_rows_messages(schema, rows.drop_last()) + row_messages(schema, rows.last()@)
    }
}

/// Extracts every row of a query result, in row order; the first failing
/// row aborts the whole extraction.
pub fn rows_into_messages(rows: &Vec<Vec<RowValue>>, schema: &Schema) -> (r: Result<
    Vec<Message>,
    Error,
>)
    ensures
        r is Ok <==> rows_ok(*schema, rows@),
        r matches Ok(ms) ==> msgs_match(ms@, all_rows_messages(*schema, rows@)),
        r matches Err(e) ==> (e matches Error::UnsupportedColumnType(_) || e
            matches Error::SchemaIntegrity(_) || e matches Error::MissingIdentity(_)),
{
    let mut out: Vec<Message> = Vec::new();
    let mut i: usize = 0;
    proof {
        assert(rows@.take(0) =~= Seq::<Vec<RowValue>>::empty());
    }
    while i < rows.len()
        invariant
            i <= rows@.len(),
            forall|j: int| 0 <= j < i ==> extract_ok(schema.fields@, (#[trigger] rows@[j])@),
            msgs_match(out@, all_rows_messages(*schema, rows@.take(i as int))),
        decreases rows@.len() - i,
    {
        let ghost oldout = out@;
        match row_into_messages(&rows[i], schema, &mut out) {
            Ok(_) => {},
            Err(e) => {
                return Err(e);
            },
        }
        proof {
            assert(rows@.take(i + 1 as int).drop_last() =~= rows@.take(i as int));
            assert(rows@.take(i + 1 as int).last() == rows@[i as int]);
            let pre = all_rows_messages(*schema, rows@.take(i as int));
            let rm = row_messages(*schema, rows@[i as int]@);
            assert(all_rows_messages(*schema, rows@.take(i + 1 as int)) == pre + rm);
            assert(msgs_match(out@, pre + rm)) by {
                assert(out@.len() == oldout.len() + rm.len());
                assert(oldout.len() == pre.len());
                assert forall|j: int| 0 <= j < out@.len() implies (#[trigger] out@[j]).key@ == (pre
                    + rm)[j].0 && out@[j].value@ == (pre + rm)[j].1 by {
                    if j < oldout.len() {
                        assert(out@.take(oldout.len() as int)[j] == out@[j]);
                        assert(oldout[j] == out@[j]);
                        assert((pre + rm)[j] == pre[j]);
                    } else {
                        assert(out@.skip(oldout.len() as int)[j - oldout.len()] == out@[j]);
                        assert((pre + rm)[j] == rm[j - pre.len()]);
                    }
                }
            }
        }
        i += 1;
    }
    proof {
        assert(rows@.take(rows@.len() as int) =~= rows@);
    }
    Ok(out)
}

/// The number of messages carrying a given key.
pub open spec fn count_key(ms: Seq<(Seq<char>, Seq<char>)>, key: Seq<char>) -> int
    decreases ms.len(),
{
    if ms.len() == 0 {
        0
    } else {
        count_key(ms.drop_last(), key) + (if ms.last().0 == key {
            1int
        } else {
            0int
        })
    }
}

pub proof fn lemma_count_key_zero(ms: Seq<(Seq<char>, Seq<char>)>, key: Seq<char>)
    requires
        forall|j: int| 0 <= j < ms.len() ==> (#[trigger] ms[j]).0 != key,
    ensures
        count_key(ms, key) == 0,
    decreases ms.len(),
{
    if ms.len() > 0 {
        lemma_count_key_zero(ms.drop_last(), key);
    }
}

pub proof fn lemma_count_key_single(ms: Seq<(Seq<char>, Seq<char>)>, key: Seq<char>, k: int)
    requires
        0 <= k < ms.len(),
        ms[k].0 == key,
        forall|j: int| 0 <= j < ms.len() && j != k ==> (#[trigger] ms[j]).0 != key,
    ensures
        count_key(ms, key) == 1,
    decreases ms.len(),
{
    if k == ms.len() - 1 {
        lemma_count_key_zero(ms.drop_last(), key);
    } else {
        lemma_count_key_single(ms.drop_last(), key, k);
    }
}

pub proof fn lemma_count_key_concat(
    a: Seq<(Seq<char>, Seq<char>)>,
    b: Seq<(Seq<char>, Seq<char>)>,
    key: Seq<char>,
)
    ensures
        count_key(a + b, key) == count_key(a, key) + count_key(b, key),
    decreases b.len(),
{
    if b.len() == 0 {
        assert(a + b =~= a);
    } else {
        assert((a + b).drop_last() =~= a + b.drop_last());
        assert((a + b).last() == b.last());
        lemma_count_key_concat(a, b.drop_last(), key);
    }
}

/// Populated entity tokens are pairwise distinct.
pub proof fn lemma_ent_tokens_distinct(fields: Seq<SchemaField>)
    ensures
        forall|i: int, j: int| 0 <= i < j < ent_tokens(fields).len() ==> ent_tokens(fields)[i]
            != ent_tokens(fields)[j],
    decreases fields.len(),
{
    if fields.len() > 0 {
        let dl = fields.drop_last();
        lemma_ent_tokens_distinct(dl);
        let pre = ent_tokens(dl);
        match ent_token_of(fields.last()) {
            Some(t) => {
                if !pre.contains(t) {
                    assert(ent_tokens(fields) == pre.push(t));
                    assert forall|i: int, j: int|
                        0 <= i < j < ent_tokens(fields).len() implies ent_tokens(fields)[i]
                        != ent_tokens(fields)[j] by {
                        if j == pre.len() {
                            assert(ent_tokens(fields)[j] == t);
                            assert(ent_tokens(fields)[i] == pre[i]);
                            if pre[i] == t {
                                assert(pre.contains(t));
                            }
                        } else {
                            assert(ent_tokens(fields)[i] == pre[i]);
                            assert(ent_tokens(fields)[j] == pre[j]);
                        }
                    }
                }
            },
            None => {},
        }
    }
}

/// Whether a message stems from some resolvable declared relationship.
pub open spec fn msg_from_rel(
    rels: Seq<SchemaRel>,
    fields: Seq<SchemaField>,
    vals: Seq<Seq<char>>,
    m: (Seq<char>, Seq<char>),
) -> bool {
    exists|j: int|
        0 <= j < rels.len() && rel_resolvable(fields, vals, #[trigger] rels[j]) && m
            == rel_message_of(fields, vals, rels[j])
}

/// Every relationship message stems from a resolvable declared
/// relationship.
pub proof fn lemma_rel_messages_provenance(
    rels: Seq<SchemaRel>,
    fields: Seq<SchemaField>,
    vals: Seq<Seq<char>>,
)
    ensures
        forall|x: int| 0 <= x < rel_messages(rels, fields, vals).len() ==> msg_from_rel(
            rels,
            fields,
            vals,
            #[trigger] rel_messages(rels, fields, vals)[x],
        ),
    decreases rels.len(),
{
    if rels.len() > 0 {
        let dl = rels.drop_last();
        lemma_rel_messages_provenance(dl, fields, vals);
        let pre = rel_messages(dl, fields, vals);
        assert forall|x: int| 0 <= x < rel_messages(rels, fields, vals).len() implies msg_from_rel(
            rels,
            fields,
            vals,
            #[trigger] rel_messages(rels, fields, vals)[x],
        ) by {
            if x < pre.len() {
                assert(rel_messages(rels, fields, vals)[x] == pre[x]);
                assert(msg_from_rel(dl, fields, vals, pre[x]));
                let j = choose|j: int|
                    0 <= j < dl.len() && rel_resolvable(fields, vals, #[trigger] dl[j]) && pre[x]
                        == rel_message_of(fields, vals, dl[j]);
                assert(rels[j] == dl[j]);
                assert(rel_resolvable(fields, vals, rels[j]) && rel_messages(rels, fields, vals)[x]
                    == rel_message_of(fields, vals, rels[j]));
            } else {
                let j = rels.len() - 1;
                assert(rel_resolvable(fields, vals, rels[j]));
                assert(rel_messages(rels, fields, vals)[x] == rel_message_of(
                    fields,
                    vals,
                    rels[j],
                ));
            }
        }
    }
}

/// Entity emission: a populated entity token whose identity resolved emits
/// exactly one message of the row, under key `Type.SubType.Identity` —
/// provided no other group of the row renders the same key.
pub proof fn lemma_entity_emission_unique(schema: Schema, row: Seq<RowValue>, k: int)
    requires
        0 <= k < ent_tokens(schema.fields@).len(),
        forall|j: int|
            0 <= j < ent_tokens(schema.fields@).len() && j != k ==> entity_message_of(
                schema.fields@,
                vals_of(row, schema.fields@.len() as int),
                #[trigger] ent_tokens(schema.fields@)[j],
            ).0 != entity_message_of(
                schema.fields@,
                vals_of(row, schema.fields@.len() as int),
                ent_tokens(schema.fields@)[k],
            ).0,
        forall|j: int|
            0 <= j < schema.relationships@.len() && rel_resolvable(
                schema.fields@,
                vals_of(row, schema.fields@.len() as int),
                #[trigger] schema.relationships@[j],
            ) ==> rel_message_of(
                schema.fields@,
                vals_of(row, schema.fields@.len() as int),
                schema.relationships@[j],
            ).0 != entity_message_of(
                schema.fields@,
                vals_of(row, schema.fields@.len() as int),
                ent_tokens(schema.fields@)[k],
            ).0,
    ensures
        count_key(
            row_messages(schema, row),
            entity_message_of(
                schema.fields@,
                vals_of(row, schema.fields@.len() as int),
                ent_tokens(schema.fields@)[k],
            ).0,
        ) == 1,
{
    let vals = vals_of(row, schema.fields@.len() as int);
    let key = entity_message_of(schema.fields@, vals, ent_tokens(schema.fields@)[k]).0;
    let emsgs = entity_messages(schema.fields@, vals);
    let rmsgs = rel_messages(schema.relationships@, schema.fields@, vals);
    lemma_count_key_concat(emsgs, rmsgs, key);
    lemma_count_key_single(emsgs, key, k);
    lemma_rel_messages_provenance(schema.relationships@, schema.fields@, vals);
    assert forall|x: int| 0 <= x < rmsgs.len() implies (#[trigger] rmsgs[x]).0 != key by {
        assert(msg_from_rel(schema.relationships@, schema.fields@, vals, rmsgs[x]));
        let j = choose|j: int|
            0 <= j < schema.relationships@.len() && rel_resolvable(
                schema.fields@,
                vals,
                #[trigger] schema.relationships@[j],
            ) && rmsgs[x] == rel_message_of(schema.fields@, vals, schema.relationships@[j]);
    }
    lemma_count_key_zero(rmsgs, key);
}

/// Relationship emission: a declared relationship whose both endpoints
/// resolve emits exactly one message of the row, under key
/// `reference.fromIdentity-toIdentity` — provided no other group of the row
/// renders the same key.
pub proof fn lemma_relationship_emission_unique(schema: Schema, row: Seq<RowValue>, q: int)
    requires
        0 <= q < schema.relationships@.len(),
        rel_resolvable(
            schema.fields@,
            vals_of(row, schema.fields@.len() as int),
            schema.relationships@[q],
        ),
        forall|j: int|
            0 <= j < schema.relationships@.len() && j != q && rel_resolvable(
                schema.fields@,
                vals_of(row, schema.fields@.len() as int),
                #[trigger] schema.relationships@[j],
            ) ==> rel_message_of(
                schema.fields@,
                vals_of(row, schema.fields@.len() as int),
                schema.relationships@[j],
            ).0 != rel_message_of(
                schema.fields@,
                vals_of(row, schema.fields@.len() as int),
                schema.relationships@[q],
            ).0,
        forall|j: int|
            0 <= j < ent_tokens(schema.fields@).len() ==> entity_message_of(
                schema.fields@,
                vals_of(row, schema.fields@.len() as int),
                #[trigger] ent_tokens(schema.fields@)[j],
            ).0 != rel_message_of(
                schema.fields@,
                vals_of(row, schema.fields@.len() as int),
                schema.relationships@[q],
            ).0,
    ensures
        count_key(
            row_messages(schema, row),
            rel_message_of(
                schema.fields@,
                vals_of(row, schema.fields@.len() as int),
                schema.relationships@[q],
            ).0,
        ) == 1,
{
    let vals = vals_of(row, schema.fields@.len() as int);
    let key = rel_message_of(schema.fields@, vals, schema.relationships@[q]).0;
    let emsgs = entity_messages(schema.fields@, vals);
    let rmsgs = rel_messages(schema.relationships@, schema.fields@, vals);
    lemma_count_key_concat(emsgs, rmsgs, key);
    assert forall|x: int| 0 <= x < emsgs.len() implies (#[trigger] emsgs[x]).0 != key by {
        assert(emsgs[x] == entity_message_of(schema.fields@, vals, ent_tokens(schema.fields@)[x]));
    }
    lemma_count_key_zero(emsgs, key);
    lemma_rel_count_one(schema.relationships@, schema.fields@, vals, q);
}

/// Counting helper for `lemma_relationship_emission_unique`: among the
/// relationship messages alone, the resolvable relationship `q` renders its
/// key exactly once when no other resolvable relationship renders it.
pub proof fn lemma_rel_count_one(
    rels: Seq<SchemaRel>,
    fields: Seq<SchemaField>,
    vals: Seq<Seq<char>>,
    q: int,
)
    requires
        0 <= q < rels.len(),
        rel_resolvable(fields, vals, rels[q]),
        forall|j: int|
            0 <= j < rels.len() && j != q && rel_resolvable(fields, vals, #[trigger] rels[j])
                ==> rel_message_of(fields, vals, rels[j]).0 != rel_message_of(
                fields,
                vals,
                rels[q],
            ).0,
    ensures
        count_key(
            rel_messages(rels, fields, vals),
            rel_message_of(fields, vals, rels[q]).0,
        ) == 1,
    decreases rels.len(),
{
    let key = rel_message_of(fields, vals, rels[q]).0;
    let dl = rels.drop_last();
    let pre = rel_messages(dl, fields, vals);
    let full = rel_messages(rels, fields, vals);
    if q == rels.len() - 1 {
        lemma_rel_messages_provenance(dl, fields, vals);
        assert forall|x: int| 0 <= x < pre.len() implies (#[trigger] pre[x]).0 != key by {
            assert(msg_from_rel(dl, fields, vals, pre[x]));
            let j = choose|j: int|
                0 <= j < dl.len() && rel_resolvable(fields, vals, #[trigger] dl[j]) && pre[x]
                    == rel_message_of(fields, vals, dl[j]);
            assert(rels[j] == dl[j]);
        }
        lemma_count_key_zero(pre, key);
        let m = rel_message_of(fields, vals, rels.last());
        assert(full == pre.push(m));
        assert(full.drop_last() =~= pre);
        assert(full.last() == m);
        assert(count_key(full, key) == count_key(pre, key) + 1);
    } else {
        assert(rels[q] == dl[q]);
        assert forall|j: int|
            0 <= j < dl.len() && j != q && rel_resolvable(fields, vals, #[trigger] dl[j]) implies
            rel_message_of(fields, vals, dl[j]).0 != rel_message_of(fields, vals, dl[q]).0 by {
            assert(rels[j] == dl[j]);
        }
        lemma_rel_count_one(dl, fields, vals, q);
        if rel_resolvable(fields, vals, rels.last()) {
            assert(rel_message_of(fields, vals, rels.last()).0 != key);
            let m = rel_message_of(fields, vals, rels.last());
            assert(full == pre.push(m));
            assert(full.drop_last() =~= pre);
            assert(full.last() == m);
            assert(count_key(full, key) == count_key(pre, key));
        } else {
            assert(full == pre);
        }
    }
}

/// An unresolved declared relationship emits nothing, and removing it from
/// the declaration list leaves the row's relationship messages — and hence
/// every other message — exactly unchanged.
pub proof fn lemma_unresolved_relationship_omitted(
    rels: Seq<SchemaRel>,
    fields: Seq<SchemaField>,
    vals: Seq<Seq<char>>,
    q: int,
)
    requires
        0 <= q < rels.len(),
        !rel_resolvable(fields, vals, rels[q]),
    ensures
        rel_messages(rels, fields, vals) == rel_messages(rels.remove(q), fields, vals),
    decreases rels.len(),
{
    if q == rels.len() - 1 {
        assert(rels.remove(q) =~= rels.drop_last());
    } else {
        let dl = rels.drop_last();
        assert(dl[q] == rels[q]);
        lemma_unresolved_relationship_omitted(dl, fields, vals, q);
        assert(rels.remove(q).drop_last() =~= dl.remove(q));
        assert(rels.remove(q).last() == rels.last());
        assert(rels.remove(q).len() == rels.len() - 1);
    }
}

} // verus!
