//! The schema model: the raw mapping definition, its validation, and the
//! resolved schema that the batch builder, the statement generators and the
//! row extractor consume.
//!
//! A field's affiliation token is resolved once, at load time, into a tagged
//! variant — an entity address `Type.SubType` / `Type.SubType!SetId` or a
//! relationship reference `FromToken-ToToken` — so that the extractor never
//! re-parses tokens at row time.

use vstd::prelude::*;
use crate::Error;
use crate::text::{chars_of, string_of, string_eq_str};

verus! {

/// The primitive data types a mapping field may declare.
#[derive(Debug, Clone, Copy, PartialEq, Eq, Structural)]
pub enum MapFieldType {
    Int,
    String,
    Float,
    Date,
}

/// The tag under which a data type appears in mapping documents and in
/// message payloads.
pub open spec fn data_type_tag(t: MapFieldType) -> Seq<char> {
    match t {
        MapFieldType::Int => "Int"@,
        MapFieldType::String => "String"@,
        MapFieldType::Float => "Float"@,
        MapFieldType::Date => "Date"@,
    }
}

/// The data type declared by a document tag, if the tag is known.
pub open spec fn tag_of(s: Seq<char>) -> Option<MapFieldType> {
    if s == "Int"@ {
        Some(MapFieldType::Int)
    } else if s == "String"@ {
        Some(MapFieldType::String)
    } else if s == "Float"@ {
        Some(MapFieldType::Float)
    } else if s == "Date"@ {
        Some(MapFieldType::Date)
    } else {
        None
    }
}

impl MapFieldType {
    /// The data type's document tag, as an owned string.
    pub fn as_string(&self) -> (r: String)
        ensures
            r@ == data_type_tag(*self),
    {
        match self {
            MapFieldType::Int => "Int".to_owned(),
            MapFieldType::String => "String".to_owned(),
            MapFieldType::Float => "Float".to_owned(),
            MapFieldType::Date => "Date".to_owned(),
        }
    }

    /// Parses a document tag into the data type it declares.
    pub fn from_tag(s: &String) -> (r: Option<MapFieldType>)
        ensures
            r == tag_of(s@),
    {
        if string_eq_str(s, "Int") {
            Some(MapFieldType::Int)
        } else if string_eq_str(s, "String") {
            Some(MapFieldType::String)
        } else if string_eq_str(s, "Float") {
            Some(MapFieldType::Float)
        } else if string_eq_str(s, "Date") {
            Some(MapFieldType::Date)
        } else {
            None
        }
    }
}

/// One field of the raw mapping definition.
#[derive(Debug, Clone, PartialEq, Eq)]
pub struct MapField {
    /// The source column name; also the default effective label.
    pub label: String,
    /// An optional replacement for the effective label.
    pub label_override: Option<String>,
    /// The declared data-type tag (`Int`, `String`, `Float` or `Date`).
    pub data_type: String,
    /// The affiliation token: an entity address, or a relationship
    /// reference when it contains a hyphen. Absent for load-only fields.
    pub reference: Option<String>,
}

/// One declared relationship of the raw mapping definition.
#[derive(Debug, Clone, PartialEq, Eq)]
pub struct Relationship {
    pub label: String,
    /// A hyphen-joined pair of entity tokens.
    pub reference: String,
    /// The labels of the properties the relationship may carry.
    pub props: Vec<String>,
}

/// The raw mapping definition, as the document gives it.
#[derive(Debug, Clone, PartialEq, Eq)]
pub struct Mapping {
    /// Field order is significant: it fixes column and payload ordering.
    pub fields: Vec<MapField>,
    pub relationships: Option<Vec<Relationship>>,
    /// Source-kind name to locator string, e.g. `sql` to a query.
    pub source: Vec<(String, String)>,
}

/// The index of the first occurrence of `c` in `s`, or -1 if absent.
pub open spec fn char_ix(s: Seq<char>, c: char) -> int
    decreases s.len(),
{
    if s.len() == 0 {
        -1
    } else if s[0] == c {
        0
    } else {
        if char_ix(s.skip(1), c) < 0 {
            -1
        } else {
            char_ix(s.skip(1), c) + 1
        }
    }
}

/// The declarative meaning of `char_ix`.
pub proof fn lemma_char_ix(s: Seq<char>, c: char)
    ensures
        char_ix(s, c) == -1 ==> forall|j: int| 0 <= j < s.len() ==> s[j] != c,
        char_ix(s, c) >= 0 ==> 0 <= char_ix(s, c) < s.len() && s[char_ix(s, c)] == c && forall|
            j: int,
        | 0 <= j < char_ix(s, c) ==> s[j] != c,
    decreases s.len(),
{
    if s.len() > 0 && s[0] != c {
        lemma_char_ix(s.skip(1), c);
        assert forall|j: int| 1 <= j < s.len() implies #[trigger] s[j] == s.skip(1)[j - 1] by {
        }
    }
}

/// Whether `s` holds a hyphen anywhere.
pub open spec fn has_hyphen(s: Seq<char>) -> bool {
    char_ix(s, '-') >= 0
}

/// Whether `s` is a well-formed entity token: `Type.SubType` or
/// `Type.SubType!SetId`, with non-empty segments, exactly one dot, at most
/// one separator `!` placed after the dot, and no hyphen.
pub open spec fn is_entity_token(s: Seq<char>) -> bool {
    let d = char_ix(s, '.');
    let b = char_ix(s, '!');
    &&& !has_hyphen(s)
    &&& 0 < d
    &&& char_ix(s.skip(d + 1), '.') == -1
    &&& if b < 0 {
        d + 1 < s.len()
    } else {
        &&& d < b
        &&& d + 1 < b
        &&& b + 1 < s.len()
        &&& char_ix(s.skip(b + 1), '!') == -1
    }
}

/// The `Type` segment of an entity token.
pub open spec fn ent_type(s: Seq<char>) -> Seq<char>
    recommends
        is_entity_token(s),
{
    s.take(char_ix(s, '.'))
}

/// The `SubType` segment of an entity token.
pub open spec fn ent_sub(s: Seq<char>) -> Seq<char>
    recommends
        is_entity_token(s),
{
    let d = char_ix(s, '.');
    let b = char_ix(s, '!');
    if b < 0 {
        s.skip(d + 1)
    } else {
        s.subrange(d + 1, b)
    }
}

/// The `SetId` segment of an entity token; empty when absent.
pub open spec fn ent_set(s: Seq<char>) -> Seq<char>
    recommends
        is_entity_token(s),
{
    let b = char_ix(s, '!');
    if b < 0 {
        Seq::empty()
    } else {
        s.skip(b + 1)
    }
}

/// Whether `s` is a well-formed relationship reference: exactly one hyphen
/// joining two non-empty tokens.
pub open spec fn is_rel_reference(s: Seq<char>) -> bool {
    let h = char_ix(s, '-');
    &&& 0 < h
    &&& h + 1 < s.len()
    &&& char_ix(s.skip(h + 1), '-') == -1
}

/// The from-token of a relationship reference.
pub open spec fn rel_from(s: Seq<char>) -> Seq<char>
    recommends
        is_rel_reference(s),
{
    s.take(char_ix(s, '-'))
}

/// The to-token of a relationship reference.
pub open spec fn rel_to(s: Seq<char>) -> Seq<char>
    recommends
        is_rel_reference(s),
{
    s.skip(char_ix(s, '-') + 1)
}

/// A field's affiliation, resolved at schema-load time.
#[derive(Debug, Clone, PartialEq, Eq)]
pub enum Affiliation {
    /// An entity address `Type.SubType` or `Type.SubType!SetId`.
    Entity { token: String, etype: String, sub_type: String, set_id: String },
    /// A relationship reference `FromToken-ToToken`.
    Rel { reference: String },
}

/// One resolved schema field.
#[derive(Debug, Clone, PartialEq, Eq)]
pub struct SchemaField {
    /// The column name (the field's document label).
    pub name: String,
    /// The effective label: the override when present, else the label.
    pub label: String,
    pub data_type: MapFieldType,
    pub affiliation: Option<Affiliation>,
}

/// One resolved declared relationship.
#[derive(Debug, Clone, PartialEq, Eq)]
pub struct SchemaRel {
    pub label: String,
    pub reference: String,
    /// The from-token of the reference.
    pub from: String,
    /// The to-token of the reference.
    pub to: String,
    pub props: Vec<String>,
}

/// The validated, resolved schema.
#[derive(Debug, Clone, PartialEq, Eq)]
pub struct Schema {
    pub fields: Vec<SchemaField>,
    pub relationships: Vec<SchemaRel>,
    pub source: Vec<(String, String)>,
}

/// The effective label of a raw field.
pub open spec fn effective_label(f: MapField) -> Seq<char> {
    match f.label_override {
        Some(o) => o@,
        None => f.label@,
    }
}

/// Whether a raw field is well-formed.
pub open spec fn field_ok(f: MapField) -> bool {
    &&& tag_of(f.data_type@) is Some
    &&& match f.reference {
        Some(r) => if has_hyphen(r@) {
            is_rel_reference(r@)
        } else {
            is_entity_token(r@)
        },
        None => true,
    }
}

/// Whether a raw declared relationship is well-formed.
pub open spec fn rel_ok(r: Relationship) -> bool {
    is_rel_reference(r.reference@)
}

/// The declared relationships of a raw mapping; an absent list is empty.
pub open spec fn rels_of(m: Mapping) -> Seq<Relationship> {
    match m.relationships {
        Some(v) => v@,
        None => Seq::empty(),
    }
}

/// Whether a raw mapping is well-formed.
pub open spec fn mapping_ok(m: Mapping) -> bool {
    &&& forall|i: int| 0 <= i < m.fields@.len() ==> field_ok(#[trigger] m.fields@[i])
    &&& forall|i: int| 0 <= i < rels_of(m).len() ==> rel_ok(#[trigger] rels_of(m)[i])
}

/// Whether a resolved affiliation matches a raw reference.
pub open spec fn aff_matches(a: Option<Affiliation>, reference: Option<String>) -> bool {
    match reference {
        None => a is None,
        Some(r) => match a {
            Some(Affiliation::Rel { reference: ar }) => has_hyphen(r@) && ar@ == r@,
            Some(Affiliation::Entity { token, etype, sub_type, set_id }) => {
                &&& !has_hyphen(r@)
                &&& token@ == r@
                &&& etype@ == ent_type(r@)
                &&& sub_type@ == ent_sub(r@)
                &&& set_id@ == ent_set(r@)
            },
            None => false,
        },
    }
}

/// Whether a resolved field matches a raw field.
pub open spec fn field_resolved(sf: SchemaField, f: MapField) -> bool {
    &&& sf.name@ == f.label@
    &&& sf.label@ == effective_label(f)
    &&& Some(sf.data_type) == tag_of(f.data_type@)
    &&& aff_matches(sf.affiliation, f.reference)
}

/// Whether a resolved relationship matches a raw one.
pub open spec fn rel_resolved(sr: SchemaRel, r: Relationship) -> bool {
    &&& sr.label@ == r.label@
    &&& sr.reference@ == r.reference@
    &&& sr.from@ == rel_from(r.reference@)
    &&& sr.to@ == rel_to(r.reference@)
    &&& sr.props@.len() == r.props@.len()
    &&& forall|i: int| 0 <= i < r.props@.len() ==> (#[trigger] sr.props@[i])@ == r.props@[i]@
}

/// Whether a schema is the resolution of a raw mapping.
pub open spec fn schema_resolved(s: Schema, m: Mapping) -> bool {
    &&& s.fields@.len() == m.fields@.len()
    &&& forall|i: int| 0 <= i < m.fields@.len() ==> field_resolved(
        #[trigger] s.fields@[i],
        m.fields@[i],
    )
    &&& s.relationships@.len() == rels_of(m).len()
    &&& forall|i: int| 0 <= i < rels_of(m).len() ==> rel_resolved(
        #[trigger] s.relationships@[i],
        rels_of(m)[i],
    )
    &&& s.source@.len() == m.source@.len()
    &&& forall|i: int| 0 <= i < m.source@.len() ==> (#[trigger] s.source@[i]).0@
        == m.source@[i].0@ && s.source@[i].1@ == m.source@[i].1@
}

/// The index of the first occurrence of `c` in `s` at or after `k`.
pub fn find_char_from(s: &Vec<char>, c: char, k: usize) -> (r: Option<usize>)
    requires
        k <= s@.len(),
    ensures
        r is None ==> char_ix(s@.skip(k as int), c) == -1,
        r matches Some(j) ==> k <= j < s@.len() && char_ix(s@.skip(k as int), c) == j - k,
    decreases s@.len() - k,
{
    if k == s.len() {
        proof {
            assert(s@.skip(k as int) =~= Seq::<char>::empty());
        }
        None
    } else if s[k] == c {
        proof {
            assert(s@.skip(k as int)[0] == s@[k as int]);
        }
        Some(k)
    } else {
        proof {
            assert(s@.skip(k as int)[0] == s@[k as int]);
            assert(s@.skip(k as int).skip(1) =~= s@.skip(k + 1 as int));
        }
        find_char_from(s, c, k + 1)
    }
}

/// Copies `s[a..b]` into a fresh vector.
pub fn sub_chars(s: &Vec<char>, a: usize, b: usize) -> (r: Vec<char>)
    requires
        a <= b && b <= s@.len(),
    ensures
        r@ == s@.subrange(a as int, b as int),
{
    let mut r: Vec<char> = Vec::new();
    let mut i: usize = a;
    while i < b
        invariant
            a <= i <= b && b <= s@.len(),
            r@ == s@.subrange(a as int, i as int),
        decreases b - i,
    {
        r.push(s[i]);
        proof {
            assert(s@.subrange(a as int, i + 1 as int) =~= s@.subrange(a as int, i as int).push(
                s@[i as int],
            ));
        }
        i += 1;
    }
    r
}

/// Parses an entity token into its type, sub-type and set-id segments
/// (the set id is empty when absent), exactly when the token is well formed.
pub fn parse_entity_token(cs: &Vec<char>) -> (r: Option<(String, String, String)>)
    ensures
        r is Some <==> is_entity_token(cs@),
        r matches Some(p) ==> p.0@ == ent_type(cs@) && p.1@ == ent_sub(cs@) && p.2@ == ent_set(
            cs@,
        ),
{
    let n: usize = cs.len();
    proof {
        assert(cs@.skip(0) =~= cs@);
    }
    if find_char_from(cs, '-', 0).is_some() {
        return None;
    }
    let d: usize = match find_char_from(cs, '.', 0) {
        Some(j) => j,
        None => {
            return None;
        },
    };
    if d == 0 {
        return None;
    }
    if find_char_from(cs, '.', d + 1).is_some() {
        return None;
    }
    let b_opt: Option<usize> = find_char_from(cs, '!', 0);
    match b_opt {
        None => {
            if d + 1 >= cs.len() {
                return None;
            }
            let t: String = string_of(&sub_chars(cs, 0, d));
            let u: String = string_of(&sub_chars(cs, d + 1, cs.len()));
            proof {
                assert(cs@.subrange(0, d as int) =~= ent_type(cs@));
                assert(cs@.subrange(d + 1 as int, cs@.len() as int) =~= ent_sub(cs@));
            }
            Some((t, u, String::new()))
        },
        Some(b) => {
            if !(d < b && d + 1 < b && b + 1 < cs.len()) {
                return None;
            }
            if find_char_from(cs, '!', b + 1).is_some() {
                return None;
            }
            let t: String = string_of(&sub_chars(cs, 0, d));
            let u: String = string_of(&sub_chars(cs, d + 1, b));
            let x: String = string_of(&sub_chars(cs, b + 1, cs.len()));
            proof {
                assert(cs@.subrange(0, d as int) =~= ent_type(cs@));
                assert(cs@.subrange(b + 1 as int, cs@.len() as int) =~= ent_set(cs@));
            }
            Some((t, u, x))
        },
    }
}

/// Splits a relationship reference into its from- and to-tokens, exactly
/// when it is well formed.
pub fn parse_rel_reference(cs: &Vec<char>) -> (r: Option<(String, String)>)
    ensures
        r is Some <==> is_rel_reference(cs@),
        r matches Some(p) ==> p.0@ == rel_from(cs@) && p.1@ == rel_to(cs@),
{
    let n: usize = cs.len();
    proof {
        assert(cs@.skip(0) =~= cs@);
    }
    let h: usize = match find_char_from(cs, '-', 0) {
        Some(j) => j,
        None => {
            return None;
        },
    };
    if h == 0 || h + 1 >= cs.len() {
        return None;
    }
    if find_char_from(cs, '-', h + 1).is_some() {
        return None;
    }
    let f: String = string_of(&sub_chars(cs, 0, h));
    let t: String = string_of(&sub_chars(cs, h + 1, cs.len()));
    proof {
        assert(cs@.subrange(0, h as int) =~= rel_from(cs@));
        assert(cs@.subrange(h + 1 as int, cs@.len() as int) =~= rel_to(cs@));
    }
    Some((f, t))
}

/// The locator of the first source entry named `k`, if any.
pub open spec fn source_lookup(src: Seq<(String, String)>, k: Seq<char>) -> Option<Seq<char>>
    decreases src.len(),
{
    if src.len() == 0 {
        None
    } else if src[0].0@ == k {
        Some(src[0].1@)
    } else {
        source_lookup(src.skip(1), k)
    }
}

impl Schema {
    /// Validates a raw mapping and resolves it into a schema: every field's
    /// data-type tag must be known and every affiliation token and declared
    /// relationship reference must be well formed, else a `Validation` error
    /// names the offending field or relationship label.
    pub fn load(m: Mapping) -> (r: Result<Schema, Error>)
        ensures
            r is Ok <==> mapping_ok(m),
            r matches Ok(s) ==> schema_resolved(s, m),
            r matches Err(e) ==> e matches Error::Validation(_),
    {
        let mut fields: Vec<SchemaField> = Vec::new();
        let mut i: usize = 0;
        while i < m.fields.len()
            invariant
                i <= m.fields@.len(),
                fields@.len() == i,
                forall|j: int| 0 <= j < i ==> field_resolved(#[trigger] fields@[j], m.fields@[j]),
                forall|j: int| 0 <= j < i ==> field_ok(#[trigger] m.fields@[j]),
            decreases m.fields@.len() - i,
        {
            let f = &m.fields[i];
            let dt: MapFieldType = match MapFieldType::from_tag(&f.data_type) {
                Some(t) => t,
                None => {
                    return Err(Error::Validation(f.label.clone()));
                },
            };
            let label: String = match &f.label_override {
                Some(o) => o.clone(),
                None => f.label.clone(),
            };
            let affiliation: Option<Affiliation> = match &f.reference {
                None => None,
                Some(rs) => {
                    let cs: Vec<char> = chars_of(rs.as_str());
                    proof {
                        assert(cs@.skip(0) =~= cs@);
                    }
                    if find_char_from(&cs, '-', 0).is_some() {
                        match parse_rel_reference(&cs) {
                            Some(_) => Some(Affiliation::Rel { reference: rs.clone() }),
                            None => {
                                return Err(Error::Validation(f.label.clone()));
                            },
                        }
                    } else {
                        match parse_entity_token(&cs) {
                            Some(p) => Some(
                                Affiliation::Entity {
                                    token: rs.clone(),
                                    etype: p.0,
                                    sub_type: p.1,
                                    set_id: p.2,
                                },
                            ),
                            None => {
                                return Err(Error::Validation(f.label.clone()));
                            },
                        }
                    }
                },
            };
            fields.push(SchemaField { name: f.label.clone(), label, data_type: dt, affiliation });
            i += 1;
        }
        let mut rels: Vec<SchemaRel> = Vec::new();
        match &m.relationships {
            None => {},
            Some(rv) => {
                let mut k: usize = 0;
                while k < rv.len()
                    invariant
                        k <= rv@.len(),
                        rv@ == rels_of(m),
                        rels@.len() == k,
                        forall|j: int| 0 <= j < k ==> rel_resolved(#[trigger] rels@[j], rv@[j]),
                        forall|j: int| 0 <= j < k ==> rel_ok(#[trigger] rv@[j]),
                    decreases rv@.len() - k,
                {
                    let rel = &rv[k];
                    let cs: Vec<char> = chars_of(rel.reference.as_str());
                    match parse_rel_reference(&cs) {
                        Some(p) => {
                            let mut props: Vec<String> = Vec::new();
                            let mut q: usize = 0;
                            while q < rel.props.len()
                                invariant
                                    q <= rel.props@.len(),
                                    props@.len() == q,
                                    forall|j: int| 0 <= j < q ==> (#[trigger] props@[j])@
                                        == rel.props@[j]@,
                                decreases rel.props@.len() - q,
                            {
                                props.push(rel.props[q].clone());
                                q += 1;
                            }
                            rels.push(
                                SchemaRel {
                                    label: rel.label.clone(),
                                    reference: rel.reference.clone(),
                                    from: p.0,
                                    to: p.1,
                                    props,
                                },
                            );
                        },
                        None => {
                            return Err(Error::Validation(rel.label.clone()));
                        },
                    }
                    k += 1;
                }
            },
        }
        let mut source: Vec<(String, String)> = Vec::new();
        let mut k: usize = 0;
        while k < m.source.len()
            invariant
                k <= m.source@.len(),
                source@.len() == k,
                forall|j: int| 0 <= j < k ==> (#[trigger] source@[j]).0@ == m.source@[j].0@
                    && source@[j].1@ == m.source@[j].1@,
            decreases m.source@.len() - k,
        {
            let pair = &m.source[k];
            source.push((pair.0.clone(), pair.1.clone()));
            k += 1;
        }
        Ok(Schema { fields, relationships: rels, source })
    }

    /// The locator declared for the source kind `kind`; `MissingSource`
    /// exactly when the schema declares none.
    pub fn get_source(&self, kind: &str) -> (r: Result<String, Error>)
        ensures
            r matches Ok(v) ==> source_lookup(self.source@, kind@) == Some(v@),
            r is Err <==> source_lookup(self.source@, kind@) is None,
            r matches Err(e) ==> e matches Error::MissingSource(_),
    {
        let n: usize = self.source.len();
        let mut i: usize = 0;
        proof {
            assert(self.source@.skip(0) =~= self.source@);
        }
        while i < n
            invariant
                i <= n,
                n == self.source@.len(),
                source_lookup(self.source@.skip(i as int), kind@) == source_lookup(
                    self.source@,
                    kind@,
                ),
            decreases n - i,
        {
            let pair = &self.source[i];
            proof {
                assert(self.source@.skip(i as int)[0] == self.source@[i as int]);
                assert(self.source@.skip(i as int).skip(1) =~= self.source@.skip(i + 1 as int));
            }
            if string_eq_str(&pair.0, kind) {
                return Ok(pair.1.clone());
            }
            i += 1;
        }
        proof {
            assert(self.source@.skip(n as int) =~= Seq::<(String, String)>::empty());
        }
        Err(Error::MissingSource(kind.to_owned()))
    }

    /// The locator declared for the `sql` source kind.
    pub fn get_sql_source(&self) -> (r: Result<String, Error>)
        ensures
            r matches Ok(v) ==> source_lookup(self.source@, "sql"@) == Some(v@),
            r is Err <==> source_lookup(self.source@, "sql"@) is None,
            r matches Err(e) ==> e matches Error::MissingSource(_),
    {
        self.get_source("sql")
    }
}

} // verus!
