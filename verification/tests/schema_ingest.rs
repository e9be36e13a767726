use entity_mapper::batch::{Cell, ColType};
use entity_mapper::ingest::{
    format_for_content_type, format_for_extension, ingest, ingest_csv, ingest_json, SourceFormat,
};
use entity_mapper::schema::{
    Affiliation, MapField, MapFieldType, Mapping, Relationship, Schema,
};
use entity_mapper::Error;

fn field(label: &str, over: Option<&str>, dt: &str, reference: Option<&str>) -> MapField {
    MapField {
        label: label.to_string(),
        label_override: over.map(|s| s.to_string()),
        data_type: dt.to_string(),
        reference: reference.map(|s| s.to_string()),
    }
}

fn person_mapping() -> Mapping {
    Mapping {
        fields: vec![
            field("sourceId", None, "String", Some("PERSON.Person!0")),
            field("name", None, "String", Some("PERSON.Person!0")),
            field("age", None, "Int", None),
            field("born", None, "Date", None),
            field("score", None, "Float", None),
        ],
        relationships: Some(vec![Relationship {
            label: "PersonResidesAtAddress".to_string(),
            reference: "PERSON.Person!0-LOCATION.Address!0".to_string(),
            props: vec!["since".to_string()],
        }]),
        source: vec![("sql".to_string(), "select * from graph.person".to_string())],
    }
}

#[test]
fn data_type_tags_round() {
    assert_eq!(MapFieldType::Int.as_string(), "Int");
    assert_eq!(MapFieldType::String.as_string(), "String");
    assert_eq!(MapFieldType::Float.as_string(), "Float");
    assert_eq!(MapFieldType::Date.as_string(), "Date");
    assert_eq!(MapFieldType::from_tag(&"Date".to_string()), Some(MapFieldType::Date));
    assert_eq!(MapFieldType::from_tag(&"Datetime".to_string()), None);
}

#[test]
fn loads_and_resolves_a_mapping() {
    let schema = Schema::load(person_mapping()).unwrap();
    assert_eq!(schema.fields.len(), 5);
    assert_eq!(schema.fields[0].name, "sourceId");
    assert_eq!(schema.fields[0].label, "sourceId");
    assert_eq!(schema.fields[0].data_type, MapFieldType::String);
    match &schema.fields[0].affiliation {
        Some(Affiliation::Entity { token, etype, sub_type, set_id }) => {
            assert_eq!(token, "PERSON.Person!0");
            assert_eq!(etype, "PERSON");
            assert_eq!(sub_type, "Person");
            assert_eq!(set_id, "0");
        },
        other => panic!("expected an entity affiliation, got {:?}", other),
    }
    assert!(schema.fields[2].affiliation.is_none());
    assert_eq!(schema.relationships.len(), 1);
    assert_eq!(schema.relationships[0].from, "PERSON.Person!0");
    assert_eq!(schema.relationships[0].to, "LOCATION.Address!0");
    assert_eq!(schema.get_sql_source().unwrap(), "select * from graph.person");
}

#[test]
fn label_override_sets_effective_label() {
    let mut m = person_mapping();
    m.fields[1].label_override = Some("fullName".to_string());
    let schema = Schema::load(m).unwrap();
    assert_eq!(schema.fields[1].name, "name");
    assert_eq!(schema.fields[1].label, "fullName");
}

#[test]
fn entity_token_without_set_id() {
    let mut m = person_mapping();
    m.fields[0].reference = Some("PERSON.Person".to_string());
    let schema = Schema::load(m).unwrap();
    match &schema.fields[0].affiliation {
        Some(Affiliation::Entity { set_id, .. }) => assert_eq!(set_id, ""),
        other => panic!("expected an entity affiliation, got {:?}", other),
    }
}

#[test]
fn rejects_unknown_data_type_tag() {
    let mut m = person_mapping();
    m.fields[2].data_type = "Integer".to_string();
    match Schema::load(m) {
        Err(Error::Validation(_)) => {},
        other => panic!("expected a validation error, got {:?}", other),
    }
}

#[test]
fn rejects_malformed_entity_token() {
    for bad in ["Person", "PERSON.", ".Person", "PERSON.Person!", "A.B.C", "A.B!x!y"] {
        let mut m = person_mapping();
        m.fields[0].reference = Some(bad.to_string());
        assert!(matches!(Schema::load(m), Err(Error::Validation(_))), "token {:?}", bad);
    }
}

#[test]
fn rejects_malformed_relationship_reference() {
    for bad in ["AB", "-B", "A-", "A-B-C"] {
        let mut m = person_mapping();
        m.relationships.as_mut().unwrap()[0].reference = bad.to_string();
        assert!(matches!(Schema::load(m), Err(Error::Validation(_))), "reference {:?}", bad);
    }
}

#[test]
fn missing_relationships_list_is_empty() {
    let mut m = person_mapping();
    m.relationships = None;
    let schema = Schema::load(m).unwrap();
    assert!(schema.relationships.is_empty());
}

#[test]
fn missing_source_kind() {
    let mut m = person_mapping();
    m.source = vec![("csv".to_string(), "x".to_string())];
    let schema = Schema::load(m).unwrap();
    assert!(matches!(schema.get_sql_source(), Err(Error::MissingSource(_))));
}

#[test]
fn selects_format_by_extension() {
    assert_eq!(format_for_extension("csv").unwrap(), SourceFormat::Csv);
    assert_eq!(format_for_extension("json").unwrap(), SourceFormat::Json);
    assert_eq!(format_for_extension("jsonl").unwrap(), SourceFormat::Json);
    assert!(matches!(format_for_extension("xml"), Err(Error::UnsupportedFormat(_))));
}

#[test]
fn selects_format_by_content_type() {
    assert_eq!(format_for_content_type("text/csv; charset=utf-8").unwrap(), SourceFormat::Csv);
    assert_eq!(format_for_content_type("text/plain").unwrap(), SourceFormat::Csv);
    assert_eq!(format_for_content_type("application/json").unwrap(), SourceFormat::Json);
    assert!(matches!(format_for_content_type("application/xml"), Err(Error::UnsupportedFormat(_))));
    assert!(matches!(format_for_content_type("nonsense"), Err(Error::UnsupportedFormat(_))));
}

#[test]
fn ingests_csv_with_header_quotes_and_crlf() {
    let schema = Schema::load(person_mapping()).unwrap();
    let text = "sourceId,name,age,born,score\r\nid1,\"Smith, \"\"Jo\"\"\",41,2020-01-01,1.5\r\n\r\nid2,Alice,-7,1970-01-02,.25\n";
    let b = ingest_csv(text, &schema).unwrap();
    assert_eq!(b.cols.len(), 5);
    assert_eq!(b.cols[0].name, "sourceId");
    assert_eq!(b.cols[2].ctype, ColType::Int64);
    assert_eq!(b.cols[3].ctype, ColType::Date64);
    assert_eq!(b.rows.len(), 2);
    assert_eq!(b.rows[0][1], Cell::Text("Smith, \"Jo\"".to_string()));
    assert_eq!(b.rows[0][2], Cell::Int(41));
    assert_eq!(b.rows[0][3], Cell::Date(1_577_836_800_000));
    assert_eq!(b.rows[0][4], Cell::Float("1.5".to_string()));
    assert_eq!(b.rows[1][2], Cell::Int(-7));
    assert_eq!(b.rows[1][3], Cell::Date(86_400_000));
}

#[test]
fn csv_type_mismatch_names_field_and_value() {
    let schema = Schema::load(person_mapping()).unwrap();
    let text = "sourceId,name,age,born,score\nid1,Alice,forty,2020-01-01,1.5\n";
    match ingest_csv(text, &schema) {
        Err(Error::TypeMismatch { field, raw }) => {
            assert_eq!(field, "age");
            assert_eq!(raw, "forty");
        },
        other => panic!("expected a type mismatch, got {:?}", other),
    }
}

#[test]
fn csv_rejects_wrong_row_width() {
    let schema = Schema::load(person_mapping()).unwrap();
    let text = "sourceId,name,age,born,score\nid1,Alice\n";
    assert!(matches!(ingest_csv(text, &schema), Err(Error::UnsupportedFormat(_))));
}

#[test]
fn csv_rejects_unterminated_quote() {
    let schema = Schema::load(person_mapping()).unwrap();
    let text = "sourceId,name,age,born,score\n\"id1,Alice,1,2020-01-01,1.5\n";
    assert!(matches!(ingest_csv(text, &schema), Err(Error::UnsupportedFormat(_))));
}

#[test]
fn ingests_json_stream_and_array() {
    let schema = Schema::load(person_mapping()).unwrap();
    let line = "{\"sourceId\":\"id1\",\"name\":\"Al \\\"Big\\\" A\",\"age\":41,\"born\":86400000,\"score\":1.5}";
    let stream = format!("{}\n{}\n", line, line.replace("id1", "id2"));
    let b = ingest_json(stream.as_str(), &schema).unwrap();
    assert_eq!(b.rows.len(), 2);
    assert_eq!(b.rows[0][0], Cell::Text("id1".to_string()));
    assert_eq!(b.rows[0][1], Cell::Text("Al \"Big\" A".to_string()));
    assert_eq!(b.rows[0][2], Cell::Int(41));
    assert_eq!(b.rows[0][3], Cell::Date(86_400_000));
    assert_eq!(b.rows[1][0], Cell::Text("id2".to_string()));

    let array = format!("[{}, {}]", line, line.replace("id1", "id3"));
    let b2 = ingest(array.as_str(), SourceFormat::Json, &schema).unwrap();
    assert_eq!(b2.rows.len(), 2);
    assert_eq!(b2.rows[1][0], Cell::Text("id3".to_string()));
}

#[test]
fn json_unicode_escape_below_ascii_limit() {
    let schema = Schema::load(Mapping {
        fields: vec![field("sourceId", None, "String", Some("P.Q"))],
        relationships: None,
        source: vec![],
    })
    .unwrap();
    let text = "{\"sourceId\":\"a\\u0041b\\tc\"}";
    let b = ingest_json(text, &schema).unwrap();
    assert_eq!(b.rows[0][0], Cell::Text("aAb\tc".to_string()));
}

#[test]
fn json_type_mismatch_on_string_for_int() {
    let schema = Schema::load(person_mapping()).unwrap();
    let text = "{\"sourceId\":\"id1\",\"name\":\"A\",\"age\":\"41\",\"born\":0,\"score\":1}";
    assert!(matches!(ingest_json(text, &schema), Err(Error::TypeMismatch { .. })));
}

#[test]
fn json_missing_member_is_a_mismatch() {
    let schema = Schema::load(person_mapping()).unwrap();
    let text = "{\"sourceId\":\"id1\",\"name\":\"A\",\"age\":41,\"born\":0}";
    assert!(matches!(ingest_json(text, &schema), Err(Error::TypeMismatch { .. })));
}

#[test]
fn json_rejects_nested_values() {
    let schema = Schema::load(person_mapping()).unwrap();
    let text = "{\"sourceId\":\"id1\",\"name\":{\"first\":\"A\"},\"age\":41,\"born\":0,\"score\":1}";
    assert!(matches!(ingest_json(text, &schema), Err(Error::UnsupportedFormat(_))));
}

#[test]
fn only_the_first_batch_of_records_is_read() {
    let schema = Schema::load(Mapping {
        fields: vec![field("sourceId", None, "Int", Some("P.Q"))],
        relationships: None,
        source: vec![],
    })
    .unwrap();
    let mut text = String::from("sourceId\n");
    for i in 0..1500 {
        text.push_str(&format!("{}\n", i));
    }
    let b = ingest_csv(&text, &schema).unwrap();
    assert_eq!(b.rows.len(), 1024);
    assert_eq!(b.rows[0][0], Cell::Int(0));
    assert_eq!(b.rows[1023][0], Cell::Int(1023));
}
