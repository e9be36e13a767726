use entity_mapper::batch::{Cell, ColType, ColumnDef, TypedBatch};
use entity_mapper::data::{Database, Hook, Message, Repository, Webhook};
use entity_mapper::extract::{build_rel_message, row_into_messages, rows_into_messages, RowValue};
use entity_mapper::schema::{MapField, Mapping, Relationship, Schema};
use entity_mapper::Error;
use std::cell::RefCell;

fn field(label: &str, over: Option<&str>, dt: &str, reference: Option<&str>) -> MapField {
    MapField {
        label: label.to_string(),
        label_override: over.map(|s| s.to_string()),
        data_type: dt.to_string(),
        reference: reference.map(|s| s.to_string()),
    }
}

fn scenario_a_schema() -> Schema {
    Schema::load(Mapping {
        fields: vec![
            field("sourceId", None, "String", Some("PERSON.Person!0")),
            field("name", None, "String", Some("PERSON.Person!0")),
        ],
        relationships: None,
        source: vec![("sql".to_string(), "select 1".to_string())],
    })
    .unwrap()
}

fn scenario_b_schema() -> Schema {
    Schema::load(Mapping {
        fields: vec![
            field("sourceId", None, "String", Some("PERSON.Person!0")),
            field("addrId", Some("sourceId"), "String", Some("LOCATION.Address!0")),
        ],
        relationships: Some(vec![Relationship {
            label: "PersonResidesAtAddress".to_string(),
            reference: "PERSON.Person!0-LOCATION.Address!0".to_string(),
            props: vec![],
        }]),
        source: vec![("sql".to_string(), "select 1".to_string())],
    })
    .unwrap()
}

#[test]
fn entity_extraction_scenario() {
    let schema = scenario_a_schema();
    let row = vec![
        RowValue::Text("id123".to_string()),
        RowValue::Text("Alice".to_string()),
    ];
    let mut msgs: Vec<Message> = Vec::new();
    row_into_messages(&row, &schema, &mut msgs).unwrap();
    assert_eq!(msgs.len(), 1);
    assert_eq!(msgs[0].key, "PERSON.Person.id123");
    assert_eq!(
        msgs[0].value,
        "{\"fqn\":\"PERSON.Person!0\",\"type\":\"PERSON\",\"subType\":\"Person\",\"setId\":\"0\",\
         \"sourceId\":\"id123\",\"props\":[\
         {\"label\":\"sourceId\",\"value\":\"id123\",\"dataType\":\"String\"},\
         {\"label\":\"name\",\"value\":\"Alice\",\"dataType\":\"String\"}]}"
    );
}

#[test]
fn relationship_extraction_scenario() {
    let schema = scenario_b_schema();
    let row = vec![
        RowValue::Text("id123".to_string()),
        RowValue::Text("id999".to_string()),
    ];
    let mut msgs: Vec<Message> = Vec::new();
    row_into_messages(&row, &schema, &mut msgs).unwrap();
    assert_eq!(msgs.len(), 3);
    assert_eq!(msgs[0].key, "PERSON.Person.id123");
    assert_eq!(msgs[1].key, "LOCATION.Address.id999");
    assert_eq!(msgs[2].key, "PERSON.Person!0-LOCATION.Address!0.id123-id999");
    assert_eq!(
        msgs[2].value,
        "{\"relType\":\"PersonResidesAtAddress\",\"fromId\":\"id123\",\"toId\":\"id999\",\
         \"props\":[]}"
    );
}

#[test]
fn relationship_props_are_accumulated() {
    let mut m = Mapping {
        fields: vec![
            field("sourceId", None, "String", Some("PERSON.Person!0")),
            field("addrId", Some("sourceId"), "String", Some("LOCATION.Address!0")),
            field("since", None, "Int", Some("PERSON.Person!0-LOCATION.Address!0")),
        ],
        relationships: Some(vec![Relationship {
            label: "PersonResidesAtAddress".to_string(),
            reference: "PERSON.Person!0-LOCATION.Address!0".to_string(),
            props: vec!["since".to_string()],
        }]),
        source: vec![],
    };
    m.fields[2].data_type = "Int".to_string();
    let schema = Schema::load(m).unwrap();
    let row = vec![
        RowValue::Text("id123".to_string()),
        RowValue::Text("id999".to_string()),
        RowValue::Int32(1999),
    ];
    let mut msgs: Vec<Message> = Vec::new();
    row_into_messages(&row, &schema, &mut msgs).unwrap();
    assert_eq!(msgs.len(), 3);
    assert_eq!(
        msgs[2].value,
        "{\"relType\":\"PersonResidesAtAddress\",\"fromId\":\"id123\",\"toId\":\"id999\",\
         \"props\":[{\"label\":\"since\",\"value\":\"1999\",\"dataType\":\"Int\"}]}"
    );
}

#[test]
fn unresolved_endpoint_skips_only_that_relationship() {
    // No field populates the address entity, so the relationship's
    // to-endpoint stays unresolved for this row.
    let m = Mapping {
        fields: vec![field("sourceId", None, "String", Some("PERSON.Person!0"))],
        relationships: Some(vec![Relationship {
            label: "PersonResidesAtAddress".to_string(),
            reference: "PERSON.Person!0-LOCATION.Address!0".to_string(),
            props: vec![],
        }]),
        source: vec![],
    };
    let partial = Schema::load(m).unwrap();
    let row = vec![RowValue::Text("id123".to_string())];
    let mut msgs: Vec<Message> = Vec::new();
    row_into_messages(&row, &partial, &mut msgs).unwrap();
    assert_eq!(msgs.len(), 1);
    assert_eq!(msgs[0].key, "PERSON.Person.id123");
}

#[test]
fn integer_columns_render_in_payloads() {
    let m = Mapping {
        fields: vec![
            field("sourceId", None, "String", Some("P.Q")),
            field("count", None, "Int", Some("P.Q")),
        ],
        relationships: None,
        source: vec![],
    };
    let schema = Schema::load(m).unwrap();
    let row = vec![RowValue::Text("k1".to_string()), RowValue::Int64(-42)];
    let mut msgs: Vec<Message> = Vec::new();
    row_into_messages(&row, &schema, &mut msgs).unwrap();
    assert_eq!(msgs.len(), 1);
    assert_eq!(msgs[0].key, "P.Q.k1");
    assert!(msgs[0].value.contains("{\"label\":\"count\",\"value\":\"-42\",\"dataType\":\"Int\"}"));
}

#[test]
fn missing_identity_fails_the_row() {
    let m = Mapping {
        fields: vec![field("name", None, "String", Some("PERSON.Person!0"))],
        relationships: None,
        source: vec![],
    };
    let schema = Schema::load(m).unwrap();
    let row = vec![RowValue::Text("Alice".to_string())];
    let mut msgs: Vec<Message> = Vec::new();
    match row_into_messages(&row, &schema, &mut msgs) {
        Err(Error::MissingIdentity(token)) => assert_eq!(token, "PERSON.Person!0"),
        other => panic!("expected a missing identity, got {:?}", other),
    }
    assert!(msgs.is_empty());
}

#[test]
fn field_without_affiliation_fails_the_row() {
    let m = Mapping {
        fields: vec![
            field("sourceId", None, "String", Some("P.Q")),
            field("loose", None, "String", None),
        ],
        relationships: None,
        source: vec![],
    };
    let schema = Schema::load(m).unwrap();
    let row = vec![
        RowValue::Text("k".to_string()),
        RowValue::Text("x".to_string()),
    ];
    let mut msgs: Vec<Message> = Vec::new();
    assert!(matches!(
        row_into_messages(&row, &schema, &mut msgs),
        Err(Error::SchemaIntegrity(_))
    ));
    assert!(msgs.is_empty());
}

#[test]
fn unsupported_runtime_column_type_fails_the_row() {
    let schema = scenario_a_schema();
    let row = vec![
        RowValue::Text("id1".to_string()),
        RowValue::Unsupported("jsonb".to_string()),
    ];
    let mut msgs: Vec<Message> = Vec::new();
    match row_into_messages(&row, &schema, &mut msgs) {
        Err(Error::UnsupportedColumnType(name)) => assert_eq!(name, "jsonb"),
        other => panic!("expected an unsupported column type, got {:?}", other),
    }
}

#[test]
fn short_row_fails_the_row() {
    let schema = scenario_a_schema();
    let row = vec![RowValue::Text("id1".to_string())];
    let mut msgs: Vec<Message> = Vec::new();
    assert!(matches!(
        row_into_messages(&row, &schema, &mut msgs),
        Err(Error::SchemaIntegrity(_))
    ));
}

#[test]
fn last_identity_wins() {
    let m = Mapping {
        fields: vec![
            field("sourceId", None, "String", Some("P.Q")),
            field("altId", Some("sourceId"), "String", Some("P.Q")),
        ],
        relationships: None,
        source: vec![],
    };
    let schema = Schema::load(m).unwrap();
    let row = vec![
        RowValue::Text("first".to_string()),
        RowValue::Text("second".to_string()),
    ];
    let mut msgs: Vec<Message> = Vec::new();
    row_into_messages(&row, &schema, &mut msgs).unwrap();
    assert_eq!(msgs[0].key, "P.Q.second");
}

#[test]
fn json_control_characters_are_escaped_in_payloads() {
    let schema = scenario_a_schema();
    let row = vec![
        RowValue::Text("id\"1\\".to_string()),
        RowValue::Text("a\nb\u{1}".to_string()),
    ];
    let mut msgs: Vec<Message> = Vec::new();
    row_into_messages(&row, &schema, &mut msgs).unwrap();
    assert!(msgs[0].value.contains("\"value\":\"id\\\"1\\\\\""));
    assert!(msgs[0].value.contains("\"value\":\"a\\nb\\u0001\""));
}

#[test]
fn rows_extract_in_row_order() {
    let schema = scenario_a_schema();
    let rows = vec![
        vec![
            RowValue::Text("id1".to_string()),
            RowValue::Text("A".to_string()),
        ],
        vec![
            RowValue::Text("id2".to_string()),
            RowValue::Text("B".to_string()),
        ],
    ];
    let msgs = rows_into_messages(&rows, &schema).unwrap();
    assert_eq!(msgs.len(), 2);
    assert_eq!(msgs[0].key, "PERSON.Person.id1");
    assert_eq!(msgs[1].key, "PERSON.Person.id2");
}

struct FakeStore {
    executed: Vec<String>,
    rows: Vec<Vec<RowValue>>,
}

impl Database for FakeStore {
    fn execute(&mut self, stmt: &String) -> Result<(), Error> {
        self.executed.push(stmt.clone());
        Ok(())
    }

    fn query(&mut self, _sql: &String) -> Result<Vec<Vec<RowValue>>, Error> {
        Ok(self.rows.clone())
    }
}

#[test]
fn load_executes_statements_in_order() {
    let b = TypedBatch {
        cols: vec![ColumnDef { name: "id".to_string(), ctype: ColType::Int64 }],
        rows: vec![vec![Cell::Int(7)]],
    };
    let mut repo = Repository { database: FakeStore { executed: vec![], rows: vec![] } };
    let fqn = "graph.person".to_string();
    repo.load(&fqn, &b).unwrap();
    let executed = &repo.database.executed;
    assert_eq!(executed.len(), 4);
    assert!(executed[0].starts_with("create schema if not exists"));
    assert!(executed[1].starts_with("drop table if exists"));
    assert!(executed[2].starts_with("create table"));
    assert!(executed[3].starts_with("insert into"));
}

#[test]
fn to_messages_runs_the_sql_source() {
    let schema = scenario_a_schema();
    let mut repo = Repository {
        database: FakeStore {
            executed: vec![],
            rows: vec![vec![
                RowValue::Text("id1".to_string()),
                RowValue::Text("A".to_string()),
            ]],
        },
    };
    let msgs = repo.to_messages(&schema).unwrap();
    assert_eq!(msgs.len(), 1);
    assert_eq!(msgs[0].key, "PERSON.Person.id1");
}

struct FailingStore;

impl Database for FailingStore {
    fn execute(&mut self, stmt: &String) -> Result<(), Error> {
        Err(Error::Statement(format!("rejected: {}", stmt.lines().next().unwrap_or(""))))
    }

    fn query(&mut self, _sql: &String) -> Result<Vec<Vec<RowValue>>, Error> {
        Err(Error::Query("connection lost".to_string()))
    }
}

#[test]
fn load_propagates_statement_errors() {
    let b = TypedBatch {
        cols: vec![ColumnDef { name: "id".to_string(), ctype: ColType::Int64 }],
        rows: vec![],
    };
    let mut repo = Repository { database: FailingStore };
    let fqn = "graph.person".to_string();
    assert!(matches!(repo.load(&fqn, &b), Err(Error::Statement(_))));
}

#[test]
fn to_messages_propagates_query_errors() {
    let schema = scenario_a_schema();
    let mut repo = Repository { database: FailingStore };
    assert!(matches!(repo.to_messages(&schema), Err(Error::Query(_))));
}

#[test]
fn unresolved_endpoint_error_names_the_reference() {
    let schema = scenario_b_schema();
    let rel = &schema.relationships[0];
    let from = Some("id123".to_string());
    let to: Option<String> = None;
    match build_rel_message(rel, &from, &to, &vec![]) {
        Err(Error::UnresolvedRelationshipEndpoint(reference)) => {
            assert_eq!(reference, "PERSON.Person!0-LOCATION.Address!0");
        },
        other => panic!("expected an unresolved endpoint, got {:?}", other),
    }
}

struct FakeHook {
    sent: RefCell<Vec<(String, String)>>,
    fail_on: Option<usize>,
}

impl Hook for FakeHook {
    fn _send(&self, topic: &str, msg: &Message) -> bool {
        let mut sent = self.sent.borrow_mut();
        sent.push((topic.to_string(), msg.key.clone()));
        match self.fail_on {
            Some(n) => sent.len() - 1 != n,
            None => true,
        }
    }
}

fn three_messages() -> Vec<Message> {
    (0..3)
        .map(|i| Message { key: format!("k{}", i), value: "{}".to_string() })
        .collect()
}

#[test]
fn publish_without_topic_is_not_configured() {
    let wh = Webhook::new(FakeHook { sent: RefCell::new(vec![]), fail_on: None });
    assert_eq!(wh.send(&three_messages()), Err(Error::NotConfigured));
    assert!(wh.hook.sent.borrow().is_empty());
}

#[test]
fn publish_attempts_all_and_aggregates() {
    let mut wh = Webhook::new(FakeHook { sent: RefCell::new(vec![]), fail_on: Some(1) });
    wh.set_topic("entities".to_string());
    assert_eq!(wh.get_topic(), Some("entities".to_string()));
    let ok = wh.send(&three_messages()).unwrap();
    assert!(!ok);
    let sent = wh.hook.sent.borrow();
    assert_eq!(sent.len(), 3);
    assert!(sent.iter().all(|(t, _)| t == "entities"));
    assert_eq!(sent[2].1, "k2");
}

#[test]
fn publish_succeeds_when_all_deliveries_succeed() {
    let mut wh = Webhook::new(FakeHook { sent: RefCell::new(vec![]), fail_on: None });
    wh.set_topic("entities".to_string());
    assert_eq!(wh.send(&three_messages()), Ok(true));
    assert_eq!(wh.hook.sent.borrow().len(), 3);
}

#[test]
fn publish_of_no_messages_succeeds_vacuously() {
    let mut wh = Webhook::new(FakeHook { sent: RefCell::new(vec![]), fail_on: None });
    wh.set_topic("entities".to_string());
    assert_eq!(wh.send(&vec![]), Ok(true));
    assert!(wh.hook.sent.borrow().is_empty());
}
