use entity_mapper::batch::{Cell, ColType, ColumnDef, TypedBatch};
use entity_mapper::data::load_statements;
use entity_mapper::num::{i64_to_string, parse_date_ms, parse_i64, check_float_literal};
use entity_mapper::sql::{check_fqn, escape, generate_ddl, generate_dml, unescape};
use entity_mapper::Error;

fn chars(s: &str) -> Vec<char> {
    entity_mapper::text::chars_of(s)
}

#[test]
fn renders_integers_exactly() {
    assert_eq!(i64_to_string(0), "0");
    assert_eq!(i64_to_string(42), "42");
    assert_eq!(i64_to_string(-5), "-5");
    assert_eq!(i64_to_string(i64::MIN), "-9223372036854775808");
    assert_eq!(i64_to_string(i64::MAX), "9223372036854775807");
}

#[test]
fn parses_integers_exactly() {
    assert_eq!(parse_i64(&chars("123")), Some(123));
    assert_eq!(parse_i64(&chars("-7")), Some(-7));
    assert_eq!(parse_i64(&chars("007")), Some(7));
    assert_eq!(parse_i64(&chars("-9223372036854775808")), Some(i64::MIN));
    assert_eq!(parse_i64(&chars("9223372036854775807")), Some(i64::MAX));
    assert_eq!(parse_i64(&chars("9223372036854775808")), None);
    assert_eq!(parse_i64(&chars("-9223372036854775809")), None);
    assert_eq!(parse_i64(&chars("")), None);
    assert_eq!(parse_i64(&chars("-")), None);
    assert_eq!(parse_i64(&chars("12a")), None);
}

#[test]
fn float_literal_grammar() {
    assert!(check_float_literal(&chars("1.5")));
    assert!(check_float_literal(&chars("-0.25e-3")));
    assert!(check_float_literal(&chars(".5")));
    assert!(check_float_literal(&chars("7")));
    assert!(!check_float_literal(&chars("1.")));
    assert!(!check_float_literal(&chars("")));
    assert!(!check_float_literal(&chars("1e")));
    assert!(!check_float_literal(&chars("abc")));
}

#[test]
fn parses_dates_to_epoch_milliseconds() {
    assert_eq!(parse_date_ms(&chars("1970-01-01")), Some(0));
    assert_eq!(parse_date_ms(&chars("1970-01-02")), Some(86_400_000));
    assert_eq!(parse_date_ms(&chars("2020-01-01")), Some(1_577_836_800_000));
    assert_eq!(parse_date_ms(&chars("2000-02-29")), Some(951_782_400_000));
    assert_eq!(parse_date_ms(&chars("2001-02-29")), None);
    assert_eq!(parse_date_ms(&chars("1969-12-31")), Some(-86_400_000));
    assert_eq!(parse_date_ms(&chars("2020-13-01")), None);
    assert_eq!(parse_date_ms(&chars("2020-00-10")), None);
    assert_eq!(parse_date_ms(&chars("20200110")), None);
}

#[test]
fn escaping_round_trip() {
    let cases = ["", "plain", "O'Brien", "''", "a'b'c", "ends with '"];
    for case in cases {
        let escaped = escape(case);
        assert_eq!(unescape(escaped.as_str()), case);
    }
    assert_eq!(escape("O'Brien"), "O''Brien");
    assert_eq!(unescape("O''Brien"), "O'Brien");
}

fn two_col_batch() -> TypedBatch {
    TypedBatch {
        cols: vec![
            ColumnDef { name: "id".to_string(), ctype: ColType::Int64 },
            ColumnDef { name: "name".to_string(), ctype: ColType::Utf8 },
        ],
        rows: vec![
            vec![Cell::Int(1), Cell::Text("Alice".to_string())],
            vec![Cell::Int(2), Cell::Text("O'Brien".to_string())],
        ],
    }
}

#[test]
fn ddl_statements_for_two_columns() {
    let b = two_col_batch();
    let fqn = "graph.person".to_string();
    assert!(check_fqn(fqn.as_str()));
    let stmts = generate_ddl(&fqn, &b);
    assert_eq!(stmts.len(), 3);
    assert_eq!(stmts[0], "create schema if not exists \"person\";\n");
    assert_eq!(stmts[1], "drop table if exists graph.person;\n");
    assert_eq!(stmts[2], "create table graph.person (\n\tid int\n\t, name varchar\n);\n");
}

#[test]
fn ddl_column_order_follows_batch() {
    let mut b = two_col_batch();
    b.cols.reverse();
    b.rows = vec![];
    let fqn = "graph.person".to_string();
    let stmts = generate_ddl(&fqn, &b);
    assert_eq!(stmts[2], "create table graph.person (\n\tname varchar\n\t, id int\n);\n");
}

#[test]
fn dml_statement_with_escaped_text() {
    let b = two_col_batch();
    let fqn = "graph.person".to_string();
    let stmt = generate_dml(&fqn, &b).unwrap().unwrap();
    assert_eq!(
        stmt,
        "insert into graph.person (id, name)\nvalues\n\t(1, 'Alice')\n\t, (2, 'O''Brien')\n"
    );
}

#[test]
fn dml_renders_dates_and_floats_bare() {
    let b = TypedBatch {
        cols: vec![
            ColumnDef { name: "when".to_string(), ctype: ColType::Date64 },
            ColumnDef { name: "score".to_string(), ctype: ColType::Float64 },
        ],
        rows: vec![vec![Cell::Date(86_400_000), Cell::Float("1.5".to_string())]],
    };
    let fqn = "g.t".to_string();
    let stmt = generate_dml(&fqn, &b).unwrap().unwrap();
    assert_eq!(stmt, "insert into g.t (when, score)\nvalues\n\t(86400000, 1.5)\n");
}

#[test]
fn dml_empty_batch_emits_no_insert() {
    let b = TypedBatch { cols: two_col_batch().cols, rows: vec![] };
    let fqn = "graph.person".to_string();
    assert_eq!(generate_dml(&fqn, &b).unwrap(), None);
    let stmts = load_statements(&fqn, &b).unwrap();
    assert_eq!(stmts.len(), 3);
}

#[test]
fn dml_boolean_column_is_unsupported() {
    let b = TypedBatch {
        cols: vec![ColumnDef { name: "flag".to_string(), ctype: ColType::Boolean }],
        rows: vec![vec![Cell::Bool(true)]],
    };
    let fqn = "g.t".to_string();
    match generate_dml(&fqn, &b) {
        Err(Error::UnsupportedType(_)) => {},
        other => panic!("expected an unsupported-type error, got {:?}", other),
    }
}

#[test]
fn load_statements_are_replayable() {
    let b = two_col_batch();
    let fqn = "graph.person".to_string();
    let first = load_statements(&fqn, &b).unwrap();
    let second = load_statements(&fqn, &b).unwrap();
    assert_eq!(first, second);
    assert_eq!(first.len(), 4);
    assert!(first[1].starts_with("drop table if exists"));
    assert!(first[2].starts_with("create table"));
    assert!(first[3].starts_with("insert into"));
}

#[test]
fn fqn_shape() {
    assert!(check_fqn("a.b"));
    assert!(!check_fqn("ab"));
    assert!(!check_fqn(".b"));
    assert!(!check_fqn("a."));
    assert!(!check_fqn("a.b.c"));
}
