use coldb::cell::FloatReadings;
use coldb::column::ColumnData;
use coldb::database::Database;
use coldb::engine::positions_below;
use coldb::error::EngineError;
use coldb::parser::create::{CreateQuery, ParsedColumn};
use coldb::parser::insert::InsertQuery;
use coldb::parser::select::{Binary, Expression, Operator, SelectQuery};
use coldb::table::Table;

fn strings(items: &[&str]) -> Vec<String> {
    items.iter().map(|s| s.to_string()).collect()
}

fn grid(rows: &[&[&str]]) -> Vec<Vec<String>> {
    rows.iter().map(|r| strings(r)).collect()
}

fn create(name: &str, columns: &[(&str, &str, bool)]) -> CreateQuery {
    CreateQuery {
        table_name: name.to_string(),
        columns: columns
            .iter()
            .map(|(n, t, k)| ParsedColumn {
                name: n.to_string(),
                datatype: t.to_string(),
                is_pk: *k,
                is_nullable: false,
            })
            .collect(),
    }
}

fn insert(table: &str, columns: &[&str], values: &[&[&str]]) -> InsertQuery {
    InsertQuery {
        table_name: table.to_string(),
        columns: strings(columns),
        values: grid(values),
    }
}

fn select(from: &str, projection: &[&str], predicate: Option<(&str, Binary, &str)>) -> SelectQuery {
    SelectQuery {
        from: from.to_string(),
        projection: strings(projection),
        where_expressions: predicate
            .into_iter()
            .map(|(left, op, right)| Expression {
                left: left.to_string(),
                right: right.to_string(),
                op: Operator::Binary(op),
            })
            .collect(),
        offset: None,
        limit: None,
    }
}

fn users() -> Database {
    let mut db = Database::new();
    db.create(create("users", &[("id", "int", true), ("name", "string", false)]));
    let none = FloatReadings::new();
    assert_eq!(
        db.insert(&insert("users", &["id", "name"], &[&["1", "ann"], &["2", "bo"]]), &none),
        Ok(())
    );
    db
}

#[test]
fn a_database_starts_without_tables() {
    let db = Database::new();
    assert!(db.tables.is_empty());
    assert!(db.check());
    assert!(!db.table_exists("users".to_string()));
    assert_eq!(db.find_table("users"), None);
}

#[test]
fn tables_are_added_at_the_end_and_found_first_to_last() {
    let mut db = users();
    db.add_table(Table::new(create("users", &[("x", "bool", false)])));
    db.add_table(Table::new(create("other", &[])));
    assert_eq!(db.tables.len(), 3);
    assert_eq!(db.find_table("users"), Some(0));
    assert_eq!(db.find_table("other"), Some(2));
    assert_eq!(db.get_table("users".to_string()).columns.len(), 2);
    db.get_table_mut("users".to_string()).name = "people".to_string();
    assert_eq!(db.find_table("users"), Some(1));
    assert_eq!(db.find_table("people"), Some(0));
    assert!(db.check());
}

#[test]
fn the_projection_is_expanded_where_the_star_stands() {
    let db = users();
    let t = db.get_table("users".to_string());
    assert_eq!(t.expand_projection(&strings(&["*"])), vec!["id", "name"]);
    assert_eq!(
        t.expand_projection(&strings(&["name", "*", "id"])),
        vec!["name", "id", "name", "id"]
    );
    assert_eq!(
        t.expand_projection(&strings(&["*", "*"])),
        vec!["id", "name", "id", "name"]
    );
    assert_eq!(t.expand_projection(&strings(&["zz", "id"])), vec!["zz", "id"]);
    assert_eq!(t.expand_projection(&[]), Vec::<String>::new());
    let none = FloatReadings::new();
    assert_eq!(
        db.select(&select("users", &["name", "*"], Some(("id", Binary::Eq, "2"))), &none),
        Ok(grid(&[&["bo", "2", "bo"]]))
    );
}

#[test]
fn an_insertion_that_fails_changes_nothing() {
    let mut db = users();
    let none = FloatReadings::new();
    let before = users();
    let attempts = [
        insert("users", &["id", "name"], &[&["3", "cy"], &["1", "dup"]]),
        insert("users", &["id", "name"], &[&["3", "cy"], &["x", "bad"]]),
        insert("users", &["id", "name"], &[&["3", "cy"], &["4"]]),
        insert("users", &["id", "nope"], &[&["3", "cy"]]),
        insert("nowhere", &["id"], &[&["3"]]),
    ];
    for attempt in &attempts {
        assert!(db.insert(attempt, &none).is_err());
        assert_eq!(db, before);
    }
}

#[test]
fn failures_of_an_insertion_come_in_order() {
    let mut db = Database::new();
    db.create(create(
        "t",
        &[("id", "int", true), ("odd", "blob", false), ("n", "string", false)],
    ));
    let none = FloatReadings::new();
    assert_eq!(
        db.insert(&insert("t", &["zz", "odd"], &[&["x"]]), &none),
        Err(EngineError::UnknownColumn("zz".to_string()))
    );
    assert_eq!(
        db.insert(&insert("t", &["id", "odd"], &[&["x"]]), &none),
        Err(EngineError::Internal(
            "a row has fewer values than columns are named".to_string()
        ))
    );
    assert_eq!(
        db.insert(&insert("t", &["id", "odd"], &[&["x", "y"]]), &none),
        Err(EngineError::TypeMismatch("odd".to_string()))
    );
    assert_eq!(
        db.insert(&insert("t", &["n", "id"], &[&["a", "1"], &["b", "x"], &["c", ""]]), &none),
        Err(EngineError::ParseError(
            "not a value of the column's type: x".to_string()
        ))
    );
    assert_eq!(db.insert(&insert("t", &["n", "id"], &[&["a", "1"]]), &none), Ok(()));
    assert_eq!(
        db.insert(&insert("t", &["n", "id"], &[&["b", "2"], &["c", "1"]]), &none),
        Err(EngineError::UniqueViolation(
            "unique constraint violation for column id. Value 1 already exists for column id"
                .to_string()
        ))
    );
    assert_eq!(db.insert(&insert("t", &[], &[&[], &[]]), &none), Ok(()));
    assert_eq!(db.insert(&insert("t", &["n"], &[]), &none), Ok(()));
}

#[test]
fn a_row_may_hold_more_literals_than_columns_are_named() {
    let mut db = users();
    assert_eq!(
        db.insert(
            &insert("users", &["id", "name"], &[&["3", "cy", "spare"]]),
            &FloatReadings::new()
        ),
        Ok(())
    );
    assert_eq!(
        db.get_table("users".to_string()).rows[0].data,
        ColumnData::Int(vec![1, 2, 3])
    );
}

#[test]
fn keys_within_one_insertion_are_not_checked_against_each_other() {
    let mut db = users();
    let none = FloatReadings::new();
    assert_eq!(
        db.insert(&insert("users", &["id", "name"], &[&["7", "a"], &["7", "b"]]), &none),
        Ok(())
    );
    assert_eq!(
        db.select(&select("users", &["name"], Some(("id", Binary::Eq, "7"))), &none),
        Ok(grid(&[&["b"]]))
    );
}

#[test]
fn failures_of_a_selection_come_in_order() {
    let mut db = Database::new();
    db.create(create(
        "t",
        &[
            ("id", "int", true),
            ("odd", "blob", false),
            ("n", "int", false),
            ("w", "float", true),
        ],
    ));
    let none = FloatReadings::new();
    let run = |db: &Database, projection: &[&str], predicate| {
        db.select(&select("t", projection, predicate), &none)
    };
    assert_eq!(
        run(&db, &["id", "zz"], Some(("nope", Binary::Eq, "1"))),
        Err(EngineError::UnknownColumn("zz".to_string()))
    );
    assert_eq!(
        run(&db, &["id", "odd"], Some(("nope", Binary::Eq, "1"))),
        Err(EngineError::UnknownColumn("nope".to_string()))
    );
    assert_eq!(
        run(&db, &["id", "odd"], Some(("odd", Binary::Eq, "1"))),
        Err(EngineError::TypeMismatch("odd".to_string()))
    );
    assert_eq!(
        run(&db, &["id", "odd"], Some(("n", Binary::Eq, "one"))),
        Err(EngineError::ParseError(
            "not a value of the column's type: one".to_string()
        ))
    );
    assert_eq!(
        run(&db, &["id", "odd"], Some(("id", Binary::Eq, "one"))),
        Err(EngineError::ParseError(
            "Error while trying to retrieve value from index: invalid digit found in string"
                .to_string()
        ))
    );
    assert_eq!(
        run(&db, &["id", "odd"], Some(("id", Binary::Eq, "1"))),
        Err(EngineError::TypeMismatch("odd".to_string()))
    );
    assert_eq!(
        run(&db, &["odd"], None),
        Err(EngineError::TypeMismatch("odd".to_string()))
    );
    assert_eq!(run(&db, &["id", "n"], Some(("id", Binary::Eq, "1"))), Ok(grid(&[])));
    assert_eq!(run(&db, &["id"], Some(("w", Binary::Gt, "anything"))), Ok(grid(&[])));
    assert_eq!(run(&db, &["id", "n"], None), Ok(grid(&[])));
    assert_eq!(run(&db, &[], None), Ok(vec![Vec::<String>::new()]));
}

#[test]
fn errors_are_put_in_words() {
    let said = |e: EngineError| e.message();
    assert_eq!(said(EngineError::UnknownTable("t".to_string())), "unknown table t");
    assert_eq!(said(EngineError::UnknownColumn("c".to_string())), "unknown column c");
    assert_eq!(said(EngineError::UniqueViolation("twice".to_string())), "twice");
    assert_eq!(said(EngineError::ParseError("bad".to_string())), "bad");
    assert_eq!(
        said(EngineError::TypeMismatch("odd".to_string())),
        "no value can be held in column odd"
    );
    assert_eq!(said(EngineError::Internal("why".to_string())), "why");
}

#[test]
fn positions_are_held_against_a_length() {
    assert!(positions_below(&[], 0));
    assert!(positions_below(&[0, 2, 1], 3));
    assert!(!positions_below(&[0, 3], 3));
    assert!(!positions_below(&[0], 0));
}
