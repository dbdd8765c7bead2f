use coldb::cell::{FloatReadings, FloatValue, Key};
use coldb::column::ColumnData;
use coldb::database::Database;
use coldb::error::EngineError;
use coldb::index::{ColumnIndex, IndexEntry, OrderedIndex};
use coldb::parser::create::{CreateQuery, ParsedColumn};
use coldb::parser::insert::InsertQuery;
use coldb::parser::select::{Binary, Expression, Operator, SelectQuery};
use coldb::image::{DatabaseImage, TableImage};

fn strings(items: &[&str]) -> Vec<String> {
    items.iter().map(|s| s.to_string()).collect()
}

fn column(name: &str, datatype: &str, is_pk: bool) -> ParsedColumn {
    ParsedColumn {
        name: name.to_string(),
        datatype: datatype.to_string(),
        is_pk,
        is_nullable: false,
    }
}

fn float(literal: &str) -> FloatValue {
    let v: f32 = literal.parse().unwrap();
    FloatValue {
        bits: v.to_bits(),
        text: v.to_string(),
    }
}

fn sample() -> Database {
    let mut db = Database::new();
    db.create(CreateQuery {
        table_name: "u".to_string(),
        columns: vec![column("id", "int", true), column("n", "string", false)],
    });
    db.create(CreateQuery {
        table_name: "m".to_string(),
        columns: vec![
            column("tag", "string", true),
            column("w", "float", false),
            column("ok", "bool", true),
            column("odd", "blob", false),
        ],
    });
    let none = FloatReadings::new();
    db.insert(
        &InsertQuery {
            table_name: "u".to_string(),
            columns: strings(&["id", "n"]),
            values: vec![strings(&["1", "a"]), strings(&["2", "b"])],
        },
        &none,
    )
    .unwrap();
    let mut floats = FloatReadings::new();
    for literal in ["0.5", "2.25"] {
        floats.add(literal.to_string(), float(literal));
    }
    db.insert(
        &InsertQuery {
            table_name: "m".to_string(),
            columns: strings(&["tag", "w", "ok"]),
            values: vec![strings(&["x", "0.5", "true"]), strings(&["k", "2.25", "false"])],
        },
        &floats,
    )
    .unwrap();
    db
}

fn select(from: &str, projection: &[&str], predicate: (&str, Binary, &str)) -> SelectQuery {
    SelectQuery {
        from: from.to_string(),
        projection: strings(projection),
        where_expressions: vec![Expression {
            left: predicate.0.to_string(),
            right: predicate.2.to_string(),
            op: Operator::Binary(predicate.1),
        }],
        offset: None,
        limit: None,
    }
}

#[test]
fn a_restored_database_answers_as_before() {
    let blob = {
        let db = sample();
        db.persist().unwrap()
    };
    let db = Database::restore(&blob).unwrap();
    let none = FloatReadings::new();
    assert_eq!(
        db.select(&select("u", &["id", "n"], ("id", Binary::Eq, "1")), &none),
        Ok(vec![strings(&["1", "a"])])
    );
    assert_eq!(
        db.select(&select("m", &["*"], ("tag", Binary::Gt, "a")), &none),
        Err(EngineError::TypeMismatch("odd".to_string()))
    );
    assert_eq!(
        db.select(&select("m", &["tag", "w", "ok"], ("tag", Binary::Gt, "a")), &none),
        Ok(vec![
            strings(&["k", "2.25", "false"]),
            strings(&["x", "0.5", "true"])
        ])
    );
}

#[test]
fn a_snapshot_holds_the_whole_database() {
    let db = sample();
    let restored = Database::restore(&db.persist().unwrap()).unwrap();
    assert_eq!(restored, db);
    assert!(restored.check());
    assert_eq!(
        Database::restore(&Database::new().persist().unwrap()),
        Some(Database::new())
    );
}

#[test]
fn a_snapshot_of_what_was_restored_is_the_same_snapshot() {
    let first = sample().persist().unwrap();
    let second = Database::restore(&first).unwrap().persist().unwrap();
    assert_eq!(first, second);
}

#[test]
fn insertions_go_on_after_a_restore() {
    let mut db = Database::restore(&sample().persist().unwrap()).unwrap();
    let none = FloatReadings::new();
    let again = InsertQuery {
        table_name: "u".to_string(),
        columns: strings(&["id", "n"]),
        values: vec![strings(&["2", "c"])],
    };
    assert!(db.insert(&again, &none).is_err());
    let fresh = InsertQuery {
        table_name: "u".to_string(),
        columns: strings(&["id", "n"]),
        values: vec![strings(&["3", "c"])],
    };
    assert_eq!(db.insert(&fresh, &none), Ok(()));
    assert_eq!(
        db.get_table("u".to_string()).rows[0].data,
        ColumnData::Int(vec![1, 2, 3])
    );
}

#[test]
fn an_image_is_plain_data() {
    let mut db = Database::new();
    db.create(CreateQuery {
        table_name: "t".to_string(),
        columns: vec![
            column("id", "int", true),
            column("w", "float", false),
            column("ok", "bool", false),
            column("n", "string", false),
            column("odd", "?", false),
        ],
    });
    let mut floats = FloatReadings::new();
    floats.add("1.5".to_string(), float("1.5"));
    db.insert(
        &InsertQuery {
            table_name: "t".to_string(),
            columns: strings(&["id", "w", "ok", "n"]),
            values: vec![strings(&["-7", "1.5", "true", "x"])],
        },
        &floats,
    )
    .unwrap();
    let e = String::new;
    let table: TableImage = (
        "t".to_string(),
        vec![
            ("id".to_string(), 0, true, true, 0, vec![((0, -7, e()), 0)]),
            ("w".to_string(), 2, false, false, 4, vec![]),
            ("ok".to_string(), 3, false, false, 4, vec![]),
            ("n".to_string(), 1, false, false, 4, vec![]),
            ("odd".to_string(), 4, false, false, 4, vec![]),
        ],
        vec![
            ("id".to_string(), 0, vec![(0, -7, e())]),
            ("w".to_string(), 2, vec![(2, 0x3FC0_0000, "1.5".to_string())]),
            ("ok".to_string(), 3, vec![(3, 1, e())]),
            ("n".to_string(), 1, vec![(1, 0, "x".to_string())]),
            ("odd".to_string(), 4, vec![]),
        ],
    );
    assert_eq!(db.to_image(), vec![table.clone()]);
    assert_eq!(Database::from_image(&vec![table]), Some(db));
}

#[test]
fn what_depicts_no_database_is_not_restored() {
    let e = String::new;
    let table = |headers, stores| -> DatabaseImage { vec![("t".to_string(), headers, stores)] };
    let good = table(
        vec![("a".to_string(), 0, true, true, 0, vec![((0, 1, e()), 0), ((0, 2, e()), 1)])],
        vec![("a".to_string(), 0, vec![(0, 2, e()), (0, 1, e())])],
    );
    let db = Database::from_image(&good).unwrap();
    assert_eq!(db.tables[0].rows[0].data, ColumnData::Int(vec![2, 1]));
    assert_eq!(
        db.tables[0].columns[0].index,
        ColumnIndex::Int(OrderedIndex {
            entries: vec![
                IndexEntry { key: Key::Int(1), position: 0 },
                IndexEntry { key: Key::Int(2), position: 1 },
            ]
        })
    );
    let header = |tag: u8, index_tag: u8, entries| {
        vec![("a".to_string(), tag, true, true, index_tag, entries)]
    };
    let store = |name: &str, tag: u8, cells| vec![(name.to_string(), tag, cells)];
    let bad: Vec<DatabaseImage> = vec![
        // keys out of order
        table(
            header(0, 0, vec![((0, 2, e()), 0), ((0, 1, e()), 1)]),
            store("a", 0, vec![]),
        ),
        // a key twice
        table(
            header(0, 0, vec![((0, 1, e()), 0), ((0, 1, e()), 1)]),
            store("a", 0, vec![]),
        ),
        // a key of another kind than the index
        table(header(0, 0, vec![((3, 1, e()), 0)]), store("a", 0, vec![])),
        // an index of another type than the column
        table(header(1, 0, vec![]), store("a", 1, vec![])),
        // an index of floats
        table(header(2, 2, vec![]), store("a", 2, vec![])),
        // pairs without an index
        table(header(0, 4, vec![((0, 1, e()), 0)]), store("a", 0, vec![])),
        // tags that are none
        table(header(5, 4, vec![]), store("a", 0, vec![])),
        table(header(0, 7, vec![]), store("a", 0, vec![])),
        table(header(0, 0, vec![]), store("a", 9, vec![])),
        // a header without store, a store without header, a store twice
        table(header(0, 0, vec![]), vec![]),
        table(header(0, 0, vec![]), store("b", 0, vec![])),
        table(
            header(0, 0, vec![]),
            vec![("a".to_string(), 0, vec![]), ("a".to_string(), 0, vec![])],
        ),
        // cells that are not of the store's type, or not as they are written
        table(header(0, 0, vec![]), store("a", 0, vec![(1, 0, "x".to_string())])),
        table(header(0, 0, vec![]), store("a", 0, vec![(0, 1, "x".to_string())])),
        table(header(0, 0, vec![]), store("a", 0, vec![(0, 1 << 40, e())])),
        table(header(0, 0, vec![]), store("a", 1, vec![(1, 5, e())])),
        table(header(0, 0, vec![]), store("a", 2, vec![(2, -1, e())])),
        table(header(0, 0, vec![]), store("a", 3, vec![(3, 2, e())])),
        table(header(0, 0, vec![]), store("a", 3, vec![(3, 1, "t".to_string())])),
        table(header(0, 0, vec![]), store("a", 4, vec![(0, 1, e())])),
    ];
    for image in &bad {
        assert_eq!(Database::from_image(image), None, "{:?}", image);
    }
    assert_eq!(Database::restore(&[0xFF, 1, 2]), None);
    assert_eq!(Database::restore(&[]), None);
}
