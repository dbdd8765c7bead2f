use coldb::cell::{FloatReadings, Key};
use coldb::column::ColumnData;
use coldb::index::{ColumnIndex, IndexEntry, OrderedIndex};
use coldb::parser::create::{CreateQuery, ParsedColumn};
use coldb::parser::select::{Binary, Expression, Operator, SelectQuery};
use coldb::datatype::DataType;
use coldb::header::ColumnHeader;
use coldb::names::position_in;
use coldb::table::{StoredColumn, Table};

fn column(name: &str, datatype: &str, is_pk: bool) -> ParsedColumn {
    ParsedColumn {
        name: name.to_string(),
        datatype: datatype.to_string(),
        is_pk,
        is_nullable: false,
    }
}

fn table(name: &str, columns: Vec<ParsedColumn>) -> Table {
    Table::new(CreateQuery {
        table_name: name.to_string(),
        columns,
    })
}

fn strings(items: &[&str]) -> Vec<String> {
    items.iter().map(|s| s.to_string()).collect()
}

fn grid(rows: &[&[&str]]) -> Vec<Vec<String>> {
    rows.iter().map(|r| strings(r)).collect()
}

fn users() -> Table {
    let mut t = table(
        "users",
        vec![column("id", "int", true), column("name", "string", false)],
    );
    t.insert_row(
        &strings(&["id", "name"]),
        &[strings(&["5", "eve"]), strings(&["3", "cy"]), strings(&["8", "al"])],
        &FloatReadings::new(),
    );
    t
}

fn select(projection: &[&str], predicate: Option<(&str, Binary, &str)>) -> SelectQuery {
    SelectQuery {
        from: "users".to_string(),
        projection: strings(projection),
        where_expressions: predicate
            .into_iter()
            .map(|(left, op, right)| Expression {
                left: left.to_string(),
                right: right.to_string(),
                op: Operator::Binary(op),
            })
            .collect(),
        offset: None,
        limit: None,
    }
}

#[test]
fn type_names_are_resolved_whatever_their_case() {
    assert_eq!(DataType::new("int".to_string()), DataType::Int);
    assert_eq!(DataType::new("INT".to_string()), DataType::Int);
    assert_eq!(DataType::new("String".to_string()), DataType::Str);
    assert_eq!(DataType::new("fLoAt".to_string()), DataType::Float);
    assert_eq!(DataType::new("DOUBLE".to_string()), DataType::Float);
    assert_eq!(DataType::new("Bool".to_string()), DataType::Bool);
    assert_eq!(DataType::new("boolean".to_string()), DataType::Invalid);
    assert_eq!(DataType::new("integer".to_string()), DataType::Invalid);
    assert_eq!(DataType::new("".to_string()), DataType::Invalid);
    assert_eq!(DataType::new(" int".to_string()), DataType::Invalid);
    assert_eq!(DataType::from_lowercase("int"), DataType::Int);
    assert_eq!(DataType::from_lowercase("INT"), DataType::Invalid);
    assert_eq!(DataType::from_lowercase("double"), DataType::Float);
}

#[test]
fn types_are_shown_by_name() {
    assert_eq!(DataType::Int.to_string(), "Int");
    assert_eq!(DataType::Str.to_string(), "Str");
    assert_eq!(DataType::Float.to_string(), "Float");
    assert_eq!(DataType::Bool.to_string(), "Boolean");
    assert_eq!(DataType::Invalid.to_string(), "Invalid");
}

#[test]
fn a_header_is_indexed_if_it_is_a_primary_key() {
    let h = ColumnHeader::new("id".to_string(), "Int".to_string(), true);
    assert_eq!(h.name, "id");
    assert_eq!(h.datatype, DataType::Int);
    assert!(h.is_primary_key);
    assert!(h.is_indexed);
    assert_eq!(h.index, ColumnIndex::Int(OrderedIndex::new()));
    assert!(h.check());

    let h = ColumnHeader::new("n".to_string(), "string".to_string(), true);
    assert_eq!(h.index, ColumnIndex::Str(OrderedIndex::new()));
    let h = ColumnHeader::new("b".to_string(), "bool".to_string(), true);
    assert_eq!(h.index, ColumnIndex::Bool(OrderedIndex::new()));

    let h = ColumnHeader::new("w".to_string(), "float".to_string(), true);
    assert!(h.is_indexed);
    assert_eq!(h.index, ColumnIndex::Absent);
    let h = ColumnHeader::new("x".to_string(), "blob".to_string(), true);
    assert_eq!(h.datatype, DataType::Invalid);
    assert_eq!(h.index, ColumnIndex::Absent);

    let h = ColumnHeader::new("id".to_string(), "int".to_string(), false);
    assert!(!h.is_indexed);
    assert!(!h.is_primary_key);
    assert_eq!(h.index, ColumnIndex::Absent);
}

#[test]
fn the_index_of_a_header_can_be_changed_in_place() {
    let mut h = ColumnHeader::new("id".to_string(), "int".to_string(), true);
    h.get_mut_index().insert(Key::Int(4), 0);
    assert_eq!(
        h.index,
        ColumnIndex::Int(OrderedIndex {
            entries: vec![IndexEntry {
                key: Key::Int(4),
                position: 0
            }]
        })
    );
    assert_eq!(h.name, "id");
    *h.get_mut_index() = ColumnIndex::Absent;
    assert_eq!(h.index, ColumnIndex::Absent);
}

#[test]
fn a_new_table_has_one_empty_store_for_each_name() {
    let t = table(
        "t",
        vec![
            column("id", "int", true),
            column("n", "string", false),
            column("w", "double", false),
            column("ok", "bool", false),
            column("odd", "blob", false),
        ],
    );
    assert_eq!(t.name, "t");
    assert!(t.check());
    let names: Vec<&str> = t.columns.iter().map(|c| c.name.as_str()).collect();
    assert_eq!(names, vec!["id", "n", "w", "ok", "odd"]);
    let store = |name: &str| &t.rows[t.find_store(name).unwrap()].data;
    assert_eq!(store("id"), &ColumnData::Int(vec![]));
    assert_eq!(store("n"), &ColumnData::Str(vec![]));
    assert_eq!(store("w"), &ColumnData::Float(vec![]));
    assert_eq!(store("ok"), &ColumnData::Bool(vec![]));
    assert_eq!(store("odd"), &ColumnData::Absent);
    assert_eq!(t.rows.len(), 5);
}

#[test]
fn a_name_declared_twice_has_the_store_of_the_later_declaration() {
    let t = table(
        "t",
        vec![column("a", "int", false), column("b", "bool", false), column("a", "string", false)],
    );
    assert_eq!(t.columns.len(), 3);
    assert_eq!(t.rows.len(), 2);
    assert!(t.check());
    assert_eq!(t.rows[t.find_store("a").unwrap()].data, ColumnData::Str(vec![]));
    assert_eq!(t.find_header("a"), Some(0));
    assert_eq!(t.get_column("a".to_string()).datatype, DataType::Int);
}

#[test]
fn columns_are_found_by_name() {
    let t = users();
    assert!(t.column_exists("id".to_string()));
    assert!(t.column_exists("name".to_string()));
    assert!(!t.column_exists("Name".to_string()));
    assert!(!t.column_exists("".to_string()));
    assert_eq!(t.get_column("name".to_string()).datatype, DataType::Str);
    assert_eq!(t.find_header("name"), Some(1));
    assert_eq!(t.find_header("nope"), None);
    assert_eq!(t.find_store("nope"), None);
    assert_eq!(position_in(&strings(&["a", "b", "a"]), "a"), Some(0));
    assert_eq!(position_in(&strings(&["a", "b", "a"]), "b"), Some(1));
    assert_eq!(position_in(&strings(&["a", "b", "a"]), "c"), None);
}

#[test]
fn inserted_rows_are_stored_and_filed() {
    let t = users();
    assert!(t.check());
    assert_eq!(t.rows[0].data, ColumnData::Int(vec![5, 3, 8]));
    assert_eq!(t.rows[1].data, ColumnData::Str(strings(&["eve", "cy", "al"])));
    let entry = |k, position| IndexEntry {
        key: Key::Int(k),
        position,
    };
    assert_eq!(
        t.columns[0].index,
        ColumnIndex::Int(OrderedIndex {
            entries: vec![entry(3, 1), entry(5, 0), entry(8, 2)]
        })
    );
    assert_eq!(t.columns[1].index, ColumnIndex::Absent);
}

#[test]
fn a_column_named_twice_gets_both_columns_of_values() {
    let mut t = table("t", vec![column("a", "int", true), column("b", "string", false)]);
    t.insert_row(
        &strings(&["a", "b", "a"]),
        &[strings(&["1", "x", "2"]), strings(&["3", "y", "4"])],
        &FloatReadings::new(),
    );
    assert_eq!(t.rows[0].data, ColumnData::Int(vec![1, 3, 2, 4]));
    assert_eq!(t.rows[1].data, ColumnData::Str(strings(&["x", "y"])));
    let positions: Vec<(Key, usize)> = match &t.columns[0].index {
        ColumnIndex::Int(index) => index
            .entries
            .iter()
            .map(|e| (e.key.duplicate(), e.position))
            .collect(),
        _ => panic!("no index of integers"),
    };
    assert_eq!(
        positions,
        vec![(Key::Int(1), 0), (Key::Int(2), 2), (Key::Int(3), 1), (Key::Int(4), 3)]
    );
}

#[test]
fn a_key_inserted_again_is_filed_at_its_last_row() {
    let mut t = table("t", vec![column("a", "int", true)]);
    t.insert_row(
        &strings(&["a"]),
        &[strings(&["7"]), strings(&["9"]), strings(&["7"])],
        &FloatReadings::new(),
    );
    assert_eq!(t.columns[0].index.get_idx_data(&"7".to_string()), Ok(Some(&2)));
    assert_eq!(t.columns[0].index.get_idx_data(&"9".to_string()), Ok(Some(&1)));
}

#[test]
fn the_unique_check_looks_at_the_first_primary_key_named() {
    let t = users();
    let cols = strings(&["id", "name"]);
    assert_eq!(t.does_violate_unique_constraint(&cols, &strings(&["4", "x"])), Ok(()));
    assert_eq!(
        t.does_violate_unique_constraint(&cols, &strings(&["5", "x"])),
        Err(
            "unique constraint violation for column id. Value 5 already exists for column id"
                .to_string()
        )
    );
    assert_eq!(
        t.does_violate_unique_constraint(&strings(&["name", "id"]), &strings(&["eve", "+3"])),
        Err(
            "unique constraint violation for column id. Value +3 already exists for column id"
                .to_string()
        )
    );
    assert_eq!(
        t.does_violate_unique_constraint(&strings(&["name"]), &strings(&["eve"])),
        Ok(())
    );
    assert_eq!(t.does_violate_unique_constraint(&[], &[]), Ok(()));
    assert_eq!(t.keyed_column(&cols), Some((0, 0)));
    assert_eq!(t.keyed_column(&strings(&["name", "id"])), Some((0, 1)));
    assert_eq!(t.keyed_column(&strings(&["name"])), None);
}

#[test]
fn only_the_first_primary_key_is_checked() {
    let mut t = table("t", vec![column("a", "int", true), column("b", "string", true)]);
    t.insert_row(
        &strings(&["a", "b"]),
        &[strings(&["1", "x"])],
        &FloatReadings::new(),
    );
    let cols = strings(&["a", "b"]);
    assert_eq!(t.does_violate_unique_constraint(&cols, &strings(&["2", "x"])), Ok(()));
    assert!(t.does_violate_unique_constraint(&cols, &strings(&["1", "y"])).is_err());
    assert!(t
        .does_violate_unique_constraint(&strings(&["b"]), &strings(&["x"]))
        .is_err());
}

#[test]
fn a_primary_key_without_index_cannot_be_checked() {
    let t = table("t", vec![column("w", "float", true)]);
    assert_eq!(
        t.does_violate_unique_constraint(&strings(&["w"]), &strings(&["1.5"])),
        Err("cannot find index for column w".to_string())
    );
}

#[test]
fn a_selection_by_the_index_finds_rows_by_key() {
    let t = users();
    let none = FloatReadings::new();
    let q = select(&["name", "id"], Some(("id", Binary::Eq, "3")));
    assert_eq!(t.execute_select_query(&q, &none), Ok(grid(&[&["cy", "3"]])));
    let q = select(&["name"], Some(("id", Binary::Eq, "4")));
    assert_eq!(t.execute_select_query(&q, &none), Ok(grid(&[])));
    let q = select(&["name"], Some(("id", Binary::GtEq, "5")));
    assert_eq!(t.execute_select_query(&q, &none), Ok(grid(&[&["eve"], &["al"]])));
    let q = select(&["id"], Some(("id", Binary::Lt, "8")));
    assert_eq!(t.execute_select_query(&q, &none), Ok(grid(&[&["3"], &["5"]])));
    let q = select(&["id"], Some(("id", Binary::NotEq, "8")));
    assert_eq!(t.execute_select_query(&q, &none), Ok(grid(&[])));
    let q = select(&["id"], Some(("id", Binary::Eq, "x")));
    assert_eq!(
        t.execute_select_query(&q, &none),
        Err("Error while trying to retrieve value from index: invalid digit found in string"
            .to_string())
    );
    let q = select(&["id"], Some(("id", Binary::Gt, "")));
    assert_eq!(
        t.execute_select_query(&q, &none),
        Err(
            "Error while trying to retrieve value from index: cannot parse integer from empty string"
                .to_string()
        )
    );
}

#[test]
fn a_selection_by_scan_finds_rows_in_row_order() {
    let t = users();
    let none = FloatReadings::new();
    let q = select(&["id", "name"], Some(("name", Binary::Gt, "b")));
    assert_eq!(
        t.execute_select_query(&q, &none),
        Ok(grid(&[&["5", "eve"], &["3", "cy"]]))
    );
    let q = select(&["id"], Some(("name", Binary::NotEq, "cy")));
    assert_eq!(t.execute_select_query(&q, &none), Ok(grid(&[&["5"], &["8"]])));
    assert_eq!(
        t.matching_rows(&q.where_expressions[0], &none),
        Ok(vec![0, 2])
    );
}

#[test]
fn only_the_first_predicate_counts() {
    let t = users();
    let mut q = select(&["id"], Some(("id", Binary::Eq, "3")));
    q.where_expressions.push(Expression {
        left: "nowhere".to_string(),
        right: "x".to_string(),
        op: Operator::Binary(Binary::Eq),
    });
    assert_eq!(
        t.execute_select_query(&q, &FloatReadings::new()),
        Ok(grid(&[&["3"]]))
    );
}

#[test]
fn a_selection_without_predicate_gives_all_rows() {
    let t = users();
    let q = select(&["name", "id", "name"], None);
    assert_eq!(
        t.execute_select_query(&q, &FloatReadings::new()),
        Ok(grid(&[&["eve", "5", "eve"], &["cy", "3", "cy"], &["al", "8", "al"]]))
    );
    let q = select(&[], None);
    assert_eq!(
        t.execute_select_query(&q, &FloatReadings::new()),
        Ok(vec![Vec::<String>::new()])
    );
}

#[test]
fn a_predicate_gives_one_row_for_each_match_whatever_is_projected() {
    let t = users();
    let none = FloatReadings::new();
    let q = select(&[], Some(("id", Binary::Eq, "4")));
    assert_eq!(t.execute_select_query(&q, &none), Ok(grid(&[])));
    assert_eq!(t.try_select(&q, &none), Ok(grid(&[])));
    let q = select(&[], Some(("id", Binary::Eq, "3")));
    assert_eq!(t.execute_select_query(&q, &none), Ok(grid(&[&[]])));
    assert_eq!(t.try_select(&q, &none), Ok(grid(&[&[]])));
    let q = select(&[], Some(("name", Binary::Gt, "b")));
    assert_eq!(t.execute_select_query(&q, &none), Ok(grid(&[&[], &[]])));
    let q = select(&[], Some(("name", Binary::Gt, "x")));
    assert_eq!(t.execute_select_query(&q, &none), Ok(grid(&[])));
    let q = select(&["name"], Some(("id", Binary::Eq, "4")));
    assert_eq!(t.execute_select_query(&q, &none), Ok(grid(&[])));
}

#[test]
fn a_range_lookup_fetches_columns_in_key_order() {
    let t = users();
    let q = select(&["name", "id"], Some(("id", Binary::Gt, "3")));
    let col = t.get_column("id".to_string());
    assert_eq!(
        t.execute_select(&q, &q.where_expressions[0], &Binary::Gt, col),
        Ok(grid(&[&["eve", "al"], &["5", "8"]]))
    );
    assert_eq!(
        t.execute_select(&q, &q.where_expressions[0], &Binary::LtEq, col),
        Ok(grid(&[&["cy"], &["3"]]))
    );
    let q = select(&["name"], Some(("id", Binary::Gt, "x")));
    assert_eq!(
        t.execute_select(&q, &q.where_expressions[0], &Binary::Gt, col),
        Err("Error while trying to retrieve value from index: invalid digit found in string"
            .to_string())
    );
}

#[test]
fn a_scan_fetches_columns_in_row_order() {
    let t = users();
    let none = FloatReadings::new();
    let q = select(&["id", "name"], Some(("name", Binary::Gt, "b")));
    assert_eq!(
        t.execute_select_query_without_index(&q, &none),
        grid(&[&["5", "3"], &["eve", "cy"]])
    );
    let q = select(&["id"], Some(("name", Binary::Eq, "zed")));
    assert_eq!(t.execute_select_query_without_index(&q, &none), grid(&[&[]]));
    let q = select(&[], Some(("name", Binary::Eq, "cy")));
    assert_eq!(t.execute_select_query_without_index(&q, &none), grid(&[]));
}

#[test]
fn rows_are_built_from_a_count() {
    assert_eq!(
        Table::rows_from(&grid(&[&["a", "b", "c"], &["1", "2", "3"]]), 2),
        grid(&[&["a", "1"], &["b", "2"]])
    );
    assert_eq!(Table::rows_from(&[], 0), grid(&[]));
    assert_eq!(Table::rows_from(&[], 2), grid(&[&[], &[]]));
    assert_eq!(Table::rows_from(&grid(&[&["a"]]), 0), grid(&[]));
}

#[test]
fn limit_and_offset_are_not_applied() {
    let t = users();
    let mut q = select(&["id"], None);
    q.limit = Some(1);
    q.offset = Some(1);
    assert_eq!(
        t.execute_select_query(&q, &FloatReadings::new()),
        Ok(grid(&[&["5"], &["3"], &["8"]]))
    );
}

#[test]
fn columns_are_turned_into_rows() {
    assert_eq!(
        Table::rotate_2d_vec(&grid(&[&["a", "b", "c"], &["1", "2", "3"]])),
        grid(&[&["a", "1"], &["b", "2"], &["c", "3"]])
    );
    assert_eq!(Table::rotate_2d_vec(&[]), vec![Vec::<String>::new()]);
    assert_eq!(Table::rotate_2d_vec(&grid(&[&[], &[]])), grid(&[]));
    assert_eq!(
        Table::rotate_2d_vec(&grid(&[&["a"], &["1", "2"]])),
        grid(&[&["a", "1"]])
    );
}

#[test]
fn data_is_fetched_column_by_column() {
    let t = users();
    assert_eq!(
        t.select_data(&strings(&["name", "id"]), &[2, 0, 2]),
        grid(&[&["al", "eve", "al"], &["8", "5", "8"]])
    );
    assert_eq!(
        t.dump_data(&strings(&["id"])),
        grid(&[&["5", "3", "8"]])
    );
    assert_eq!(t.select_data(&[], &[0]), grid(&[]));
}

#[test]
fn a_check_finds_what_is_not_a_table() {
    let good = users();
    assert!(good.check());
    let mut t = users();
    t.rows.push(StoredColumn {
        name: "id".to_string(),
        data: ColumnData::Absent,
    });
    assert!(!t.check());
    let mut t = users();
    t.rows.pop();
    assert!(!t.check());
    let mut t = users();
    t.rows.push(StoredColumn {
        name: "extra".to_string(),
        data: ColumnData::Absent,
    });
    assert!(!t.check());
    let mut t = users();
    t.columns[1].index = ColumnIndex::Int(OrderedIndex::new());
    assert!(!t.check());
    let mut t = users();
    if let ColumnIndex::Int(index) = &mut t.columns[0].index {
        index.entries.swap(0, 1);
    }
    assert!(!t.check());
}

#[test]
fn a_table_is_described_by_names_and_types() {
    let t = table(
        "t",
        vec![column("id", "INT", true), column("ok", "bool", false), column("x", "?", false)],
    );
    assert_eq!(
        t.describe(),
        grid(&[&["id", "Int"], &["ok", "Boolean"], &["x", "Invalid"]])
    );
    assert_eq!(table("e", vec![]).describe(), grid(&[]));
}

#[test]
fn a_point_lookup_of_a_value_finds_its_row() {
    let mut t = table(
        "t",
        vec![column("id", "int", true), column("tag", "string", false)],
    );
    let values: Vec<Vec<String>> = [40, -3, 7, 0, 2147483647, -2147483648, 12]
        .iter()
        .map(|v: &i32| vec![v.to_string(), format!("t{}", v)])
        .collect();
    t.insert_row(&strings(&["id", "tag"]), &values, &FloatReadings::new());
    let store = &t.rows[t.find_store("id").unwrap()].data;
    for p in 0..store.count() {
        assert_eq!(
            t.columns[0].index.get_idx_data(&store.row_at(p)),
            Ok(Some(&p))
        );
    }
    let mut flags = table("f", vec![column("ok", "bool", true)]);
    flags.insert_row(
        &strings(&["ok"]),
        &[strings(&["true"]), strings(&["false"])],
        &FloatReadings::new(),
    );
    let store = &flags.rows[0].data;
    for p in 0..store.count() {
        assert_eq!(
            flags.columns[0].index.get_idx_data(&store.row_at(p)),
            Ok(Some(&p))
        );
    }
}
