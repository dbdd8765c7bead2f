use coldb::cell::{FloatReadings, FloatValue, Key};
use coldb::column::{copy_positions, ColumnData};
use coldb::parser::select::{Binary, Expression, Operator};
use coldb::datatype::DataType;

fn readings(literals: &[&str]) -> FloatReadings {
    let mut floats = FloatReadings::new();
    for l in literals {
        let v: f32 = l.parse().unwrap();
        floats.add(
            l.to_string(),
            FloatValue {
                bits: v.to_bits(),
                text: v.to_string(),
            },
        );
    }
    floats
}

fn filled(datatype: DataType, literals: &[&str]) -> ColumnData {
    let floats = if datatype == DataType::Float {
        readings(literals)
    } else {
        FloatReadings::new()
    };
    let mut store = ColumnData::empty(datatype);
    for l in literals {
        store.append(l, &floats);
    }
    store
}

fn scan(store: &ColumnData, op: Binary, term: &str, floats: &FloatReadings) -> Vec<usize> {
    store.get_serialized_col_data_by_scanning(
        &Expression {
            left: "c".to_string(),
            right: term.to_string(),
            op: Operator::Binary(op),
        },
        floats,
    )
}

const OPS: [Binary; 6] = [
    Binary::Eq,
    Binary::NotEq,
    Binary::Lt,
    Binary::LtEq,
    Binary::Gt,
    Binary::GtEq,
];

#[test]
fn a_store_holds_what_was_appended() {
    let store = filled(DataType::Int, &["5", "-3", "+8", "007"]);
    assert_eq!(store, ColumnData::Int(vec![5, -3, 8, 7]));
    assert_eq!(store.count(), 4);
    assert_eq!(store.row_at(1), "-3");
    assert_eq!(store.row_at(3), "7");
    assert_eq!(store.get_serialized_col_data(), vec!["5", "-3", "8", "7"]);

    let store = filled(DataType::Str, &["a", "", "b c"]);
    assert_eq!(store.get_serialized_col_data(), vec!["a", "", "b c"]);

    let store = filled(DataType::Bool, &["true", "false"]);
    assert_eq!(store, ColumnData::Bool(vec![true, false]));
    assert_eq!(store.get_serialized_col_data(), vec!["true", "false"]);

    let store = filled(DataType::Float, &["1.50", "2", "1e2"]);
    assert_eq!(store.count(), 3);
    assert_eq!(store.get_serialized_col_data(), vec!["1.5", "2", "100"]);

    assert_eq!(ColumnData::empty(DataType::Invalid), ColumnData::Absent);
    assert!(ColumnData::Absent.is_absent());
    assert!(!filled(DataType::Int, &[]).is_absent());
    assert_eq!(filled(DataType::Int, &[]).count(), 0);
}

#[test]
fn a_store_reads_literals_of_its_type_only() {
    let floats = readings(&["1.5"]);
    assert!(ColumnData::empty(DataType::Int).reads("12", &floats));
    assert!(!ColumnData::empty(DataType::Int).reads("1.5", &floats));
    assert!(ColumnData::empty(DataType::Str).reads("anything", &floats));
    assert!(ColumnData::empty(DataType::Bool).reads("false", &floats));
    assert!(!ColumnData::empty(DataType::Bool).reads("0", &floats));
    assert!(ColumnData::empty(DataType::Float).reads("1.5", &floats));
    assert!(!ColumnData::empty(DataType::Float).reads("2.5", &floats));
    assert!(!ColumnData::Absent.reads("1", &floats));
    assert!(!ColumnData::Absent.reads("", &floats));
}

#[test]
fn rows_are_given_in_the_order_asked_for() {
    let store = filled(DataType::Int, &["10", "20", "30"]);
    assert_eq!(
        store.get_serialized_col_data_by_index(&[2, 0, 2, 1]),
        vec!["30", "10", "30", "20"]
    );
    assert_eq!(store.get_serialized_col_data_by_index(&[]), Vec::<String>::new());
    assert_eq!(
        store.get_serialized_col_data_by_index(&[0, 1, 2]),
        store.get_serialized_col_data()
    );
}

#[test]
fn a_scan_of_integers_compares_numbers() {
    let none = FloatReadings::new();
    let store = filled(DataType::Int, &["5", "3", "8", "3", "-1"]);
    assert_eq!(scan(&store, Binary::Eq, "3", &none), vec![1, 3]);
    assert_eq!(scan(&store, Binary::NotEq, "3", &none), vec![0, 2, 4]);
    assert_eq!(scan(&store, Binary::Lt, "3", &none), vec![4]);
    assert_eq!(scan(&store, Binary::LtEq, "3", &none), vec![1, 3, 4]);
    assert_eq!(scan(&store, Binary::Gt, "3", &none), vec![0, 2]);
    assert_eq!(scan(&store, Binary::GtEq, "3", &none), vec![0, 1, 2, 3]);
    assert_eq!(scan(&store, Binary::Gt, "10", &none), Vec::<usize>::new());
    assert_eq!(scan(&store, Binary::Lt, "10", &none), vec![0, 1, 2, 3, 4]);
}

#[test]
fn a_scan_of_strings_compares_texts() {
    let none = FloatReadings::new();
    let values = ["b", "a", "c", "ab", ""];
    let store = filled(DataType::Str, &values);
    for op in OPS {
        for term in ["b", "", "zz", "ab"] {
            let want: Vec<usize> = values
                .iter()
                .enumerate()
                .filter(|(_, v)| match op {
                    Binary::Eq => **v == term,
                    Binary::NotEq => **v != term,
                    Binary::Lt => **v < term,
                    Binary::LtEq => **v <= term,
                    Binary::Gt => **v > term,
                    Binary::GtEq => **v >= term,
                })
                .map(|(i, _)| i)
                .collect();
            assert_eq!(scan(&store, op, term, &none), want, "{:?} {:?}", op, term);
        }
    }
}

#[test]
fn a_scan_of_booleans_puts_false_before_true() {
    let none = FloatReadings::new();
    let store = filled(DataType::Bool, &["true", "false", "true"]);
    assert_eq!(scan(&store, Binary::Eq, "true", &none), vec![0, 2]);
    assert_eq!(scan(&store, Binary::NotEq, "true", &none), vec![1]);
    assert_eq!(scan(&store, Binary::Gt, "false", &none), vec![0, 2]);
    assert_eq!(scan(&store, Binary::Gt, "true", &none), Vec::<usize>::new());
    assert_eq!(scan(&store, Binary::Lt, "true", &none), vec![1]);
    assert_eq!(scan(&store, Binary::Lt, "false", &none), Vec::<usize>::new());
    assert_eq!(scan(&store, Binary::LtEq, "false", &none), vec![1]);
    assert_eq!(scan(&store, Binary::LtEq, "true", &none), vec![0, 1, 2]);
    assert_eq!(scan(&store, Binary::GtEq, "true", &none), vec![0, 2]);
    assert_eq!(scan(&store, Binary::GtEq, "false", &none), vec![0, 1, 2]);
}

#[test]
fn a_scan_of_floats_compares_numbers() {
    let floats = readings(&["1.5", "0.25", "10", "NaN", "1.50", "inf"]);
    let mut store = ColumnData::empty(DataType::Float);
    for l in ["1.5", "0.25", "10", "NaN"] {
        store.append(l, &floats);
    }
    assert_eq!(scan(&store, Binary::Eq, "1.50", &floats), vec![0]);
    assert_eq!(scan(&store, Binary::NotEq, "1.50", &floats), vec![1, 2, 3]);
    assert_eq!(scan(&store, Binary::Lt, "1.50", &floats), vec![1]);
    assert_eq!(scan(&store, Binary::LtEq, "1.50", &floats), vec![0, 1]);
    assert_eq!(scan(&store, Binary::Gt, "1.50", &floats), vec![2]);
    assert_eq!(scan(&store, Binary::GtEq, "1.50", &floats), vec![0, 2]);
    assert_eq!(scan(&store, Binary::Lt, "inf", &floats), vec![0, 1, 2]);
    assert_eq!(scan(&store, Binary::Eq, "NaN", &floats), Vec::<usize>::new());
    assert_eq!(scan(&store, Binary::NotEq, "NaN", &floats), vec![0, 1, 2, 3]);
}

#[test]
fn a_scan_adds_to_the_positions_given() {
    let none = FloatReadings::new();
    let store = filled(DataType::Int, &["1", "2", "3"]);
    let mut found = vec![7, 7];
    let copy = store.work("2", &mut found, Binary::GtEq, &none);
    assert_eq!(found, vec![7, 7, 1, 2]);
    assert_eq!(copy, found);
    assert_eq!(copy_positions(&found), found);
}

#[test]
fn a_key_is_the_value_of_the_row() {
    assert_eq!(filled(DataType::Int, &["4", "5"]).key_at(1), Some(Key::Int(5)));
    assert_eq!(
        filled(DataType::Str, &["x"]).key_at(0),
        Some(Key::Str("x".to_string()))
    );
    assert_eq!(filled(DataType::Bool, &["true"]).key_at(0), Some(Key::Bool(true)));
    assert_eq!(filled(DataType::Float, &["1.5"]).key_at(0), None);
}
