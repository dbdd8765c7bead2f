use coldb::cell::Key;
use coldb::index::{ColumnIndex, IndexEntry, KeyBound, OrderedIndex};
use coldb::parser::select::Binary;

fn ints(pairs: &[(i32, usize)]) -> OrderedIndex {
    let mut index = OrderedIndex::new();
    for (k, p) in pairs {
        index.insert(Key::Int(*k), *p);
    }
    index
}

fn keys(index: &OrderedIndex) -> Vec<(i32, usize)> {
    index
        .entries
        .iter()
        .map(|e| match e.key {
            Key::Int(k) => (k, e.position),
            _ => panic!("not an integer key"),
        })
        .collect()
}

#[test]
fn an_index_keeps_its_keys_in_order() {
    let index = ints(&[(5, 0), (3, 1), (8, 2), (1, 3), (7, 4)]);
    assert_eq!(keys(&index), vec![(1, 3), (3, 1), (5, 0), (7, 4), (8, 2)]);
    assert_eq!(index.len(), 5);
    assert!(index.check());
}

#[test]
fn filing_under_a_key_again_replaces_the_position() {
    let mut index = ints(&[(5, 0), (3, 1)]);
    index.insert(Key::Int(5), 9);
    assert_eq!(keys(&index), vec![(3, 1), (5, 9)]);
    assert_eq!(index.get(&Key::Int(5)), Some(&9));
    assert_eq!(index.get(&Key::Int(3)), Some(&1));
    assert_eq!(index.get(&Key::Int(4)), None);
    assert!(index.contains_key(&Key::Int(3)));
    assert!(!index.contains_key(&Key::Int(0)));
}

#[test]
fn the_lower_bound_counts_the_smaller_keys() {
    let index = ints(&[(10, 0), (20, 1), (30, 2)]);
    assert_eq!(index.lower_bound(&Key::Int(5)), 0);
    assert_eq!(index.lower_bound(&Key::Int(10)), 0);
    assert_eq!(index.lower_bound(&Key::Int(11)), 1);
    assert_eq!(index.lower_bound(&Key::Int(30)), 2);
    assert_eq!(index.lower_bound(&Key::Int(31)), 3);
    assert_eq!(OrderedIndex::new().lower_bound(&Key::Int(1)), 0);
}

#[test]
fn a_range_gives_positions_in_key_order() {
    let index = ints(&[(5, 0), (3, 1), (8, 2), (1, 3), (7, 4)]);
    let inc = |k| KeyBound::Included(Key::Int(k));
    let exc = |k| KeyBound::Excluded(Key::Int(k));
    assert_eq!(index.range(&KeyBound::Unbounded, &KeyBound::Unbounded), vec![3, 1, 0, 4, 2]);
    assert_eq!(index.range(&exc(4), &KeyBound::Unbounded), vec![0, 4, 2]);
    assert_eq!(index.range(&exc(5), &KeyBound::Unbounded), vec![4, 2]);
    assert_eq!(index.range(&inc(5), &KeyBound::Unbounded), vec![0, 4, 2]);
    assert_eq!(index.range(&KeyBound::Unbounded, &exc(5)), vec![3, 1]);
    assert_eq!(index.range(&KeyBound::Unbounded, &inc(5)), vec![3, 1, 0]);
    assert_eq!(index.range(&inc(3), &inc(7)), vec![1, 0, 4]);
    assert_eq!(index.range(&exc(3), &exc(7)), vec![0]);
    assert_eq!(index.range(&inc(5), &inc(5)), vec![0]);
    assert_eq!(index.range(&exc(5), &exc(5)), Vec::<usize>::new());
    assert_eq!(index.range(&inc(9), &KeyBound::Unbounded), Vec::<usize>::new());
    assert_eq!(index.range(&inc(7), &inc(3)), Vec::<usize>::new());
    assert_eq!(index.range(&KeyBound::Unbounded, &exc(1)), Vec::<usize>::new());
}

#[test]
fn a_check_finds_keys_out_of_order() {
    let entry = |k, position| IndexEntry {
        key: Key::Int(k),
        position,
    };
    assert!(OrderedIndex { entries: vec![] }.check());
    assert!(OrderedIndex { entries: vec![entry(1, 0)] }.check());
    assert!(OrderedIndex { entries: vec![entry(1, 0), entry(2, 1)] }.check());
    assert!(!OrderedIndex { entries: vec![entry(2, 0), entry(1, 1)] }.check());
    assert!(!OrderedIndex { entries: vec![entry(1, 0), entry(1, 1)] }.check());
    assert!(!OrderedIndex { entries: vec![entry(1, 0), entry(3, 1), entry(2, 2)] }.check());
    let mixed = OrderedIndex {
        entries: vec![
            entry(1, 0),
            IndexEntry {
                key: Key::Bool(true),
                position: 1,
            },
        ],
    };
    assert!(mixed.check());
    assert!(!ColumnIndex::Int(mixed).check());
    assert!(ColumnIndex::Absent.check());
}

#[test]
fn an_operator_puts_two_ends_around_a_value() {
    let ends = |op| ColumnIndex::get_indexes_from_op(Key::Int(4), op);
    let inc = || KeyBound::Included(Key::Int(4));
    let exc = || KeyBound::Excluded(Key::Int(4));
    assert_eq!(ends(Binary::Eq), (inc(), inc()));
    assert_eq!(ends(Binary::NotEq), (exc(), exc()));
    assert_eq!(ends(Binary::Gt), (exc(), KeyBound::Unbounded));
    assert_eq!(ends(Binary::GtEq), (inc(), KeyBound::Unbounded));
    assert_eq!(ends(Binary::Lt), (KeyBound::Unbounded, exc()));
    assert_eq!(ends(Binary::LtEq), (KeyBound::Unbounded, inc()));
}

#[test]
fn a_point_lookup_parses_its_literal() {
    let mut index = ColumnIndex::Int(OrderedIndex::new());
    index.insert(Key::Int(5), 0);
    index.insert(Key::Int(-3), 1);
    assert_eq!(index.get_idx_data(&"5".to_string()), Ok(Some(&0)));
    assert_eq!(index.get_idx_data(&"-3".to_string()), Ok(Some(&1)));
    assert_eq!(index.get_idx_data(&"+5".to_string()), Ok(Some(&0)));
    assert_eq!(index.get_idx_data(&"4".to_string()), Ok(None));
    assert_eq!(
        index.get_idx_data(&"five".to_string()),
        Err("invalid digit found in string".to_string())
    );
    assert_eq!(
        index.get_idx_data(&"".to_string()),
        Err("cannot parse integer from empty string".to_string())
    );
    assert_eq!(
        index.get_idx_data(&"-99999999999".to_string()),
        Err("number too small to fit in target type".to_string())
    );

    let mut flags = ColumnIndex::Bool(OrderedIndex::new());
    flags.insert(Key::Bool(true), 4);
    assert_eq!(flags.get_idx_data(&"true".to_string()), Ok(Some(&4)));
    assert_eq!(flags.get_idx_data(&"false".to_string()), Ok(None));
    assert_eq!(
        flags.get_idx_data(&"yes".to_string()),
        Err("provided string was not `true` or `false`".to_string())
    );

    let mut names = ColumnIndex::Str(OrderedIndex::new());
    names.insert(Key::Str("bo".to_string()), 2);
    assert_eq!(names.get_idx_data(&"bo".to_string()), Ok(Some(&2)));
    assert_eq!(names.get_idx_data(&"Bo".to_string()), Ok(None));

    assert_eq!(ColumnIndex::Absent.get_idx_data(&"anything".to_string()), Ok(None));
}

#[test]
fn a_range_lookup_parses_its_literal() {
    let mut index = ColumnIndex::Int(OrderedIndex::new());
    for (p, k) in [5, 3, 8, 1, 7].iter().enumerate() {
        index.insert(Key::Int(*k), p);
    }
    let four = "4".to_string();
    assert_eq!(index.get_idx_data_by_range(&four, Binary::Gt), Ok(vec![0, 4, 2]));
    assert_eq!(index.get_idx_data_by_range(&four, Binary::GtEq), Ok(vec![0, 4, 2]));
    assert_eq!(index.get_idx_data_by_range(&four, Binary::Lt), Ok(vec![3, 1]));
    assert_eq!(index.get_idx_data_by_range(&four, Binary::LtEq), Ok(vec![3, 1]));
    assert_eq!(index.get_idx_data_by_range(&four, Binary::Eq), Ok(vec![]));
    assert_eq!(index.get_idx_data_by_range(&"5".to_string(), Binary::Eq), Ok(vec![0]));
    assert_eq!(index.get_idx_data_by_range(&"5".to_string(), Binary::NotEq), Ok(vec![]));
    assert_eq!(
        index.get_idx_data_by_range(&"x".to_string(), Binary::Gt),
        Err("invalid digit found in string".to_string())
    );

    let mut names = ColumnIndex::Str(OrderedIndex::new());
    for (p, k) in ["pear", "apple", "fig"].iter().enumerate() {
        names.insert(Key::Str(k.to_string()), p);
    }
    assert_eq!(names.get_idx_data_by_range(&"b".to_string(), Binary::Gt), Ok(vec![2, 0]));
    assert_eq!(names.get_idx_data_by_range(&"fig".to_string(), Binary::LtEq), Ok(vec![1, 2]));

    let mut flags = ColumnIndex::Bool(OrderedIndex::new());
    flags.insert(Key::Bool(true), 0);
    flags.insert(Key::Bool(false), 1);
    assert_eq!(flags.get_idx_data_by_range(&"false".to_string(), Binary::GtEq), Ok(vec![1, 0]));
    assert_eq!(flags.get_idx_data_by_range(&"false".to_string(), Binary::Gt), Ok(vec![0]));
    assert_eq!(
        flags.get_idx_data_by_range(&"0".to_string(), Binary::Gt),
        Err("provided string was not `true` or `false`".to_string())
    );

    assert_eq!(
        ColumnIndex::Absent.get_idx_data_by_range(&"x".to_string(), Binary::Gt),
        Ok(vec![])
    );
}

#[test]
fn an_absent_index_files_nothing() {
    let mut index = ColumnIndex::Absent;
    index.insert(Key::Int(1), 0);
    assert_eq!(index, ColumnIndex::Absent);
    assert!(index.is_absent());
    assert!(!index.takes(&Key::Int(1)));
    assert!(!index.reads("1"));
    let ints = ColumnIndex::Int(OrderedIndex::new());
    assert!(ints.takes(&Key::Int(1)));
    assert!(!ints.takes(&Key::Bool(true)));
    assert!(ints.reads("12"));
    assert!(!ints.reads("twelve"));
    assert!(!ints.is_absent());
}
