use coldb::cell::FloatReadings;
use coldb::database::Database;
use coldb::parser::statement::SqlStatement;
use coldb::run::process_command;
use coldb::screen::NestKind as N;
use coldb::screen::TokenKind::{By, Granted, Name, Other, Space};
use coldb::screen::{names_no_grantor, nests_too_deep, without_spaces, NestKind, TokenKind, NEST_LIMIT};
use coldb::sql::{is_screened, parse_sql, refusal_of};

const REFUSAL: &str = "sql parser error: GRANTED BY without an identifier";
const TOO_DEEP: &str = "sql parser error: statement nested too deeply";

#[test]
fn white_space_does_not_count() {
    assert_eq!(without_spaces(&[]), Vec::<TokenKind>::new());
    assert_eq!(without_spaces(&[Space, Space]), Vec::<TokenKind>::new());
    assert_eq!(
        without_spaces(&[Space, Granted, Space, Space, By, Other, Space, Name]),
        vec![Granted, By, Other, Name]
    );
    assert_eq!(without_spaces(&[Name, By]), vec![Name, By]);
}

#[test]
fn a_grantor_is_looked_for_after_the_two_keywords() {
    assert!(names_no_grantor(&[Granted, By]));
    assert!(names_no_grantor(&[Granted, By, Other]));
    assert!(names_no_grantor(&[Name, Other, Granted, By, Other, Name]));
    assert!(names_no_grantor(&[Granted, By, Name, Granted, By]));
    assert!(names_no_grantor(&[Granted, Granted, By, Other]));
    assert!(!names_no_grantor(&[]));
    assert!(!names_no_grantor(&[Granted]));
    assert!(!names_no_grantor(&[By, Other]));
    assert!(!names_no_grantor(&[Granted, By, Name]));
    assert!(!names_no_grantor(&[Granted, By, Granted]));
    assert!(!names_no_grantor(&[Granted, By, By]));
    assert!(!names_no_grantor(&[Granted, Other, By, Other]));
    assert!(!names_no_grantor(&[Granted, Name, By]));
    assert!(!names_no_grantor(&[Granted, Space, By]));
}

#[test]
fn texts_that_name_no_grantor_are_screened() {
    assert!(is_screened("GRANT SELECT ON t TO u GRANTED BY 1"));
    assert!(is_screened("grant select on t to u granted by 1"));
    assert!(is_screened("GRANT SELECT ON t TO u GRANTED BY"));
    assert!(is_screened("GRANT SELECT ON t TO u GRANTED BY ;"));
    assert!(is_screened("REVOKE SELECT ON t FROM u GRANTED BY 1"));
    assert!(is_screened("revoke select on t from u Granted /* x */ by\n -- y\n (v)"));
    assert!(is_screened("SELECT a FROM t; GRANT SELECT ON t TO u GRANTED BY 1"));
    assert!(is_screened("SELECT granted by 1"));
    assert!(!is_screened("GRANT SELECT ON t TO u GRANTED BY v"));
    assert!(!is_screened("GRANT SELECT ON t TO u GRANTED BY 'v'"));
    assert!(!is_screened("GRANT SELECT ON t TO u GRANTED BY `1`"));
    assert!(!is_screened("GRANT SELECT ON t TO u"));
    assert!(!is_screened("SELECT granted FROM t WHERE granted = 1 ORDER BY granted"));
    assert!(!is_screened("SELECT `granted` by 1"));
    assert!(!is_screened("SELECT 'granted by 1'"));
    assert!(!is_screened("SELECT a /* granted by 1 */ FROM t"));
    assert!(!is_screened("CREATE TABLE users (id int PRIMARY KEY, name string)"));
    assert!(!is_screened("'unclosed granted by 1"));
    assert!(!is_screened(""));
}

#[test]
fn a_screened_text_is_refused_in_words() {
    assert_eq!(
        parse_sql("GRANT SELECT ON t TO u GRANTED BY 1"),
        Err(REFUSAL.to_string())
    );
    assert_eq!(
        parse_sql("REVOKE SELECT ON t FROM u GRANTED BY 1"),
        Err(REFUSAL.to_string())
    );
    assert_eq!(
        parse_sql("grant select on t to u granted by"),
        Err(REFUSAL.to_string())
    );
    assert_eq!(parse_sql("SELECT granted by 1"), Err(REFUSAL.to_string()));
}

#[test]
fn a_text_that_is_not_screened_goes_to_the_parser() {
    assert_eq!(parse_sql("GRANT SELECT ON t TO u"), Ok(vec![SqlStatement::Other]));
    assert_eq!(
        parse_sql("GRANT SELECT ON t TO u GRANTED BY v"),
        Ok(vec![SqlStatement::Other])
    );
    assert_eq!(
        parse_sql("SELECT granted FROM t WHERE granted = 1 ORDER BY granted").map(|s| s.len()),
        Ok(1)
    );
    assert_eq!(
        parse_sql("INSERT INTO t (a) VALUES ('granted by 1')").map(|s| s.len()),
        Ok(1)
    );
    assert!(parse_sql("GRANT").is_err());
    assert_ne!(parse_sql("GRANT"), Err(REFUSAL.to_string()));
}

#[test]
fn a_screened_text_runs_nothing() {
    let mut db = Database::new();
    let none = FloatReadings::new();
    process_command("CREATE TABLE t (id int PRIMARY KEY)".to_string(), &mut db, &none).unwrap();
    let refused = process_command(
        "CREATE TABLE u (id int); GRANT SELECT ON t TO u GRANTED BY 1".to_string(),
        &mut db,
        &none,
    );
    assert_eq!(refused, Err(REFUSAL.to_string()));
    assert_eq!(db.tables.len(), 1);
}

fn kinds(pattern: &[(NestKind, usize)]) -> Vec<NestKind> {
    let mut out = Vec::new();
    for (kind, times) in pattern {
        for _ in 0..*times {
            out.push(*kind);
        }
    }
    out
}

#[test]
fn the_limit_of_nesting_is_forty_eight() {
    assert_eq!(NEST_LIMIT, 48);
}

#[test]
fn the_weights_of_what_is_open_are_held_against_the_limit() {
    assert!(!nests_too_deep(&[]));
    assert!(!nests_too_deep(&kinds(&[(N::Other, 48)])));
    assert!(nests_too_deep(&kinds(&[(N::Other, 49)])));
    assert!(!nests_too_deep(&kinds(&[(N::Open, 24)])));
    assert!(nests_too_deep(&kinds(&[(N::Open, 24), (N::Other, 1)])));
    assert!(nests_too_deep(&kinds(&[(N::Open, 25)])));
    assert!(!nests_too_deep(&kinds(&[(N::Bracket, 24)])));
    assert!(nests_too_deep(&kinds(&[(N::Bracket, 25)])));
    assert!(!nests_too_deep(&kinds(&[(N::Statement, 8)])));
    assert!(nests_too_deep(&kinds(&[(N::Statement, 8), (N::Other, 1)])));
    assert!(!nests_too_deep(&kinds(&[(N::Leaf, 1000)])));
    assert!(!nests_too_deep(&kinds(&[(N::Comma, 1000), (N::Close, 1000)])));
}

#[test]
fn what_is_closed_weighs_no_more() {
    // a closing bracket goes back to the weight before its opening one
    let mut row = Vec::new();
    for _ in 0..1000 {
        row.extend(kinds(&[(N::Open, 1), (N::Other, 40), (N::Close, 1)]));
    }
    assert!(!nests_too_deep(&row));
    row.extend(kinds(&[(N::Other, 49)]));
    assert!(nests_too_deep(&row));
    // a comma inside brackets goes back to the weight just after the bracket
    let mut list = kinds(&[(N::Other, 6), (N::Open, 1)]);
    for _ in 0..1000 {
        list.extend(kinds(&[(N::Other, 40), (N::Comma, 1)]));
    }
    assert!(!nests_too_deep(&list));
    list.extend(kinds(&[(N::Other, 41)]));
    assert!(nests_too_deep(&list));
    // what joins queries stays open over a comma
    let mut joined = kinds(&[(N::Open, 1)]);
    for _ in 0..46 {
        joined.extend(kinds(&[(N::Leaf, 1), (N::Comma, 1), (N::Leaf, 1), (N::Joining, 1)]));
    }
    assert!(!nests_too_deep(&joined));
    joined.extend(kinds(&[(N::Leaf, 1), (N::Comma, 1), (N::Leaf, 1), (N::Joining, 1)]));
    assert!(nests_too_deep(&joined));
    let mut joined = kinds(&[(N::Open, 1)]);
    for _ in 0..3 {
        joined.extend(kinds(&[(N::Other, 10), (N::Joining, 1), (N::Comma, 1)]));
    }
    assert!(!nests_too_deep(&joined));
    joined.extend(kinds(&[(N::Other, 14)]));
    assert!(nests_too_deep(&joined));
    // outside brackets a comma changes nothing
    let mut items = Vec::new();
    for _ in 0..7 {
        items.extend(kinds(&[(N::Other, 7), (N::Comma, 1)]));
    }
    assert!(nests_too_deep(&items));
    // a semicolon ends the statement, and a bracket left open with it
    let mut statements = Vec::new();
    for _ in 0..1000 {
        statements.extend(kinds(&[(N::Other, 40), (N::Open, 4), (N::End, 1)]));
    }
    assert!(!nests_too_deep(&statements));
    // a closing bracket without an opening one changes nothing
    assert!(nests_too_deep(&kinds(&[(N::Other, 48), (N::Close, 1), (N::Other, 1)])));
}

#[test]
fn a_long_run_of_not_is_refused() {
    for n in [49, 1_000, 100_000] {
        let sql = format!("SELECT {}1", "NOT ".repeat(n));
        assert_eq!(parse_sql(&sql), Err(TOO_DEEP.to_string()));
        assert_eq!(refusal_of(&sql), Some(TOO_DEEP.to_string()));
    }
    let sql = format!("SELECT {}1", "NOT ".repeat(47));
    assert_eq!(parse_sql(&sql).map(|s| s.len()), Ok(1));
}

#[test]
fn a_long_run_of_signs_is_refused() {
    for n in [48, 1_000, 100_000] {
        let sql = format!("SELECT {}1", "- ".repeat(n));
        assert_eq!(parse_sql(&sql), Err(TOO_DEEP.to_string()));
    }
    let sql = format!("SELECT {}1", "- ".repeat(47));
    assert_eq!(parse_sql(&sql).map(|s| s.len()), Ok(1));
}

#[test]
fn a_long_run_of_brackets_after_from_is_refused() {
    for n in [24, 1_000, 100_000] {
        let sql = format!("SELECT 1 FROM {}t{}", "(".repeat(n), ")".repeat(n));
        assert_eq!(parse_sql(&sql), Err(TOO_DEEP.to_string()));
    }
    let sql = format!("SELECT 1 FROM {}t{}", "(".repeat(23), ")".repeat(23));
    assert!(!is_screened(&sql));
    assert_ne!(parse_sql(&sql), Err(TOO_DEEP.to_string()));
}

#[test]
fn deeply_nested_types_and_statements_are_refused() {
    let arrays = |n: usize| format!("CREATE TABLE t (a {}int{})", "ARRAY<".repeat(n), " >".repeat(n));
    assert_eq!(parse_sql(&arrays(100_000)), Err(TOO_DEEP.to_string()));
    assert_eq!(parse_sql(&arrays(15)), Err(TOO_DEEP.to_string()));
    assert_ne!(parse_sql(&arrays(14)), Err(TOO_DEEP.to_string()));
    let explains = |n: usize| format!("{}SELECT 1", "EXPLAIN ".repeat(n));
    assert_eq!(parse_sql(&explains(100_000)), Err(TOO_DEEP.to_string()));
    assert_eq!(parse_sql(&explains(8)), Err(TOO_DEEP.to_string()));
    assert_ne!(parse_sql(&explains(7)), Err(TOO_DEEP.to_string()));
    let prepares = |n: usize| format!("{}SELECT 1", "PREPARE a AS ".repeat(n));
    assert_eq!(parse_sql(&prepares(7)), Err(TOO_DEEP.to_string()));
    assert_ne!(parse_sql(&prepares(6)), Err(TOO_DEEP.to_string()));
    let sums = |n: usize| format!("SELECT 1{}", " + 1".repeat(n));
    assert_eq!(parse_sql(&sums(100_000)), Err(TOO_DEEP.to_string()));
    assert_eq!(parse_sql(&sums(47)).map(|s| s.len()), Ok(1));
    let derived = |n: usize| {
        format!("SELECT 1 FROM {}t{}", "(SELECT 1, 1 FROM ".repeat(n), ") a".repeat(n))
    };
    assert_eq!(parse_sql(&derived(16)), Err(TOO_DEEP.to_string()));
    assert_eq!(parse_sql(&derived(15)).map(|s| s.len()), Ok(1));
    let unions = |n: usize| {
        format!("SELECT a FROM (SELECT 1, 1{}) a", " UNION SELECT 1, 1".repeat(n))
    };
    assert_eq!(parse_sql(&unions(100_000)), Err(TOO_DEEP.to_string()));
    assert_eq!(parse_sql(&unions(10)).map(|s| s.len()), Ok(1));
    let indexes = |n: usize| format!("CREATE TABLE t (a int{})", "[]".repeat(n));
    assert_eq!(parse_sql(&indexes(100_000)), Err(TOO_DEEP.to_string()));
}

#[test]
fn long_lists_are_not_deep() {
    let rows = "(-1, 'a', NULL), ".repeat(5_000);
    let sql = format!("INSERT INTO t (a, b, c) VALUES {}(0, 'z', NULL)", rows);
    assert!(!is_screened(&sql));
    assert_eq!(parse_sql(&sql).map(|s| s.len()), Ok(1));
    let columns = "c int NOT NULL UNIQUE, ".repeat(500);
    let sql = format!("CREATE TABLE t ({}id int PRIMARY KEY)", columns);
    assert_eq!(parse_sql(&sql).map(|s| s.len()), Ok(1));
    let statements = "SELECT a FROM t WHERE a >= 1; ".repeat(500);
    assert_eq!(parse_sql(&statements).map(|s| s.len()), Ok(500));
}

#[test]
fn a_text_that_nests_too_deeply_runs_nothing() {
    let mut db = Database::new();
    let none = FloatReadings::new();
    let sql = format!("CREATE TABLE t (id int); SELECT {}1", "NOT ".repeat(60));
    assert_eq!(process_command(sql, &mut db, &none), Err(TOO_DEEP.to_string()));
    assert_eq!(db.tables.len(), 0);
}
