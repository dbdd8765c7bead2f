use coldb::screen::NEST_LIMIT;
use sqlparser::dialect::MySqlDialect;
use sqlparser::parser::Parser;

// The parser itself, on texts in which twice as much is open as the library
// hands to it: it returns, and what it built can be copied and dropped.
fn comes_back(sql: String) {
    let parsed = Parser::parse_sql(&MySqlDialect {}, &sql);
    let copy = parsed.clone();
    drop(parsed);
    drop(copy);
}

fn twice(weight: usize) -> usize {
    2 * NEST_LIMIT / weight
}

#[test]
fn the_parser_returns_on_twice_the_prefix_operators() {
    comes_back(format!("SELECT {}1", "NOT ".repeat(twice(1))));
    comes_back(format!("SELECT {}1", "- ".repeat(twice(1))));
    comes_back(format!("SELECT {}1", "INTERVAL ".repeat(twice(1))));
}

#[test]
fn the_parser_returns_on_twice_the_brackets() {
    let n = twice(2);
    comes_back(format!("SELECT 1 FROM {}t{}", "(".repeat(n), ")".repeat(n)));
    comes_back(format!("SELECT {}1{}", "(".repeat(n), ")".repeat(n)));
    comes_back(format!("SELECT {}1{}", "f(1, ".repeat(n), ")".repeat(n)));
    comes_back(format!("SELECT {}1{}", "a[".repeat(n), "]".repeat(n)));
    comes_back(format!("SELECT {}1{}", "(SELECT 1, ".repeat(n), ")".repeat(n)));
}

#[test]
fn the_parser_returns_on_twice_the_nested_statements() {
    comes_back(format!("{}SELECT 1", "EXPLAIN ".repeat(twice(6))));
    comes_back(format!("{}SELECT 1", "DESCRIBE ".repeat(twice(6))));
    comes_back(format!("{}SELECT 1", "PREPARE a AS ".repeat(twice(7))));
}

#[test]
fn the_parser_returns_on_twice_the_nested_queries() {
    let n = twice(4);
    comes_back(format!("SELECT 1 FROM {}t{}", "(SELECT 1 FROM ".repeat(n), ") a".repeat(n)));
    let n = twice(3);
    comes_back(format!("SELECT 1 FROM {}t{}", "(SELECT 1, 1 FROM ".repeat(n), ") a".repeat(n)));
    comes_back(format!("SELECT 1 FROM {}t{}", "(a JOIN ".repeat(n), ")".repeat(n)));
    comes_back(format!("SELECT {}1{}", "EXISTS (SELECT ".repeat(n), ")".repeat(n)));
    comes_back(format!("SELECT {}1{}", "CASE WHEN 1 THEN ".repeat(n), " END".repeat(n)));
}

#[test]
fn the_parser_returns_on_twice_the_nested_types_and_chains() {
    let n = twice(3);
    comes_back(format!("CREATE TABLE t (a {}int{})", "ARRAY<".repeat(n), " >".repeat(n)));
    comes_back(format!("SELECT 1{}", " + 1".repeat(twice(1))));
    comes_back(format!("SELECT 1{}", " UNION SELECT 1".repeat(twice(2))));
    comes_back(format!("CREATE TABLE t (a int{})", "[]".repeat(twice(2))));
}

#[test]
fn the_parser_returns_on_twice_a_mixture() {
    comes_back(format!(
        "{}SELECT 1 FROM {}(SELECT {}1) a{}",
        "EXPLAIN ".repeat(4),
        "(".repeat(16),
        "NOT ".repeat(30),
        ")".repeat(16)
    ));
}
