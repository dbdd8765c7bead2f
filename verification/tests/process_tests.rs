use coldb::cell::FloatReadings;
use coldb::database::Database;
use coldb::error::EngineError;
use coldb::run::{literals, process_all, process_command, Reply};
use coldb::parser::statement::{
    SqlBody, SqlColumn, SqlExpr, SqlItem, SqlOperator, SqlOption, SqlQuery, SqlSelect, SqlSource,
    SqlStatement, SqlTerm, SqlType, SqlValue,
};
use coldb::sql::parse_sql;

fn strings(items: &[&str]) -> Vec<String> {
    items.iter().map(|s| s.to_string()).collect()
}

fn number(s: &str) -> SqlExpr {
    SqlExpr::Value(SqlValue::Number(s.to_string()))
}

#[test]
fn sql_text_is_parsed_into_statements() {
    let statements = parse_sql(
        "CREATE TABLE t (id INT PRIMARY KEY, n VARCHAR(10) NOT NULL); \
         INSERT INTO t (id, n) VALUES (1, 'a'); \
         SELECT *, n FROM t WHERE id <= 1 LIMIT 2; \
         DROP TABLE t",
    )
    .unwrap();
    assert_eq!(
        statements,
        vec![
            SqlStatement::CreateTable {
                name: "t".to_string(),
                columns: vec![
                    SqlColumn {
                        name: "id".to_string(),
                        data_type: SqlType::Int,
                        options: vec![SqlOption::Unique { is_primary: true }],
                    },
                    SqlColumn {
                        name: "n".to_string(),
                        data_type: SqlType::Varchar,
                        options: vec![SqlOption::Other],
                    },
                ],
            },
            SqlStatement::Insert {
                table_name: "t".to_string(),
                names: strings(&["id", "n"]),
                source: SqlQuery {
                    body: SqlBody::Values(vec![vec![
                        number("1"),
                        SqlExpr::Value(SqlValue::SingleQuotedString("a".to_string())),
                    ]]),
                    limit: None,
                    offset: None,
                },
            },
            SqlStatement::Query(SqlQuery {
                body: SqlBody::Select(SqlSelect {
                    projection: vec![
                        SqlItem::Wildcard,
                        SqlItem::UnnamedExpr(SqlExpr::Identifier("n".to_string())),
                    ],
                    from: vec![SqlSource::Table {
                        name: "t".to_string(),
                    }],
                    selection: Some(SqlExpr::BinaryOp {
                        left: SqlTerm::Identifier("id".to_string()),
                        op: SqlOperator::LtEq,
                        right: SqlTerm::Value(SqlValue::Number("1".to_string())),
                    }),
                }),
                limit: Some(number("2")),
                offset: None,
            }),
            SqlStatement::Other,
        ]
    );
}

#[test]
fn what_is_no_sql_is_refused_in_words() {
    assert!(parse_sql("SELECT FROM WHERE").is_err());
    assert!(parse_sql("CREATE TABLE (").is_err());
    let said = parse_sql("'unclosed").unwrap_err();
    assert!(!said.is_empty());
    assert_eq!(parse_sql(""), Ok(vec![]));
}

#[test]
fn quoted_names_keep_their_quotes() {
    let statements = parse_sql("SELECT `a b` FROM `my t` WHERE `a b` = N'x'").unwrap();
    assert_eq!(
        statements,
        vec![SqlStatement::Query(SqlQuery {
            body: SqlBody::Select(SqlSelect {
                projection: vec![SqlItem::UnnamedExpr(SqlExpr::Identifier(
                    "`a b`".to_string()
                ))],
                from: vec![SqlSource::Table {
                    name: "`my t`".to_string(),
                }],
                selection: Some(SqlExpr::BinaryOp {
                    left: SqlTerm::Identifier("`a b`".to_string()),
                    op: SqlOperator::Eq,
                    right: SqlTerm::Value(SqlValue::NationalStringLiteral("x".to_string())),
                }),
            }),
            limit: None,
            offset: None,
        })]
    );
}

#[test]
fn each_kind_of_statement_is_processed() {
    let mut db = Database::new();
    let none = FloatReadings::new();
    let statements = parse_sql(
        "CREATE TABLE t (id int PRIMARY KEY, n text); \
         INSERT INTO t (id, n) VALUES (2, 'b'), (1, 'a'); \
         SELECT n, * FROM t WHERE id >= 1; \
         INSERT INTO t (id, n) VALUES (2, 'again'); \
         SELECT n FROM t WHERE id = 3 OFFSET x; \
         SELECT n FROM missing; \
         UPDATE t SET n = 'z'",
    )
    .unwrap();
    let replies: Vec<Result<Reply, EngineError>> = statements
        .iter()
        .map(|s| db.process(s, &none))
        .collect();
    assert_eq!(replies[0], Ok(Reply::Created));
    assert_eq!(replies[1], Ok(Reply::Inserted));
    assert_eq!(
        replies[2],
        Ok(Reply::Rows {
            header: strings(&["n", "id", "n"]),
            rows: vec![strings(&["a", "1", "a"]), strings(&["b", "2", "b"])],
        })
    );
    assert_eq!(
        replies[3],
        Err(EngineError::UniqueViolation(
            "unique constraint violation for column id. Value 2 already exists for column id"
                .to_string()
        ))
    );
    assert_eq!(replies[4], Ok(Reply::Rows { header: strings(&["n"]), rows: vec![] }));
    assert_eq!(replies[5], Err(EngineError::UnknownTable("missing".to_string())));
    assert_eq!(
        replies[6],
        Err(EngineError::Unsupported(
            "Not a insert, create table or select query".to_string()
        ))
    );
    assert_eq!(db.tables.len(), 1);
    assert_eq!(db.tables[0].rows[0].data.count(), 2);
}

#[test]
fn a_selection_that_cannot_be_read_is_not_supported() {
    let mut db = Database::new();
    let none = FloatReadings::new();
    let statements =
        parse_sql("SELECT a FROM t LIMIT 1.5; SELECT a FROM t WHERE a + 1; VALUES (1)").unwrap();
    assert_eq!(
        db.process(&statements[0], &none),
        Err(EngineError::Unsupported("cannot read the limit".to_string()))
    );
    assert_eq!(
        db.process(&statements[1], &none),
        Err(EngineError::Unsupported("cannot parse select query".to_string()))
    );
    assert_eq!(
        db.process(&statements[2], &none),
        Err(EngineError::Unsupported("not a select".to_string()))
    );
    assert_eq!(
        db.process(&SqlStatement::Other, &none).unwrap_err().message(),
        "Not a insert, create table or select query"
    );
}

#[test]
fn the_literals_of_a_statement_are_told() {
    let statements = parse_sql(
        "INSERT INTO t (a, b) VALUES (1.5, 'x'), (true, 2); \
         SELECT a FROM t WHERE a > 2.5; \
         SELECT a FROM t; \
         SELECT a FROM t WHERE a > 1 LIMIT x1; \
         CREATE TABLE t (a float)",
    )
    .unwrap();
    assert_eq!(literals(&statements[0]), strings(&["1.5", "x", "true", "2"]));
    assert_eq!(literals(&statements[1]), strings(&["2.5"]));
    assert_eq!(literals(&statements[2]), strings(&[]));
    assert_eq!(literals(&statements[3]), strings(&["1"]));
    assert_eq!(literals(&statements[4]), strings(&[]));
    assert_eq!(literals(&SqlStatement::Other), strings(&[]));
}

#[test]
fn a_text_is_run_statement_by_statement() {
    let mut db = Database::new();
    let none = FloatReadings::new();
    let replies = process_command(
        "CREATE TABLE t (id int PRIMARY KEY); \
         INSERT INTO t (id) VALUES (1); \
         INSERT INTO t (id) VALUES (1); \
         INSERT INTO t (id) VALUES (2); \
         SELECT * FROM t WHERE id >= 0"
            .to_string(),
        &mut db,
        &none,
    )
    .unwrap();
    assert_eq!(replies.len(), 5);
    assert_eq!(replies[0], Ok(Reply::Created));
    assert_eq!(replies[1], Ok(Reply::Inserted));
    assert!(matches!(replies[2], Err(EngineError::UniqueViolation(_))));
    assert_eq!(replies[3], Ok(Reply::Inserted));
    assert_eq!(
        replies[4],
        Ok(Reply::Rows {
            header: strings(&["id"]),
            rows: vec![strings(&["1"]), strings(&["2"])],
        })
    );
    let before = process_all(&[], &mut db, &none);
    assert!(before.is_empty());
    let unparsed = process_command("CREATE TABLE (".to_string(), &mut db, &none);
    assert!(unparsed.is_err());
    assert_eq!(db.tables.len(), 1);
}

#[test]
fn a_selection_of_no_column_gives_a_row_for_each_match() {
    let mut db = Database::new();
    let none = FloatReadings::new();
    let replies = process_command(
        "CREATE TABLE users (id int PRIMARY KEY, name string); \
         INSERT INTO users (id, name) VALUES (1, 'ann'), (2, 'bo'); \
         SELECT 1 FROM users WHERE id = 3; \
         SELECT 1 FROM users WHERE id = 2; \
         SELECT 1 FROM users WHERE name <> 'zed'"
            .to_string(),
        &mut db,
        &none,
    )
    .unwrap();
    assert_eq!(replies.len(), 5);
    assert_eq!(
        replies[2],
        Ok(Reply::Rows {
            header: strings(&[]),
            rows: vec![],
        })
    );
    assert_eq!(
        replies[3],
        Ok(Reply::Rows {
            header: strings(&[]),
            rows: vec![strings(&[])],
        })
    );
    assert_eq!(
        replies[4],
        Ok(Reply::Rows {
            header: strings(&[]),
            rows: vec![strings(&[]), strings(&[])],
        })
    );
}

#[test]
fn names_of_several_parts_are_written_with_dots() {
    let statements = parse_sql(
        "CREATE TABLE db.`my t` (`a b` int PRIMARY KEY, c text); \
         INSERT INTO db.`my t` (`a b`, c) VALUES (1, 'x'); \
         SELECT c FROM a.b.c WHERE c = 'x'",
    )
    .unwrap();
    assert_eq!(statements.len(), 3);
    assert_eq!(
        statements[0],
        SqlStatement::CreateTable {
            name: "db.`my t`".to_string(),
            columns: vec![
                SqlColumn {
                    name: "`a b`".to_string(),
                    data_type: SqlType::Int,
                    options: vec![SqlOption::Unique { is_primary: true }],
                },
                SqlColumn {
                    name: "c".to_string(),
                    data_type: SqlType::Text,
                    options: vec![],
                },
            ],
        }
    );
    match &statements[1] {
        SqlStatement::Insert { table_name, names, .. } => {
            assert_eq!(table_name, "db.`my t`");
            assert_eq!(names, &strings(&["`a b`", "c"]));
        }
        other => panic!("not an insertion: {other:?}"),
    }
    match &statements[2] {
        SqlStatement::Query(SqlQuery { body: SqlBody::Select(select), .. }) => {
            assert_eq!(select.from, vec![SqlSource::Table { name: "a.b.c".to_string() }]);
        }
        other => panic!("not a selection: {other:?}"),
    }
}
