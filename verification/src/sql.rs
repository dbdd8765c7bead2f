//! SQL text to statements. The text is parsed by the `sqlparser` crate; its
//! syntax tree is walked here node by node, and of each node only what the
//! engine reads is kept. A text on which the parser could unwind is told by
//! its tokens and not parsed.

use crate::parser::statement::{
    SqlOperator, SqlColumn, SqlOption, SqlExpr, SqlQuery, SqlSelect, SqlItem, SqlBody, SqlType,
    SqlStatement, SqlSource, SqlTerm, SqlValue,
};
use crate::screen::{
    grantor_unnamed, names_no_grantor, nests_too_deep, not_parsed_text, spoken, too_deep,
    too_deep_text, without_spaces, NestKind, TokenKind,
};
use sqlparser::keywords::Keyword;
use sqlparser::tokenizer::Token;
use vstd::prelude::*;

verus! {

/// `sqlparser::ast::Statement`, carried through as it is: nothing is known of what a value
/// holds.
#[verifier::external_type_specification]
#[verifier::external_body]
pub struct ExStatement(sqlparser::ast::Statement);

/// `sqlparser::ast::ColumnDef`, carried through as it is: nothing is known of what a value
/// holds.
#[verifier::external_type_specification]
#[verifier::external_body]
pub struct ExColumnDef(sqlparser::ast::ColumnDef);

/// `sqlparser::ast::Query`, carried through as it is: nothing is known of what a value
/// holds.
#[verifier::external_type_specification]
#[verifier::external_body]
pub struct ExQuery(sqlparser::ast::Query);

/// `sqlparser::ast::Select`, carried through as it is: nothing is known of what a value
/// holds.
#[verifier::external_type_specification]
#[verifier::external_body]
pub struct ExSelect(sqlparser::ast::Select);

/// `sqlparser::ast::SelectItem`, carried through as it is: nothing is known of what a value
/// holds.
#[verifier::external_type_specification]
#[verifier::external_body]
pub struct ExSelectItem(sqlparser::ast::SelectItem);

/// `sqlparser::ast::TableWithJoins`, carried through as it is: nothing is known of what a value
/// holds.
#[verifier::external_type_specification]
#[verifier::external_body]
pub struct ExTableWithJoins(sqlparser::ast::TableWithJoins);

/// `sqlparser::ast::Expr`, carried through as it is: nothing is known of what a value
/// holds.
#[verifier::external_type_specification]
#[verifier::external_body]
pub struct ExExpr(sqlparser::ast::Expr);

/// `sqlparser::ast::Value`, carried through as it is: nothing is known of what a value
/// holds.
#[verifier::external_type_specification]
#[verifier::external_body]
pub struct ExValue(sqlparser::ast::Value);

/// `sqlparser::ast::BinaryOperator`, carried through as it is: nothing is known of what a value
/// holds.
#[verifier::external_type_specification]
#[verifier::external_body]
pub struct ExBinaryOperator(sqlparser::ast::BinaryOperator);

/// `sqlparser::tokenizer::Token`, carried through as it is: nothing is known of what a value
/// holds.
#[verifier::external_type_specification]
#[verifier::external_body]
pub struct ExToken(sqlparser::tokenizer::Token);

/// `sqlparser::ast::Ident`, carried through as it is: nothing is known of what a value
/// holds.
#[verifier::external_type_specification]
#[verifier::external_body]
pub struct ExIdent(sqlparser::ast::Ident);

/// `sqlparser::ast::ObjectName`, carried through as it is: nothing is known of what a value
/// holds.
#[verifier::external_type_specification]
#[verifier::external_body]
pub struct ExObjectName(sqlparser::ast::ObjectName);

/// A parsed statement, one level deep.
pub enum StatementShape {
    CreateTable { name: sqlparser::ast::ObjectName, columns: Vec<sqlparser::ast::ColumnDef> },
    Insert {
        table_name: sqlparser::ast::ObjectName,
        names: Vec<sqlparser::ast::Ident>,
        source: sqlparser::ast::Query,
    },
    Query(sqlparser::ast::Query),
    Other,
}

/// A parsed source of rows, one level deep.
pub enum SourceShape {
    Table(sqlparser::ast::ObjectName),
    Other,
}

/// The body of a parsed query, one level deep.
pub enum BodyShape {
    Select(sqlparser::ast::Select),
    Values(Vec<Vec<sqlparser::ast::Expr>>),
    Other,
}

/// A parsed query, one level deep.
pub struct QueryShape {
    pub body: BodyShape,
    pub limit: Option<sqlparser::ast::Expr>,
    pub offset: Option<sqlparser::ast::Expr>,
}

/// A parsed SELECT, one level deep.
pub struct SelectShape {
    pub projection: Vec<sqlparser::ast::SelectItem>,
    pub from: Vec<sqlparser::ast::TableWithJoins>,
    pub selection: Option<sqlparser::ast::Expr>,
}

/// A parsed item of a projection, one level deep.
pub enum ItemShape {
    UnnamedExpr(sqlparser::ast::Expr),
    ExprWithAlias(sqlparser::ast::Expr),
    QualifiedWildcard,
    Wildcard,
}

/// A parsed expression, one level deep.
pub enum ExprShape {
    Value(sqlparser::ast::Value),
    Identifier(sqlparser::ast::Ident),
    BinaryOp {
        left: sqlparser::ast::Expr,
        op: sqlparser::ast::BinaryOperator,
        right: sqlparser::ast::Expr,
    },
    Other,
}

/// What `sqlparser::parser::Parser::parse_sql` makes of a text in the MySQL
/// dialect: the statements parsed, in order, or the text of its error.
pub uninterp spec fn parsed(sql: Seq<char>) -> Result<Seq<sqlparser::ast::Statement>, Seq<char>>;

/// What a `sqlparser::ast::Statement` is, one level deep.
pub uninterp spec fn statement_read(s: sqlparser::ast::Statement) -> StatementShape;

/// The name of a `sqlparser::ast::ColumnDef`.
pub uninterp spec fn name_read(c: sqlparser::ast::ColumnDef) -> sqlparser::ast::Ident;

/// The quote that a `sqlparser::ast::Ident` is written in, if it is quoted.
pub uninterp spec fn quote_read(i: sqlparser::ast::Ident) -> Option<char>;

/// A `sqlparser::ast::Ident` as the text that `to_string` gives.
pub uninterp spec fn ident_written(i: sqlparser::ast::Ident) -> String;

/// The parts of a `sqlparser::ast::ObjectName`, in order.
pub uninterp spec fn parts_read(n: sqlparser::ast::ObjectName) -> Vec<sqlparser::ast::Ident>;

/// The type of a `sqlparser::ast::ColumnDef`.
pub uninterp spec fn type_read(c: sqlparser::ast::ColumnDef) -> SqlType;

/// The options of a `sqlparser::ast::ColumnDef`.
pub uninterp spec fn options_read(c: sqlparser::ast::ColumnDef) -> Vec<SqlOption>;

/// What a `sqlparser::ast::Query` is, one level deep.
pub uninterp spec fn query_read(q: sqlparser::ast::Query) -> QueryShape;

/// What a `sqlparser::ast::Select` is, one level deep.
pub uninterp spec fn select_read(s: sqlparser::ast::Select) -> SelectShape;

/// What a `sqlparser::ast::SelectItem` is, one level deep.
pub uninterp spec fn item_read(item: sqlparser::ast::SelectItem) -> ItemShape;

/// What the source of rows of a `sqlparser::ast::TableWithJoins` is, one
/// level deep.
pub uninterp spec fn source_read(f: sqlparser::ast::TableWithJoins) -> SourceShape;

/// What a `sqlparser::ast::Expr` is, one level deep.
pub uninterp spec fn expr_read(e: sqlparser::ast::Expr) -> ExprShape;

/// The literal that a `sqlparser::ast::Value` is.
pub uninterp spec fn value_read(v: sqlparser::ast::Value) -> SqlValue;

/// The operator that a `sqlparser::ast::BinaryOperator` is.
pub uninterp spec fn operator_read(op: sqlparser::ast::BinaryOperator) -> SqlOperator;

/// The tokens that `sqlparser::tokenizer::Tokenizer::tokenize` makes of a
/// text in the MySQL dialect, in order, if it makes any.
pub uninterp spec fn tokenized(sql: Seq<char>) -> Option<Seq<sqlparser::tokenizer::Token>>;

/// What a `sqlparser::tokenizer::Token` is to the question whether
/// `GRANTED BY` is followed by an identifier.
pub uninterp spec fn kind_read(t: sqlparser::tokenizer::Token) -> TokenKind;

/// What a `sqlparser::tokenizer::Token` is to the question how deeply a
/// text nests.
pub uninterp spec fn nest_read(t: sqlparser::tokenizer::Token) -> NestKind;

/// The kinds of the tokens, in order.
pub open spec fn kinds_read(tokens: Seq<sqlparser::tokenizer::Token>) -> Seq<TokenKind> {
    Seq::new(tokens.len(), |i: int| kind_read(tokens[i]))
}

/// What the tokens are to the question how deeply the text nests, in
/// order.
pub open spec fn nests_read(tokens: Seq<sqlparser::tokenizer::Token>) -> Seq<NestKind> {
    Seq::new(tokens.len(), |i: int| nest_read(tokens[i]))
}

/// Why `sql` is not handed to the parser, if it is not. A text is refused
/// that has tokens among which, white space and comments left out, the
/// keywords `GRANTED BY` are followed by the end or by what cannot stand
/// as an identifier; and one whose tokens nest too deeply.
pub open spec fn refusal(sql: Seq<char>) -> Option<Seq<char>> {
    match tokenized(sql) {
        Some(tokens) => if grantor_unnamed(spoken(kinds_read(tokens))) {
            Some(not_parsed_text())
        } else if too_deep(nests_read(tokens)) {
            Some(too_deep_text())
        } else {
            None
        },
        None => None,
    }
}

/// Whether `sql` is a text that is not handed to the parser.
pub open spec fn screened(sql: Seq<char>) -> bool {
    refusal(sql) is Some
}

/// Calls `sqlparser::tokenizer::Tokenizer::tokenize` with the MySQL
/// dialect. The tokens are handed on as they are, and nothing where the
/// tokenizer fails. Which tokens they are depends on the text alone.
#[verifier::external_body]
fn tokens_of(sql: &str) -> (r: Option<Vec<sqlparser::tokenizer::Token>>)
    ensures
        match r {
            Some(tokens) => tokenized(sql@) == Some(tokens@),
            None => tokenized(sql@) is None,
        },
{
    sqlparser::tokenizer::Tokenizer::new(&sqlparser::dialect::MySqlDialect {}, sql).tokenize().ok()
}

/// Tells the variants of `sqlparser::tokenizer::Token` apart, and a word by
/// the keyword that the tokenizer found it to be. The result depends on the
/// token alone.
#[verifier::external_body]
fn token_kind(t: &sqlparser::tokenizer::Token) -> (r: TokenKind)
    ensures
        r == kind_read(*t),
{
    match t {
        sqlparser::tokenizer::Token::Word(w) => match w.keyword {
            sqlparser::keywords::Keyword::GRANTED => TokenKind::Granted,
            sqlparser::keywords::Keyword::BY => TokenKind::By,
            _ => TokenKind::Name,
        },
        sqlparser::tokenizer::Token::SingleQuotedString(_) => TokenKind::Name,
        sqlparser::tokenizer::Token::DoubleQuotedString(_) => TokenKind::Name,
        sqlparser::tokenizer::Token::Whitespace(_) => TokenKind::Space,
        _ => TokenKind::Other,
    }
}

/// Tells the variants of `sqlparser::tokenizer::Token` apart, and a word by
/// whether the tokenizer found it to be a keyword, and which of those that
/// a statement or a query may follow. The result depends on the token
/// alone.
#[verifier::external_body]
fn nest_kind(t: &sqlparser::tokenizer::Token) -> (r: NestKind)
    ensures
        r == nest_read(*t),
{
    match t {
        Token::Whitespace(_) | Token::Number(..) | Token::SingleQuotedString(_) | Token::DoubleQuotedString(_) | Token::NationalStringLiteral(_) => NestKind::Leaf,
        Token::Word(w) => match w.keyword {
            Keyword::NoKeyword => NestKind::Leaf,
            Keyword::EXPLAIN | Keyword::DESCRIBE | Keyword::PREPARE => NestKind::Statement,
            Keyword::UNION | Keyword::EXCEPT | Keyword::INTERSECT => NestKind::Joining,
            _ => NestKind::Other,
        },
        Token::LParen => NestKind::Open,
        Token::RParen => NestKind::Close,
        Token::Comma => NestKind::Comma,
        Token::SemiColon => NestKind::End,
        Token::LBracket | Token::LBrace => NestKind::Bracket,
        _ => NestKind::Other,
    }
}

/// Calls `sqlparser::parser::Parser::parse_sql` with the MySQL dialect.
/// The statements parsed are handed on as they are; an error is handed on
/// as its text. Which of the two it is, and which statements or which
/// text, depends on the text parsed alone.
///
/// The parser makes tokens of the text as `Tokenizer::tokenize` does and
/// passes over those of white space, comments among them. It unwinds
/// where, in a statement that grants or revokes, the keywords `GRANTED BY`
/// are followed by a token that is neither a word nor a string in single
/// or double quotes, or by the end of the tokens. Every text in which the
/// two keywords are followed so is left out.
///
/// The parser descends by calling itself, and where it descends too far
/// the stack runs out and it does not return. It descends only on a
/// token that is no leaf. It comes back from what a `(` opened at the `)`
/// that closes it, and from what an item of a list in brackets opened at
/// the `,` after the item; what it builds of queries that `UNION`,
/// `EXCEPT` or `INTERSECT` joins stays open over such a `,`. It takes a
/// `;` only between statements, or where a statement ends in lines of
/// data. So it is never deeper than the weights of the tokens say that
/// are open at one time, and the trees that it builds are no deeper.
/// Every text in which these weights pass the limit is left out. What the
/// limit asks of the stack was measured, not derived: built without
/// optimisation, the parser returned on a stack of two megabytes on texts
/// of some twenty forms of nesting in which twice as much was open as the
/// limit allows. On a smaller stack it may not.
#[verifier::external_body]
fn parse(sql: &str) -> (r: Result<Vec<sqlparser::ast::Statement>, String>)
    requires
        !screened(sql@),
    ensures
        match r {
            Ok(statements) => parsed(sql@) == Ok::<
                Seq<sqlparser::ast::Statement>,
                Seq<char>,
            >(statements@),
            Err(said) => parsed(sql@) == Err::<Seq<sqlparser::ast::Statement>, Seq<char>>(said@),
        },
{
    sqlparser::parser::Parser::parse_sql(&sqlparser::dialect::MySqlDialect {}, sql).map_err(
        |e| e.to_string(),
    )
}

/// Tells the variants of `sqlparser::ast::Statement` apart and hands on the
/// fields that the engine reads. The result depends on the statement
/// alone.
#[verifier::external_body]
fn statement_shape(s: &sqlparser::ast::Statement) -> (r: StatementShape)
    ensures
        r == statement_read(*s),
{
    match s {
        sqlparser::ast::Statement::CreateTable { name, columns, .. } => StatementShape::CreateTable {
            name: name.clone(),
            columns: columns.clone(),
        },
        sqlparser::ast::Statement::Insert { table_name, columns, source, .. } => StatementShape::Insert {
            table_name: table_name.clone(),
            names: columns.clone(),
            source: source.as_ref().clone(),
        },
        sqlparser::ast::Statement::Query(q) => StatementShape::Query(q.as_ref().clone()),
        _ => StatementShape::Other,
    }
}

/// The name of a `sqlparser::ast::ColumnDef`. The result depends on the
/// column alone.
#[verifier::external_body]
fn column_name(c: &sqlparser::ast::ColumnDef) -> (r: sqlparser::ast::Ident)
    ensures
        r == name_read(*c),
{
    c.name.clone()
}

/// The quote style of a `sqlparser::ast::Ident`. The result depends on the
/// identifier alone.
#[verifier::external_body]
fn quote_of(i: &sqlparser::ast::Ident) -> (r: Option<char>)
    ensures
        r == quote_read(*i),
{
    i.quote_style
}

/// Calls `to_string` on a `sqlparser::ast::Ident`: the identifier as it is
/// written, in its quotes where it has any. The result depends on the
/// identifier alone. `to_string` unwinds on a quote other than `"`, `'`,
/// a backtick and `[`: identifiers with such a quote are left out.
#[verifier::external_body]
fn ident_text(i: &sqlparser::ast::Ident) -> (r: String)
    requires
        writable(quote_read(*i)),
    ensures
        r == ident_written(*i),
{
    i.to_string()
}

/// The parts of a `sqlparser::ast::ObjectName`, in order. The result
/// depends on the name alone.
#[verifier::external_body]
fn parts_of(n: &sqlparser::ast::ObjectName) -> (r: Vec<sqlparser::ast::Ident>)
    ensures
        r == parts_read(*n),
{
    n.0.clone()
}

/// Tells the variants of the `sqlparser::ast::DataType` of a column apart.
/// The result depends on the column alone.
#[verifier::external_body]
fn column_type(c: &sqlparser::ast::ColumnDef) -> (r: SqlType)
    ensures
        r == type_read(*c),
{
    match c.data_type {
        sqlparser::ast::DataType::SmallInt(_) => SqlType::SmallInt,
        sqlparser::ast::DataType::Int(_) => SqlType::Int,
        sqlparser::ast::DataType::BigInt(_) => SqlType::BigInt,
        sqlparser::ast::DataType::Boolean => SqlType::Boolean,
        sqlparser::ast::DataType::Text => SqlType::Text,
        sqlparser::ast::DataType::Varchar(_) => SqlType::Varchar,
        sqlparser::ast::DataType::String => SqlType::String,
        sqlparser::ast::DataType::Float(_) => SqlType::Float,
        sqlparser::ast::DataType::Double => SqlType::Double,
        sqlparser::ast::DataType::Decimal(_) => SqlType::Decimal,
        _ => SqlType::Other,
    }
}

/// Tells the variants of the `sqlparser::ast::ColumnOption` of each option
/// of a column apart, in the order of the options. The result depends on
/// the column alone.
#[verifier::external_body]
fn column_options(c: &sqlparser::ast::ColumnDef) -> (r: Vec<SqlOption>)
    ensures
        r == options_read(*c),
{
    c.options.iter().map(|o| match o.option {
        sqlparser::ast::ColumnOption::Unique { is_primary } => SqlOption::Unique { is_primary },
        _ => SqlOption::Other,
    }).collect()
}

/// Hands on the body, the limit and the value of the offset of a
/// `sqlparser::ast::Query`, the body told apart by its variant. The result
/// depends on the query alone.
#[verifier::external_body]
fn query_shape(q: &sqlparser::ast::Query) -> (r: QueryShape)
    ensures
        r == query_read(*q),
{
    QueryShape {
        body: match q.body.as_ref() {
            sqlparser::ast::SetExpr::Select(s) => BodyShape::Select(s.as_ref().clone()),
            sqlparser::ast::SetExpr::Values(v) => BodyShape::Values(v.rows.clone()),
            _ => BodyShape::Other,
        },
        limit: q.limit.clone(),
        offset: q.offset.as_ref().map(|o| o.value.clone()),
    }
}

/// Hands on the projection, the FROM clause and the WHERE clause of a
/// `sqlparser::ast::Select`. The result depends on the SELECT alone.
#[verifier::external_body]
fn select_shape(s: &sqlparser::ast::Select) -> (r: SelectShape)
    ensures
        r == select_read(*s),
{
    SelectShape {
        projection: s.projection.clone(),
        from: s.from.clone(),
        selection: s.selection.clone(),
    }
}

/// Tells the variants of `sqlparser::ast::SelectItem` apart and hands on
/// the expression of an item that has one. The result depends on the item
/// alone.
#[verifier::external_body]
fn item_shape(item: &sqlparser::ast::SelectItem) -> (r: ItemShape)
    ensures
        r == item_read(*item),
{
    match item {
        sqlparser::ast::SelectItem::UnnamedExpr(e) => ItemShape::UnnamedExpr(e.clone()),
        sqlparser::ast::SelectItem::ExprWithAlias { expr, .. } => ItemShape::ExprWithAlias(
            expr.clone(),
        ),
        sqlparser::ast::SelectItem::QualifiedWildcard(_, _) => ItemShape::QualifiedWildcard,
        sqlparser::ast::SelectItem::Wildcard(_) => ItemShape::Wildcard,
    }
}

/// Tells a plain table in a `sqlparser::ast::TableWithJoins` from any other
/// source of rows, and hands on the table's name. The result depends on
/// the source alone.
#[verifier::external_body]
fn factor_of(f: &sqlparser::ast::TableWithJoins) -> (r: SourceShape)
    ensures
        r == source_read(*f),
{
    match &f.relation {
        sqlparser::ast::TableFactor::Table { name, .. } => SourceShape::Table(name.clone()),
        _ => SourceShape::Other,
    }
}

/// Tells the variants of `sqlparser::ast::Expr` apart and hands on the
/// fields that the engine reads. The result depends on the expression
/// alone.
#[verifier::external_body]
fn expr_shape(e: &sqlparser::ast::Expr) -> (r: ExprShape)
    ensures
        r == expr_read(*e),
{
    match e {
        sqlparser::ast::Expr::Value(v) => ExprShape::Value(v.clone()),
        sqlparser::ast::Expr::Identifier(i) => ExprShape::Identifier(i.clone()),
        sqlparser::ast::Expr::BinaryOp { left, op, right } => ExprShape::BinaryOp {
            left: left.as_ref().clone(),
            op: op.clone(),
            right: right.as_ref().clone(),
        },
        _ => ExprShape::Other,
    }
}

/// Tells the variants of `sqlparser::ast::Value` apart and hands on the
/// text or the boolean of a literal. The result depends on the value
/// alone.
#[verifier::external_body]
fn value_of(v: &sqlparser::ast::Value) -> (r: SqlValue)
    ensures
        r == value_read(*v),
{
    match v {
        sqlparser::ast::Value::Number(n, _) => SqlValue::Number(n.to_string()),
        sqlparser::ast::Value::Boolean(b) => SqlValue::Boolean(*b),
        sqlparser::ast::Value::SingleQuotedString(s) => SqlValue::SingleQuotedString(s.to_string()),
        sqlparser::ast::Value::NationalStringLiteral(s) => SqlValue::NationalStringLiteral(
            s.to_string(),
        ),
        sqlparser::ast::Value::Null => SqlValue::Null,
        _ => SqlValue::Other,
    }
}

/// Tells the variants of `sqlparser::ast::BinaryOperator` apart. The result
/// depends on the operator alone.
#[verifier::external_body]
fn operator_of(op: &sqlparser::ast::BinaryOperator) -> (r: SqlOperator)
    ensures
        r == operator_read(*op),
{
    match op {
        sqlparser::ast::BinaryOperator::Eq => SqlOperator::Eq,
        sqlparser::ast::BinaryOperator::NotEq => SqlOperator::NotEq,
        sqlparser::ast::BinaryOperator::Gt => SqlOperator::Gt,
        sqlparser::ast::BinaryOperator::Lt => SqlOperator::Lt,
        sqlparser::ast::BinaryOperator::GtEq => SqlOperator::GtEq,
        sqlparser::ast::BinaryOperator::LtEq => SqlOperator::LtEq,
        _ => SqlOperator::Other,
    }
}

/// Whether an identifier with the quote `q` can be written: one without
/// quotes, and one in `"`, `'`, backticks or `[`.
pub open spec fn writable(q: Option<char>) -> bool {
    match q {
        None => true,
        Some(c) => c == '"' || c == '\'' || c == '`' || c == '[',
    }
}

/// The text of an identifier, as it is written, if it can be written.
pub open spec fn read_ident(i: sqlparser::ast::Ident) -> Option<String> {
    if writable(quote_read(i)) {
        Some(ident_written(i))
    } else {
        None
    }
}

/// Whether every one of the identifiers can be written.
pub open spec fn all_writable(parts: Seq<sqlparser::ast::Ident>) -> bool {
    forall|k: int| 0 <= k < parts.len() ==> writable(quote_read(#[trigger] parts[k]))
}

/// The identifiers as they are written, in order.
pub open spec fn written(parts: Seq<sqlparser::ast::Ident>) -> Seq<String> {
    Seq::new(parts.len(), |k: int| ident_written(parts[k]))
}

/// The texts with a dot between each two.
pub open spec fn dotted(parts: Seq<String>) -> Seq<char>
    decreases parts.len(),
{
    if parts.len() == 0 {
        Seq::empty()
    } else if parts.len() == 1 {
        parts[0]@
    } else {
        dotted(parts.drop_last()) + seq!['.'] + parts.last()@
    }
}

/// The text of a name of several parts: its parts as they are written,
/// with a dot between each two, if every part can be written.
pub open spec fn read_name(n: sqlparser::ast::ObjectName) -> Option<Seq<char>> {
    if all_writable(parts_read(n)@) {
        Some(dotted(written(parts_read(n)@)))
    } else {
        None
    }
}

/// One side of a predicate, as it is read from a parsed expression: a
/// literal, an identifier that can be written, or anything else.
pub open spec fn read_term(e: sqlparser::ast::Expr) -> SqlTerm {
    match expr_read(e) {
        ExprShape::Value(v) => SqlTerm::Value(value_read(v)),
        ExprShape::Identifier(i) => match read_ident(i) {
            Some(text) => SqlTerm::Identifier(text),
            None => SqlTerm::Other,
        },
        _ => SqlTerm::Other,
    }
}

/// The expression that is read from a parsed one: a literal, an
/// identifier that can be written, two sides with an operator between
/// them, or anything else.
pub open spec fn read_expr(e: sqlparser::ast::Expr) -> SqlExpr {
    match expr_read(e) {
        ExprShape::Value(v) => SqlExpr::Value(value_read(v)),
        ExprShape::Identifier(i) => match read_ident(i) {
            Some(text) => SqlExpr::Identifier(text),
            None => SqlExpr::Other,
        },
        ExprShape::BinaryOp { left, op, right } => SqlExpr::BinaryOp {
            left: read_term(left),
            op: operator_read(op),
            right: read_term(right),
        },
        ExprShape::Other => SqlExpr::Other,
    }
}

/// The expression that is read from a parsed one, where there is one.
pub open spec fn read_optional(e: Option<sqlparser::ast::Expr>) -> Option<SqlExpr> {
    match e {
        Some(e) => Some(read_expr(e)),
        None => None,
    }
}

/// The expressions that are read from parsed ones, in order.
pub open spec fn read_row(row: Seq<sqlparser::ast::Expr>) -> Seq<SqlExpr> {
    Seq::new(row.len(), |i: int| read_expr(row[i]))
}

/// The item of a projection that is read from a parsed one.
pub open spec fn read_item(item: sqlparser::ast::SelectItem) -> SqlItem {
    match item_read(item) {
        ItemShape::UnnamedExpr(e) => SqlItem::UnnamedExpr(read_expr(e)),
        ItemShape::ExprWithAlias(e) => SqlItem::ExprWithAlias(read_expr(e)),
        ItemShape::QualifiedWildcard => SqlItem::QualifiedWildcard,
        ItemShape::Wildcard => SqlItem::Wildcard,
    }
}

/// The declared column that is read from a parsed one whose name can be
/// written.
pub open spec fn read_column(c: sqlparser::ast::ColumnDef) -> SqlColumn {
    SqlColumn {
        name: ident_written(name_read(c)),
        data_type: type_read(c),
        options: options_read(c),
    }
}

/// The names of the parsed columns, in order.
pub open spec fn names_read(columns: Seq<sqlparser::ast::ColumnDef>) -> Seq<sqlparser::ast::Ident> {
    Seq::new(columns.len(), |k: int| name_read(columns[k]))
}

/// Whether `r` is what is read from the parsed source of rows `f`: a
/// table under its name, where that is a plain table whose name can be
/// written, or anything else.
pub open spec fn source_read_as(f: sqlparser::ast::TableWithJoins, r: SqlSource) -> bool {
    match source_read(f) {
        SourceShape::Table(n) => match read_name(n) {
            Some(text) => r matches SqlSource::Table { name } && name@ == text,
            None => r is Other,
        },
        SourceShape::Other => r is Other,
    }
}

/// Whether `r` is what is read from the parsed SELECT `s`: its items, its
/// sources and its predicate, each in its place.
pub open spec fn select_read_as(s: sqlparser::ast::Select, r: SqlSelect) -> bool {
    let shape = select_read(s);
    &&& r.projection@ == Seq::new(
        shape.projection@.len(),
        |i: int| read_item(shape.projection@[i]),
    )
    &&& r.from@.len() == shape.from@.len()
    &&& forall|i: int|
        0 <= i < shape.from@.len() ==> source_read_as(shape.from@[i], #[trigger] r.from@[i])
    &&& r.selection == read_optional(shape.selection)
}

/// Whether `r` is what is read from the body `b` of a parsed query: a
/// SELECT, the rows of a VALUES list in order, or anything else.
pub open spec fn body_read_as(b: BodyShape, r: SqlBody) -> bool {
    match b {
        BodyShape::Select(s) => r matches SqlBody::Select(select) && select_read_as(s, select),
        BodyShape::Values(rows) => r matches SqlBody::Values(out) && out@.len() == rows@.len()
            && forall|i: int| 0 <= i < rows@.len() ==> (#[trigger] out@[i])@ == read_row(rows@[i]@),
        BodyShape::Other => r is Other,
    }
}

/// Whether `r` is what is read from the parsed query `q`: its body, its
/// limit and its offset.
pub open spec fn query_read_as(q: sqlparser::ast::Query, r: SqlQuery) -> bool {
    let shape = query_read(q);
    &&& body_read_as(shape.body, r.body)
    &&& r.limit == read_optional(shape.limit)
    &&& r.offset == read_optional(shape.offset)
}

/// Whether `r` is what is read from the parsed statement `s`: a creation
/// with its name and its columns in order, an insertion with its table,
/// its names and its source, a query, or anything else. A creation or an
/// insertion with a name that cannot be written counts as anything else.
pub open spec fn statement_read_as(s: sqlparser::ast::Statement, r: SqlStatement) -> bool {
    match statement_read(s) {
        StatementShape::CreateTable { name, columns } => match read_name(name) {
            Some(text) if all_writable(names_read(columns@)) => {
                &&& r matches SqlStatement::CreateTable { name: n, columns: c }
                &&& n@ == text
                &&& c@ == Seq::new(columns@.len(), |i: int| read_column(columns@[i]))
            },
            _ => r is Other,
        },
        StatementShape::Insert { table_name, names, source } => match read_name(table_name) {
            Some(text) if all_writable(names@) => {
                &&& r matches SqlStatement::Insert { table_name: t, names: n, source: q }
                &&& t@ == text
                &&& n@ == written(names@)
                &&& query_read_as(source, q)
            },
            _ => r is Other,
        },
        StatementShape::Query(q) => r matches SqlStatement::Query(query) && query_read_as(q, query),
        StatementShape::Other => r is Other,
    }
}

/// Whether `statements` are what is read from the parsed statements
/// `found`, one from each, in order.
pub open spec fn all_read_as(
    found: Seq<sqlparser::ast::Statement>,
    statements: Seq<SqlStatement>,
) -> bool {
    &&& statements.len() == found.len()
    &&& forall|i: int|
        0 <= i < found.len() ==> statement_read_as(found[i], #[trigger] statements[i])
}

/// Whether an identifier with the quote `q` can be written.
fn is_writable(q: Option<char>) -> (r: bool)
    ensures
        r == writable(q),
{
    match q {
        None => true,
        Some(c) => c == '"' || c == '\'' || c == '`' || c == '[',
    }
}

/// The text of an identifier, if it can be written.
fn text_of_ident(i: &sqlparser::ast::Ident) -> (r: Option<String>)
    ensures
        r == read_ident(*i),
{
    if is_writable(quote_of(i)) {
        Some(ident_text(i))
    } else {
        None
    }
}

/// The texts of the identifiers, in order, if every one can be written.
#[verifier::loop_isolation(false)]
fn texts_of_idents(parts: &Vec<sqlparser::ast::Ident>) -> (r: Option<Vec<String>>)
    ensures
        match r {
            Some(texts) => all_writable(parts@) && texts@ == written(parts@),
            None => !all_writable(parts@),
        },
{
    let mut out: Vec<String> = Vec::new();
    let mut k: usize = 0;
    while k < parts.len()
        invariant
            0 <= k <= parts@.len(),
            out@.len() == k,
            forall|j: int| 0 <= j < k ==> writable(quote_read(#[trigger] parts@[j])),
            forall|j: int| 0 <= j < k ==> #[trigger] out@[j] == ident_written(parts@[j]),
        decreases parts@.len() - k,
    {
        match text_of_ident(&parts[k]) {
            Some(text) => {
                out.push(text);
            },
            None => {
                return None;
            },
        }
        k += 1;
    }
    assert(out@ =~= written(parts@));
    Some(out)
}

/// The texts with a dot between each two.
fn join_with_dots(parts: &Vec<String>) -> (r: String)
    ensures
        r@ == dotted(parts@),
{
    proof {
        reveal_strlit(".");
        assert("."@ =~= seq!['.']);
    }
    let mut out = String::new();
    let mut k: usize = 0;
    assert(parts@.take(0) =~= Seq::<String>::empty());
    while k < parts.len()
        invariant
            0 <= k <= parts@.len(),
            "."@ == seq!['.'],
            out@ == dotted(parts@.take(k as int)),
        decreases parts@.len() - k,
    {
        proof {
            assert(parts@.take(k + 1).drop_last() =~= parts@.take(k as int));
            assert(parts@.take(k + 1).last() == parts@[k as int]);
        }
        if k > 0 {
            out.append(".");
        }
        out.append(parts[k].as_str());
        proof {
            if k == 0 {
                assert(out@ =~= parts@[0]@);
            }
        }
        k += 1;
    }
    assert(parts@.take(parts@.len() as int) =~= parts@);
    out
}

/// The text of a name of several parts, if every part can be written.
fn text_of_name(n: &sqlparser::ast::ObjectName) -> (r: Option<String>)
    ensures
        match r {
            Some(text) => read_name(*n) == Some(text@),
            None => read_name(*n) is None,
        },
{
    let parts = parts_of(n);
    match texts_of_idents(&parts) {
        Some(texts) => Some(join_with_dots(&texts)),
        None => None,
    }
}

fn term_of(e: &sqlparser::ast::Expr) -> (r: SqlTerm)
    ensures
        r == read_term(*e),
{
    match expr_shape(e) {
        ExprShape::Value(v) => SqlTerm::Value(value_of(&v)),
        ExprShape::Identifier(i) => match text_of_ident(&i) {
            Some(text) => SqlTerm::Identifier(text),
            None => SqlTerm::Other,
        },
        _ => SqlTerm::Other,
    }
}

fn expr_of(e: &sqlparser::ast::Expr) -> (r: SqlExpr)
    ensures
        r == read_expr(*e),
{
    match expr_shape(e) {
        ExprShape::Value(v) => SqlExpr::Value(value_of(&v)),
        ExprShape::Identifier(i) => match text_of_ident(&i) {
            Some(text) => SqlExpr::Identifier(text),
            None => SqlExpr::Other,
        },
        ExprShape::BinaryOp { left, op, right } => SqlExpr::BinaryOp {
            left: term_of(&left),
            op: operator_of(&op),
            right: term_of(&right),
        },
        ExprShape::Other => SqlExpr::Other,
    }
}

fn optional_expr_of(e: &Option<sqlparser::ast::Expr>) -> (r: Option<SqlExpr>)
    ensures
        r == read_optional(*e),
{
    match e {
        Some(e) => Some(expr_of(e)),
        None => None,
    }
}

fn row_of(row: &Vec<sqlparser::ast::Expr>) -> (r: Vec<SqlExpr>)
    ensures
        r@ == read_row(row@),
{
    let mut out: Vec<SqlExpr> = Vec::new();
    let mut i: usize = 0;
    while i < row.len()
        invariant
            0 <= i <= row@.len(),
            out@.len() == i,
            forall|k: int| 0 <= k < i ==> #[trigger] out@[k] == read_expr(row@[k]),
        decreases row@.len() - i,
    {
        out.push(expr_of(&row[i]));
        i += 1;
    }
    assert(out@ =~= read_row(row@));
    out
}

/// The source of rows that the engine reads from a parsed one.
fn source_of(f: &sqlparser::ast::TableWithJoins) -> (r: SqlSource)
    ensures
        source_read_as(*f, r),
{
    match factor_of(f) {
        SourceShape::Table(n) => match text_of_name(&n) {
            Some(name) => SqlSource::Table { name },
            None => SqlSource::Other,
        },
        SourceShape::Other => SqlSource::Other,
    }
}

fn select_of(select: &sqlparser::ast::Select) -> (r: SqlSelect)
    ensures
        select_read_as(*select, r),
{
    let shape = select_shape(select);
    let mut projection: Vec<SqlItem> = Vec::new();
    let mut i: usize = 0;
    while i < shape.projection.len()
        invariant
            0 <= i <= shape.projection@.len(),
            projection@.len() == i,
            forall|k: int| 0 <= k < i ==> #[trigger] projection@[k] == read_item(shape.projection@[k]),
        decreases shape.projection@.len() - i,
    {
        projection.push(
            match item_shape(&shape.projection[i]) {
                ItemShape::UnnamedExpr(e) => SqlItem::UnnamedExpr(expr_of(&e)),
                ItemShape::ExprWithAlias(e) => SqlItem::ExprWithAlias(expr_of(&e)),
                ItemShape::QualifiedWildcard => SqlItem::QualifiedWildcard,
                ItemShape::Wildcard => SqlItem::Wildcard,
            },
        );
        i += 1;
    }
    let mut from: Vec<SqlSource> = Vec::new();
    let mut f: usize = 0;
    while f < shape.from.len()
        invariant
            0 <= f <= shape.from@.len(),
            from@.len() == f,
            forall|k: int| 0 <= k < f ==> source_read_as(shape.from@[k], #[trigger] from@[k]),
        decreases shape.from@.len() - f,
    {
        from.push(source_of(&shape.from[f]));
        f += 1;
    }
    assert(projection@ =~= Seq::new(
        shape.projection@.len(),
        |i: int| read_item(shape.projection@[i]),
    ));
    SqlSelect { projection, from, selection: optional_expr_of(&shape.selection) }
}

fn query_of(q: &sqlparser::ast::Query) -> (r: SqlQuery)
    ensures
        query_read_as(*q, r),
{
    let shape = query_shape(q);
    let body = match &shape.body {
        BodyShape::Select(select) => SqlBody::Select(select_of(select)),
        BodyShape::Values(rows) => {
            let mut out: Vec<Vec<SqlExpr>> = Vec::new();
            let mut i: usize = 0;
            while i < rows.len()
                invariant
                    0 <= i <= rows@.len(),
                    out@.len() == i,
                    forall|k: int| 0 <= k < i ==> (#[trigger] out@[k])@ == read_row(rows@[k]@),
                decreases rows@.len() - i,
            {
                out.push(row_of(&rows[i]));
                i += 1;
            }
            SqlBody::Values(out)
        },
        BodyShape::Other => SqlBody::Other,
    };
    SqlQuery {
        body,
        limit: optional_expr_of(&shape.limit),
        offset: optional_expr_of(&shape.offset),
    }
}

/// The declared columns that the engine reads from parsed ones, in order,
/// if the name of every one can be written.
#[verifier::loop_isolation(false)]
fn columns_of(columns: &Vec<sqlparser::ast::ColumnDef>) -> (r: Option<Vec<SqlColumn>>)
    ensures
        match r {
            Some(defs) => all_writable(names_read(columns@)) && defs@ == Seq::new(
                columns@.len(),
                |i: int| read_column(columns@[i]),
            ),
            None => !all_writable(names_read(columns@)),
        },
{
    let mut defs: Vec<SqlColumn> = Vec::new();
    let mut i: usize = 0;
    while i < columns.len()
        invariant
            0 <= i <= columns@.len(),
            defs@.len() == i,
            forall|k: int| 0 <= k < i ==> writable(quote_read(#[trigger] names_read(columns@)[k])),
            forall|k: int| 0 <= k < i ==> #[trigger] defs@[k] == read_column(columns@[k]),
        decreases columns@.len() - i,
    {
        assert(names_read(columns@)[i as int] == name_read(columns@[i as int]));
        match text_of_ident(&column_name(&columns[i])) {
            Some(name) => {
                defs.push(
                    SqlColumn {
                        name,
                        data_type: column_type(&columns[i]),
                        options: column_options(&columns[i]),
                    },
                );
            },
            None => {
                return None;
            },
        }
        i += 1;
    }
    assert(defs@ =~= Seq::new(columns@.len(), |i: int| read_column(columns@[i])));
    Some(defs)
}

/// The statement that the engine reads from a parsed one.
fn statement_of(s: &sqlparser::ast::Statement) -> (r: SqlStatement)
    ensures
        statement_read_as(*s, r),
{
    match statement_shape(s) {
        StatementShape::CreateTable { name, columns } => match text_of_name(&name) {
            Some(name) => match columns_of(&columns) {
                Some(defs) => SqlStatement::CreateTable { name, columns: defs },
                None => SqlStatement::Other,
            },
            None => SqlStatement::Other,
        },
        StatementShape::Insert { table_name, names, source } => match text_of_name(&table_name) {
            Some(table_name) => match texts_of_idents(&names) {
                Some(names) => SqlStatement::Insert {
                    table_name,
                    names,
                    source: query_of(&source),
                },
                None => SqlStatement::Other,
            },
            None => SqlStatement::Other,
        },
        StatementShape::Query(q) => SqlStatement::Query(query_of(&q)),
        StatementShape::Other => SqlStatement::Other,
    }
}

/// Why `sql` is not handed to the parser, if it is not.
pub fn refusal_of(sql: &str) -> (r: Option<String>)
    ensures
        match r {
            Some(said) => refusal(sql@) == Some(said@),
            None => refusal(sql@) is None,
        },
{
    match tokens_of(sql) {
        None => None,
        Some(tokens) => {
            let mut kinds: Vec<TokenKind> = Vec::new();
            let mut nests: Vec<NestKind> = Vec::new();
            let mut i: usize = 0;
            while i < tokens.len()
                invariant
                    0 <= i <= tokens@.len(),
                    kinds@.len() == i,
                    nests@.len() == i,
                    forall|k: int| 0 <= k < i ==> #[trigger] kinds@[k] == kind_read(tokens@[k]),
                    forall|k: int| 0 <= k < i ==> #[trigger] nests@[k] == nest_read(tokens@[k]),
                decreases tokens@.len() - i,
            {
                kinds.push(token_kind(&tokens[i]));
                nests.push(nest_kind(&tokens[i]));
                i += 1;
            }
            assert(kinds@ =~= kinds_read(tokens@));
            assert(nests@ =~= nests_read(tokens@));
            let said = without_spaces(kinds.as_slice());
            if names_no_grantor(said.as_slice()) {
                Some(String::from_str("sql parser error: GRANTED BY without an identifier"))
            } else if nests_too_deep(nests.as_slice()) {
                Some(String::from_str("sql parser error: statement nested too deeply"))
            } else {
                None
            }
        },
    }
}

/// Whether `sql` is a text that is not handed to the parser.
pub fn is_screened(sql: &str) -> (r: bool)
    ensures
        r == screened(sql@),
{
    refusal_of(sql).is_some()
}

/// Parses SQL text in the MySQL dialect and gives its statements in order,
/// one for each statement that the parser finds, each as it is read from
/// that one. A text that is screened is not parsed, and refused in words
/// of this library; any other text fails exactly where the parser does,
/// with what the parser says.
pub fn parse_sql(sql: &str) -> (r: Result<Vec<SqlStatement>, String>)
    ensures
        match refusal(sql@) {
            Some(text) => r matches Err(said) && said@ == text,
            None => match parsed(sql@) {
                Ok(found) => r matches Ok(statements) && all_read_as(found, statements@),
                Err(e) => r matches Err(said) && said@ == e,
            },
        },
{
    match refusal_of(sql) {
        Some(said) => {
            return Err(said);
        },
        None => {},
    }
    match parse(sql) {
        Ok(parsed) => {
            let mut statements: Vec<SqlStatement> = Vec::new();
            let mut i: usize = 0;
            while i < parsed.len()
                invariant
                    0 <= i <= parsed@.len(),
                    statements@.len() == i,
                    forall|k: int|
                        0 <= k < i ==> statement_read_as(parsed@[k], #[trigger] statements@[k]),
                decreases parsed@.len() - i,
            {
                statements.push(statement_of(&parsed[i]));
                i += 1;
            }
            Ok(statements)
        },
        Err(said) => Err(said),
    }
}

} // verus!
