//! Statements run against a database: a creation, an insertion or a
//! selection, one at a time or a whole text of them.

use crate::cell::FloatReadings;
use crate::database::Database;
use crate::engine::expanded;
use crate::error::{EngineError, Failure};
use crate::parser::create::{creation_of, CreateQuery};
use crate::parser::insert::{insertion_of, source_texts, InsertQuery};
use crate::parser::select::{
    predicate_of, select_failure_of, select_failure_text, selection_read, SelectQuery,
};
use crate::parser::statement::{SqlBody, SqlStatement};
use crate::selection::grid_of;
use crate::sql::{all_read_as, parse_sql, parsed, refusal};
use crate::table::Table;
use crate::text::texts_of;
use vstd::prelude::*;

verus! {

/// The mathematical content of what a selection returns.
pub open spec fn rows_or_failure(r: Result<Vec<Vec<String>>, EngineError>) -> Result<
    Seq<Seq<Seq<char>>>,
    Failure,
> {
    match r {
        Ok(rows) => Ok(grid_of(rows@)),
        Err(e) => Err(e@),
    }
}

/// What a statement gives where it names a table that is not there.
pub open spec fn no_table(name: Seq<char>) -> Failure {
    Failure::UnknownTable(name)
}

impl Database {
    /// Whether `after` is this database with the table that `cq` describes
    /// added after its tables.
    pub open spec fn created(&self, after: &Database, cq: CreateQuery) -> bool {
        &&& after.tables@.len() == self.tables@.len() + 1
        &&& forall|i: int| 0 <= i < self.tables@.len() ==> after.tables@[i] == self.tables@[i]
        &&& after.tables@.last().made_from(cq)
    }

    /// Creates the table that `cq` describes and adds it after the tables
    /// that are there.
    pub fn create(&mut self, cq: CreateQuery)
        requires
            old(self).wf(),
        ensures
            final(self).wf(),
            old(self).indexed() ==> final(self).indexed(),
            old(self).created(final(self), cq),
    {
        let table = Table::new(cq);
        self.tables.push(table);
    }

    /// Whether `after` and `r` are what the insertion `iq` makes of this
    /// database. Where no table has the name, that is the failure and
    /// nothing changes. Otherwise the first table of the name is inserted
    /// into, as [`Table::inserted`] says, or the insertion fails, as
    /// [`Table::insert_failure`] says, and nothing changes. No other table
    /// changes.
    pub open spec fn inserted(
        &self,
        after: &Database,
        iq: InsertQuery,
        floats: &FloatReadings,
        r: Result<(), EngineError>,
    ) -> bool {
        &&& after.tables@.len() == self.tables@.len()
        &&& match self.table_at(iq.table_name@) {
            None => r matches Err(e) && e@ == no_table(iq.table_name@) && after.tables@
                == self.tables@,
            Some(t) => {
                let table = self.tables@[t];
                &&& forall|i: int|
                    0 <= i < self.tables@.len() && i != t ==> after.tables@[i] == self.tables@[i]
                &&& match r {
                    Ok(_) => table.insert_failure(iq.columns@, iq.values@, floats) is None
                        && table.inserted(
                        &after.tables@[t],
                        iq.columns@,
                        iq.values@,
                        iq.columns@.len() as int,
                        floats,
                    ) && forall|n: int|
                        #[trigger] table.aligned(n) && table.names_each_once(iq.columns@)
                            ==> after.tables@[t].aligned(n + iq.values@.len()),
                    Err(e) => table.insert_failure(iq.columns@, iq.values@, floats) == Some(e@)
                        && after.tables@[t] == table,
                }
            },
        }
    }

    /// Runs an insertion against the first table of its name. No table is
    /// changed unless the insertion goes through, and then only that one.
    pub fn insert(&mut self, iq: &InsertQuery, floats: &FloatReadings) -> (r: Result<
        (),
        EngineError,
    >)
        requires
            old(self).wf(),
        ensures
            final(self).wf(),
            old(self).indexed() ==> final(self).indexed(),
            old(self).inserted(final(self), *iq, floats, r),
    {
        match self.find_table(iq.table_name.as_str()) {
            None => Err(EngineError::UnknownTable(iq.table_name.clone())),
            Some(t) => {
                let outcome = self.tables[t].try_insert(
                    iq.columns.as_slice(),
                    iq.values.as_slice(),
                    floats,
                );
                outcome
            },
        }
    }

    /// What a selection gives: the rows of the first table of its name, as
    /// [`Table::answer`] says, for the projection with each `*` replaced by
    /// all columns; or the first thing that stands against it, as
    /// [`Table::select_failure`] says.
    pub open spec fn select_outcome(&self, sq: &SelectQuery, floats: &FloatReadings) -> Result<
        Seq<Seq<Seq<char>>>,
        Failure,
    > {
        match self.table_at(sq.from@) {
            None => Err(no_table(sq.from@)),
            Some(t) => {
                let table = self.tables@[t];
                let names = expanded(texts_of(sq.projection@), table.header_names());
                match table.select_failure(names, sq.where_expressions@, floats) {
                    Some(failure) => Err(failure),
                    None => match table.answer(names, sq.where_expressions@, floats) {
                        Ok(rows) => Ok(rows),
                        Err(said) => Err(Failure::ParseError(said)),
                    },
                }
            },
        }
    }

    /// Runs a selection against the first table of its name.
    pub fn select(&self, sq: &SelectQuery, floats: &FloatReadings) -> (r: Result<
        Vec<Vec<String>>,
        EngineError,
    >)
        requires
            self.wf(),
        ensures
            rows_or_failure(r) == self.select_outcome(sq, floats),
    {
        match self.find_table(sq.from.as_str()) {
            None => Err(EngineError::UnknownTable(sq.from.clone())),
            Some(t) => self.tables[t].try_select(sq, floats),
        }
    }
}

/// What a statement gave.
#[derive(Debug, PartialEq)]
pub enum Reply {
    /// A table was created.
    Created,
    /// Rows were inserted.
    Inserted,
    /// The rows of a selection, under the names projected.
    Rows { header: Vec<String>, rows: Vec<Vec<String>> },
}

/// The mathematical content of a [`Reply`].
pub enum ReplyView {
    Created,
    Inserted,
    Rows { header: Seq<Seq<char>>, rows: Seq<Seq<Seq<char>>> },
}

impl View for Reply {
    type V = ReplyView;

    open spec fn view(&self) -> ReplyView {
        match self {
            Reply::Created => ReplyView::Created,
            Reply::Inserted => ReplyView::Inserted,
            Reply::Rows { header, rows } => ReplyView::Rows {
                header: texts_of(header@),
                rows: grid_of(rows@),
            },
        }
    }
}

/// What is said of a statement that is none of the three that the engine
/// runs.
pub open spec fn unsupported_text() -> Seq<char> {
    "Not a insert, create table or select query"@
}

/// The outcome of a statement without what it gave.
pub open spec fn done_or_failure(r: Result<Reply, EngineError>) -> Result<(), EngineError> {
    match r {
        Ok(_) => Ok(()),
        Err(e) => Err(e),
    }
}

impl Database {
    /// Whether `after` and `r` are what `statement` makes of this database
    /// and gives.
    ///
    /// A creation adds its table. An insertion changes the table it names,
    /// or fails and changes nothing. A selection changes nothing and gives
    /// its rows under the names that its projection expands to, or fails.
    /// Any other statement is not supported.
    pub open spec fn processed(
        &self,
        after: &Database,
        statement: SqlStatement,
        floats: &FloatReadings,
        r: Result<Reply, EngineError>,
    ) -> bool {
        match statement {
            SqlStatement::CreateTable { .. } => {
                &&& r matches Ok(reply)
                &&& reply@ == ReplyView::Created
                &&& exists|cq: CreateQuery| #[trigger]
                    creation_of(cq, statement) && self.created(after, cq)
            },
            SqlStatement::Insert { .. } => {
                &&& r matches Ok(reply) ==> reply@ == ReplyView::Inserted
                &&& exists|iq: InsertQuery| #[trigger]
                    insertion_of(iq, statement) && self.inserted(
                        after,
                        iq,
                        floats,
                        done_or_failure(r),
                    )
            },
            SqlStatement::Query(_) => {
                &&& after.tables@ == self.tables@
                &&& match select_failure_of(statement) {
                    Some(failure) => r matches Err(e) && e@ == Failure::Unsupported(
                        select_failure_text(failure),
                    ),
                    None => exists|sq: SelectQuery| #[trigger]
                        selection_read(sq, statement) && match r {
                            Ok(reply) => self.select_outcome(&sq, floats) matches Ok(rows)
                                && reply@ == (ReplyView::Rows {
                                header: expanded(
                                    texts_of(sq.projection@),
                                    self.table(sq.from@).header_names(),
                                ),
                                rows,
                            }),
                            Err(e) => self.select_outcome(&sq, floats) == Err::<
                                Seq<Seq<Seq<char>>>,
                                Failure,
                            >(e@),
                        },
                }
            },
            SqlStatement::Other => {
                &&& after.tables@ == self.tables@
                &&& r matches Err(e)
                &&& e@ == Failure::Unsupported(unsupported_text())
            },
        }
    }

    /// Runs one statement against the database.
    pub fn process(&mut self, statement: &SqlStatement, floats: &FloatReadings) -> (r: Result<
        Reply,
        EngineError,
    >)
        requires
            old(self).wf(),
        ensures
            final(self).wf(),
            old(self).indexed() ==> final(self).indexed(),
            old(self).processed(final(self), *statement, floats, r),
    {
        match statement {
            SqlStatement::CreateTable { .. } => match CreateQuery::new(statement) {
                Ok(cq) => {
                    let ghost described = cq;
                    self.create(cq);
                    assert(creation_of(described, *statement) && old(self).created(
                        self,
                        described,
                    ));
                    Ok(Reply::Created)
                },
                Err(said) => Err(EngineError::Unsupported(said)),
            },
            SqlStatement::Insert { .. } => match InsertQuery::new(statement) {
                Ok(iq) => {
                    let outcome = self.insert(&iq, floats);
                    match outcome {
                        Ok(_) => {
                            assert(insertion_of(iq, *statement) && old(self).inserted(
                                self,
                                iq,
                                floats,
                                Ok(()),
                            ));
                            Ok(Reply::Inserted)
                        },
                        Err(e) => {
                            assert(insertion_of(iq, *statement) && old(self).inserted(
                                self,
                                iq,
                                floats,
                                Err(e),
                            ));
                            Err(e)
                        },
                    }
                },
                Err(said) => Err(EngineError::Unsupported(said)),
            },
            SqlStatement::Query(_) => match SelectQuery::new(statement) {
                Ok(sq) => match self.select(&sq, floats) {
                    Ok(rows) => {
                        let t = self.find_table(sq.from.as_str()).unwrap();
                        let header = self.tables[t].expand_projection(sq.projection.as_slice());
                        let r = Ok(Reply::Rows { header, rows });
                        assert(selection_read(sq, *statement) && (match r {
                            Ok(reply) => self.select_outcome(&sq, floats) matches Ok(rows)
                                && reply@ == (ReplyView::Rows {
                                header: expanded(
                                    texts_of(sq.projection@),
                                    self.table(sq.from@).header_names(),
                                ),
                                rows,
                            }),
                            Err(e) => false,
                        }));
                        r
                    },
                    Err(e) => {
                        assert(selection_read(sq, *statement) && self.select_outcome(&sq, floats)
                            == Err::<Seq<Seq<Seq<char>>>, Failure>(e@));
                        Err(e)
                    },
                },
                Err(said) => Err(EngineError::Unsupported(said)),
            },
            SqlStatement::Other => Err(
                EngineError::Unsupported(
                    String::from_str("Not a insert, create table or select query"),
                ),
            ),
        }
    }
}

/// The texts of `rows`, row after row.
pub open spec fn joined(rows: Seq<Seq<Seq<char>>>) -> Seq<Seq<char>>
    decreases rows.len(),
{
    if rows.len() == 0 {
        Seq::empty()
    } else {
        joined(rows.drop_last()) + rows.last()
    }
}

/// The literals of a statement that a column of floats may have to read:
/// those of the rows of an insertion, row after row, and that of the
/// predicate of a selection. Any other statement has none, and so has a
/// selection that cannot be read.
pub open spec fn literals_of(statement: SqlStatement) -> Seq<Seq<char>> {
    match statement {
        SqlStatement::Insert { source, .. } => joined(source_texts(source.body)),
        SqlStatement::Query(q) => match q.body {
            SqlBody::Select(select) => if select_failure_of(statement) is None && predicate_of(
                select.selection,
            ) is Some {
                seq![predicate_of(select.selection).unwrap().1]
            } else {
                Seq::empty()
            },
            _ => Seq::empty(),
        },
        _ => Seq::empty(),
    }
}

/// The literals of a statement that a column of floats may have to read.
/// Whoever runs the statement reads these ahead, and hands the readings to
/// [`Database::process`].
pub fn literals(statement: &SqlStatement) -> (r: Vec<String>)
    ensures
        texts_of(r@) == literals_of(*statement),
{
    let mut out: Vec<String> = Vec::new();
    assert(texts_of(out@) =~= Seq::<Seq<char>>::empty());
    match statement {
        SqlStatement::Insert { .. } => match InsertQuery::new(statement) {
            Ok(iq) => {
                let mut r: usize = 0;
                assert(grid_of(iq.values@).take(0) =~= Seq::<Seq<Seq<char>>>::empty());
                while r < iq.values.len()
                    invariant
                        0 <= r <= iq.values@.len(),
                        texts_of(out@) == joined(grid_of(iq.values@).take(r as int)),
                    decreases iq.values@.len() - r,
                {
                    let ghost grid = grid_of(iq.values@);
                    let ghost base = texts_of(out@);
                    proof {
                        assert(grid.take(r + 1).drop_last() =~= grid.take(r as int));
                        assert(grid.take(r + 1).last() == texts_of(iq.values@[r as int]@));
                        assert(base + texts_of(iq.values@[r as int]@).take(0) =~= base);
                    }
                    let mut i: usize = 0;
                    while i < iq.values[r].len()
                        invariant
                            0 <= i <= iq.values@[r as int]@.len(),
                            r < iq.values@.len(),
                            texts_of(out@) == base + texts_of(iq.values@[r as int]@).take(i as int),
                        decreases iq.values@[r as int]@.len() - i,
                    {
                        let ghost so_far = texts_of(out@);
                        let ghost row = texts_of(iq.values@[r as int]@);
                        out.push(iq.values[r][i].clone());
                        proof {
                            assert(row.take(i + 1) =~= row.take(i as int).push(row[i as int]));
                            assert(texts_of(out@) =~= so_far.push(row[i as int]));
                            assert(so_far.push(row[i as int]) =~= base + row.take(i + 1));
                        }
                        i += 1;
                    }
                    proof {
                        let row = texts_of(iq.values@[r as int]@);
                        assert(row.take(row.len() as int) =~= row);
                    }
                    r += 1;
                }
                assert(grid_of(iq.values@).take(iq.values@.len() as int) =~= grid_of(iq.values@));
            },
            Err(_) => {},
        },
        SqlStatement::Query(_) => match SelectQuery::new(statement) {
            Ok(sq) => {
                if sq.where_expressions.len() > 0 {
                    out.push(sq.where_expressions[0].right.clone());
                    assert(texts_of(out@) =~= seq![sq.where_expressions@[0].right@]);
                }
            },
            Err(_) => {},
        },
        _ => {},
    }
    out
}

/// Whether `after` and `replies` are what the statements make of the
/// database `before` and give, run one after the other, each on what the
/// one before it left, whatever became of that one.
pub open spec fn ran(
    before: Database,
    after: Database,
    statements: Seq<SqlStatement>,
    floats: &FloatReadings,
    replies: Seq<Result<Reply, EngineError>>,
) -> bool
    decreases statements.len(),
{
    if statements.len() == 0 {
        after == before && replies.len() == 0
    } else {
        &&& replies.len() == statements.len()
        &&& exists|between: Database|
            ran(before, between, statements.drop_last(), floats, replies.drop_last())
                && #[trigger] between.processed(
                &after,
                statements.last(),
                floats,
                replies.last(),
            )
    }
}

/// Runs the statements against the database, one after the other, whatever
/// becomes of each, and gives what each gave.
pub fn process_all(statements: &[SqlStatement], db: &mut Database, floats: &FloatReadings) -> (r:
    Vec<Result<Reply, EngineError>>)
    requires
        old(db).wf(),
    ensures
        final(db).wf(),
        old(db).indexed() ==> final(db).indexed(),
        ran(*old(db), *final(db), statements@, floats, r@),
{
    let ghost before = *db;
    let mut replies: Vec<Result<Reply, EngineError>> = Vec::new();
    let mut i: usize = 0;
    assert(statements@.take(0) =~= Seq::<SqlStatement>::empty());
    while i < statements.len()
        invariant
            0 <= i <= statements@.len(),
            db.wf(),
            before.indexed() ==> db.indexed(),
            replies@.len() == i,
            ran(before, *db, statements@.take(i as int), floats, replies@),
        decreases statements@.len() - i,
    {
        let ghost between = *db;
        let ghost so_far = replies@;
        let reply = db.process(&statements[i], floats);
        replies.push(reply);
        proof {
            let after = *db;
            let run = statements@.take(i + 1);
            assert(run.drop_last() =~= statements@.take(i as int));
            assert(run.last() == statements@[i as int]);
            assert(replies@.drop_last() =~= so_far);
            assert(replies@.last() == reply);
            assert(between.processed(&after, run.last(), floats, replies@.last()));
            assert(ran(before, between, run.drop_last(), floats, replies@.drop_last()));
            assert(ran(before, after, run, floats, replies@));
        }
        i += 1;
    }
    assert(statements@.take(statements@.len() as int) =~= statements@);
    replies
}

/// Whether `after` and `replies` are what the statements read from the
/// parsed statements `found` make of the database `before` and give: see
/// [`ran`].
pub open spec fn ran_as_read(
    before: Database,
    after: Database,
    found: Seq<sqlparser::ast::Statement>,
    floats: &FloatReadings,
    replies: Seq<Result<Reply, EngineError>>,
) -> bool {
    exists|statements: Seq<SqlStatement>|
        all_read_as(found, statements) && #[trigger] ran(
            before,
            after,
            statements,
            floats,
            replies,
        )
}

/// Parses `query` and runs its statements against the database, one
/// after the other, whatever becomes of each, and gives what each gave: as
/// many replies as the parser finds statements, and what [`process_all`]
/// makes of the statements read from them. A text that is screened is
/// refused as [`parse_sql`] refuses it; any other text fails exactly where
/// the parser does, with what the parser says. Nothing is run where it
/// fails.
pub fn process_command(query: String, db: &mut Database, floats: &FloatReadings) -> (r: Result<
    Vec<Result<Reply, EngineError>>,
    String,
>)
    requires
        old(db).wf(),
    ensures
        final(db).wf(),
        old(db).indexed() ==> final(db).indexed(),
        match refusal(query@) {
            Some(text) => {
                &&& r matches Err(e)
                &&& e@ == text
                &&& *final(db) == *old(db)
            },
            None => match parsed(query@) {
                Ok(found) => {
                    &&& r matches Ok(replies)
                    &&& replies@.len() == found.len()
                    &&& ran_as_read(*old(db), *final(db), found, floats, replies@)
                },
                Err(said) => {
                    &&& r matches Err(e)
                    &&& e@ == said
                    &&& *final(db) == *old(db)
                },
            },
        },
{
    let ghost before = *db;
    match parse_sql(query.as_str()) {
        Ok(statements) => {
            let replies = process_all(statements.as_slice(), db, floats);
            proof {
                let after = *db;
                assert(ran(before, after, statements@, floats, replies@));
                lemma_ran_lengths(before, after, statements@, floats, replies@);
            }
            Ok(replies)
        },
        Err(said) => Err(said),
    }
}

/// A run of statements gives one reply for each statement.
pub proof fn lemma_ran_lengths(
    before: Database,
    after: Database,
    statements: Seq<SqlStatement>,
    floats: &FloatReadings,
    replies: Seq<Result<Reply, EngineError>>,
)
    requires
        ran(before, after, statements, floats, replies),
    ensures
        replies.len() == statements.len(),
{
}

} // verus!
