//! Snapshots: the whole database as one blob of bytes. The image of the
//! database is encoded by the `bincode` crate; a blob is decoded to an
//! image, and the image is taken for a database if it depicts one.

use crate::cell::FloatReadings;
use crate::database::Database;
use crate::image::{
    deep_database, depicts_a_database, lemma_same_depiction_answers, DatabaseDeep, DatabaseImage,
};
use crate::parser::select::SelectQuery;
use vstd::prelude::*;

verus! {

/// The bytes that `bincode::serialize` gives for the image of a database;
/// none where it gives none.
pub uninterp spec fn encoded(image: DatabaseDeep) -> Option<Seq<u8>>;

/// The image of a database that `bincode::deserialize` reads from bytes;
/// none where it reads none.
pub uninterp spec fn decoded(bytes: Seq<u8>) -> Option<DatabaseDeep>;

/// Calls `bincode::serialize` on the image of a database. Whether there
/// are bytes, and which, depends on the image alone, and what was
/// serialized is what is deserialized from the bytes. A failure to
/// serialize is handed on as no bytes.
#[verifier::external_body]
fn encode(image: &DatabaseImage) -> (r: Option<Vec<u8>>)
    ensures
        match r {
            Some(bytes) => encoded(deep_database(image@)) == Some(bytes@) && decoded(bytes@)
                == Some(deep_database(image@)),
            None => encoded(deep_database(image@)) is None,
        },
{
    bincode::serialize(image).ok()
}

/// Calls `bincode::deserialize` for the image of a database. What is read
/// depends on the bytes alone. A failure to deserialize is handed on as no
/// image.
#[verifier::external_body]
fn decode(bytes: &[u8]) -> (r: Option<DatabaseImage>)
    ensures
        match r {
            Some(image) => decoded(bytes@) == Some(deep_database(image@)),
            None => decoded(bytes@) is None,
        },
{
    bincode::deserialize(bytes).ok()
}

impl Database {
    /// The database as one blob of bytes: the encoding of its depiction,
    /// from which the depiction is decoded again. There is none exactly
    /// where the encoder gives none for the depiction.
    pub fn persist(&self) -> (r: Option<Vec<u8>>)
        ensures
            match r {
                Some(bytes) => persisted(*self, bytes@),
                None => encoded(self.depiction()) is None,
            },
    {
        encode(&self.to_image())
    }

    /// The database that a blob of bytes holds: the well-formed database
    /// whose depiction the bytes decode to, and none where they decode to
    /// none.
    pub fn restore(bytes: &[u8]) -> (r: Option<Database>)
        ensures
            restored(bytes@, r),
    {
        match decode(bytes) {
            Some(image) => Database::from_image(&image),
            None => None,
        }
    }
}

/// Whether `bytes` are a snapshot of `db`: the encoding of its depiction,
/// which decodes to its depiction.
pub open spec fn persisted(db: Database, bytes: Seq<u8>) -> bool {
    encoded(db.depiction()) == Some(bytes) && decoded(bytes) == Some(db.depiction())
}

/// Whether `r` is what is restored from `bytes`: a well-formed database
/// whose depiction `bytes` decode to, or nothing where `bytes` decode to
/// nothing or to what depicts no well-formed database.
pub open spec fn restored(bytes: Seq<u8>, r: Option<Database>) -> bool {
    match r {
        Some(db) => db.wf() && decoded(bytes) == Some(db.depiction()),
        None => decoded(bytes) matches Some(image) ==> !depicts_a_database(image),
    }
}

/// What was persisted is restored: a snapshot of a well-formed database
/// restores to a database that holds the same.
pub proof fn lemma_snapshot_restores(db: Database, bytes: Seq<u8>, r: Option<Database>)
    requires
        db.wf(),
        persisted(db, bytes),
        restored(bytes, r),
    ensures
        r matches Some(back) && back.depiction() == db.depiction(),
{
    if r is None {
        assert(db.depiction() == db.depiction() && db.wf());
    }
}

/// A snapshot of what was restored from a snapshot is that snapshot, byte
/// for byte.
pub proof fn lemma_snapshot_repeats(
    db: Database,
    first: Seq<u8>,
    back: Database,
    second: Seq<u8>,
)
    requires
        persisted(db, first),
        restored(first, Some(back)),
        persisted(back, second),
    ensures
        second == first,
{
}

/// What was restored answers as what was persisted: every selection has
/// the same outcome on a well-formed database and on what is restored from
/// a snapshot of it.
pub proof fn lemma_restored_answers(
    db: Database,
    bytes: Seq<u8>,
    r: Option<Database>,
    sq: SelectQuery,
    floats: &FloatReadings,
)
    requires
        db.wf(),
        persisted(db, bytes),
        restored(bytes, r),
    ensures
        r matches Some(back) && back.select_outcome(&sq, floats) == db.select_outcome(
            &sq,
            floats,
        ),
{
    lemma_snapshot_restores(db, bytes, r);
    lemma_same_depiction_answers(db, r->Some_0, sq, floats);
}

} // verus!
