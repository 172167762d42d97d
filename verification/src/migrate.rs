//! Carrying the state of the files backend over into `agent.db`.

use vstd::prelude::*;

use crate::backend::Area;
use crate::chats::{overwrite, EncodedChat};
use crate::docs::put;
use crate::model::{
    lemma_run_concat, lemma_run_push, run, with_document, with_flow_run, with_transcript,
    Database, Slot,
};
use crate::sql::{Key, Write};

verus! {

/// A document as it was read from its file.
pub struct LegacyDoc {
    pub name: String,
    pub body: String,
}

/// A chat as it was read from its file.
pub struct LegacyChat {
    pub id: String,
    pub chat: EncodedChat,
}

/// A flow run as it was read from its file.
pub struct LegacyRun {
    pub id: String,
    pub body: String,
}

/// The names of the documents that are carried over, where they are there: one for each
/// area that is kept as a document.
pub fn documents() -> (names: Vec<&'static str>)
    ensures
        names.len() == 4,
        Some(names[0]@) == Area::Keys.document_name(),
        Some(names[1]@) == Area::Scheduled.document_name(),
        Some(names[2]@) == Area::Gateway.document_name(),
        Some(names[3]@) == Area::Packs.document_name(),
{
    vec!["keys", "scheduled_tasks", "gateway_channels", "integration_packs"]
}

/// What was read from the files backend.
pub struct LegacyState {
    pub docs: Vec<LegacyDoc>,
    pub chats: Vec<LegacyChat>,
    pub flow_runs: Vec<LegacyRun>,
}

/// How much is carried over.
#[derive(Clone, Copy, Debug, PartialEq, Eq, Structural)]
pub struct MigrationStats {
    pub docs: usize,
    pub chats: usize,
    pub flow_runs: usize,
}

/// The statements that carry the state over. Each field is one transaction; they are to
/// be run in the order in which they stand.
pub struct Migration {
    pub docs: Vec<Write>,
    pub chats: Vec<Write>,
    pub flow_runs: Vec<Write>,
    /// Marks the database as one that files were carried over into.
    pub stamp: Vec<Write>,
    pub stats: MigrationStats,
}

impl Migration {
    /// All statements, in the order in which they are run.
    pub open spec fn writes(self) -> Seq<Write> {
        self.docs@ + self.chats@ + self.flow_runs@ + self.stamp@
    }
}

/// The database with each item stored, one after the other.
pub open spec fn with_each<A>(
    db: Database,
    items: Seq<A>,
    store: spec_fn(Database, A) -> Database,
) -> Database
    decreases items.len(),
{
    if items.len() == 0 {
        db
    } else {
        store(with_each(db, items.drop_last(), store), items.last())
    }
}

/// The database with each document stored, the later one where two share a name.
pub open spec fn with_docs(db: Database, docs: Seq<LegacyDoc>) -> Database {
    with_each(db, docs, |db: Database, doc: LegacyDoc| with_document(db, doc.name@, doc.body@))
}

/// The database with each chat stored, the later one where two share an id.
pub open spec fn with_chats(db: Database, chats: Seq<LegacyChat>) -> Database {
    with_each(db, chats, |db: Database, chat: LegacyChat| with_transcript(db, chat.id@, chat.chat@))
}

/// The database with each flow run stored, the later one where two share an id.
pub open spec fn with_flow_runs(db: Database, runs: Seq<LegacyRun>) -> Database {
    with_each(db, runs, |db: Database, run: LegacyRun| with_flow_run(db, run.id@, run.body@))
}

/// The database that bears the marks of a migration.
pub open spec fn stamped(db: Database) -> Database {
    db.insert(Slot::Meta { key: "schema_version"@ }, "1"@).insert(
        Slot::Meta { key: "migrated_from_files"@ },
        "1"@,
    )
}

/// The database after a whole migration.
pub open spec fn migrated(db: Database, legacy: LegacyState) -> Database {
    stamped(
        with_flow_runs(
            with_chats(with_docs(db, legacy.docs@), legacy.chats@),
            legacy.flow_runs@,
        ),
    )
}

fn store_docs(docs: &Vec<LegacyDoc>) -> (writes: Vec<Write>)
    ensures
        forall|db: Database| #[trigger] run(db, writes@) == with_docs(db, docs@),
{
    let mut writes: Vec<Write> = Vec::new();
    let mut i: usize = 0;
    while i < docs.len()
        invariant
            i <= docs.len(),
            forall|db: Database| #[trigger]
                run(db, writes@) == with_docs(db, docs@.take(i as int)),
        decreases docs.len() - i,
    {
        let ghost before = writes@;
        let mut more = put(docs[i].name.as_str(), docs[i].body.as_str());
        let ghost added = more@;
        writes.append(&mut more);
        i += 1;
        assert forall|db: Database| #[trigger] run(db, writes@) == with_docs(
            db,
            docs@.take(i as int),
        ) by {
            lemma_run_concat(db, before, added);
            assert(docs@.take(i as int).drop_last() =~= docs@.take(i - 1));
            assert(run(db, before) == with_docs(db, docs@.take(i - 1)));
            assert(run(run(db, before), added) == with_document(
                run(db, before),
                docs[i - 1].name@,
                docs[i - 1].body@,
            ));
        }
    }
    assert(docs@.take(docs.len() as int) =~= docs@);
    writes
}

fn store_chats(chats: &Vec<LegacyChat>) -> (writes: Vec<Write>)
    ensures
        forall|db: Database| #[trigger] run(db, writes@) == with_chats(db, chats@),
{
    let mut writes: Vec<Write> = Vec::new();
    let mut i: usize = 0;
    while i < chats.len()
        invariant
            i <= chats.len(),
            forall|db: Database| #[trigger]
                run(db, writes@) == with_chats(db, chats@.take(i as int)),
        decreases chats.len() - i,
    {
        let ghost before = writes@;
        let mut more = overwrite(chats[i].id.as_str(), &chats[i].chat);
        let ghost added = more@;
        writes.append(&mut more);
        i += 1;
        assert forall|db: Database| #[trigger] run(db, writes@) == with_chats(
            db,
            chats@.take(i as int),
        ) by {
            lemma_run_concat(db, before, added);
            assert(chats@.take(i as int).drop_last() =~= chats@.take(i - 1));
            assert(run(db, before) == with_chats(db, chats@.take(i - 1)));
            assert(run(run(db, before), added) == with_transcript(
                run(db, before),
                chats[i - 1].id@,
                chats[i - 1].chat@,
            ));
        }
    }
    assert(chats@.take(chats.len() as int) =~= chats@);
    writes
}

fn store_flow_runs(runs: &Vec<LegacyRun>) -> (writes: Vec<Write>)
    ensures
        forall|db: Database| #[trigger] run(db, writes@) == with_flow_runs(db, runs@),
{
    let mut writes: Vec<Write> = Vec::new();
    let mut i: usize = 0;
    while i < runs.len()
        invariant
            i <= runs.len(),
            forall|db: Database| #[trigger]
                run(db, writes@) == with_flow_runs(db, runs@.take(i as int)),
        decreases runs.len() - i,
    {
        let ghost before = writes@;
        let write = Write::Put {
            key: Key::Run { id: runs[i].id.clone() },
            body: runs[i].body.clone(),
        };
        writes.push(write);
        i += 1;
        assert forall|db: Database| #[trigger] run(db, writes@) == with_flow_runs(
            db,
            runs@.take(i as int),
        ) by {
            lemma_run_push(db, before, write);
            assert(runs@.take(i as int).drop_last() =~= runs@.take(i - 1));
            assert(run(db, before) == with_flow_runs(db, runs@.take(i - 1)));
        }
    }
    assert(runs@.take(runs.len() as int) =~= runs@);
    writes
}

fn stamp() -> (writes: Vec<Write>)
    ensures
        forall|db: Database| #[trigger] run(db, writes@) == stamped(db),
{
    let version = Write::Put {
        key: Key::Meta { key: "schema_version".to_owned() },
        body: "1".to_owned(),
    };
    let origin = Write::Put {
        key: Key::Meta { key: "migrated_from_files".to_owned() },
        body: "1".to_owned(),
    };
    let writes = vec![version, origin];
    assert forall|db: Database| #[trigger] run(db, writes@) == stamped(db) by {
        lemma_run_push(db, Seq::empty(), version);
        lemma_run_push(db, Seq::empty().push(version), origin);
        assert(writes@ =~= Seq::<Write>::empty().push(version).push(origin));
        assert(run(db, Seq::<Write>::empty()) == db);
    }
    writes
}

/// The statements that carry the state of the files backend over. What the database
/// holds under the same names is replaced, and nothing else changes but the marks of
/// the migration.
pub fn migrate_files_to_sqlite(legacy: &LegacyState) -> (migration: Migration)
    ensures
        migration.stats == (MigrationStats {
            docs: legacy.docs.len(),
            chats: legacy.chats.len(),
            flow_runs: legacy.flow_runs.len(),
        }),
        forall|db: Database| #[trigger]
            run(db, migration.docs@) == with_docs(db, legacy.docs@),
        forall|db: Database| #[trigger]
            run(db, migration.chats@) == with_chats(db, legacy.chats@),
        forall|db: Database| #[trigger]
            run(db, migration.flow_runs@) == with_flow_runs(db, legacy.flow_runs@),
        forall|db: Database| #[trigger] run(db, migration.stamp@) == stamped(db),
        forall|db: Database| #[trigger]
            run(db, migration.writes()) == migrated(db, *legacy),
{
    let migration = Migration {
        docs: store_docs(&legacy.docs),
        chats: store_chats(&legacy.chats),
        flow_runs: store_flow_runs(&legacy.flow_runs),
        stamp: stamp(),
        stats: MigrationStats {
            docs: legacy.docs.len(),
            chats: legacy.chats.len(),
            flow_runs: legacy.flow_runs.len(),
        },
    };
    assert forall|db: Database| #[trigger] run(db, migration.writes()) == migrated(
        db,
        *legacy,
    ) by {
        let first = migration.docs@;
        let second = first + migration.chats@;
        let third = second + migration.flow_runs@;
        lemma_run_concat(db, first, migration.chats@);
        lemma_run_concat(db, second, migration.flow_runs@);
        lemma_run_concat(db, third, migration.stamp@);
    }
    migration
}

} // verus!
