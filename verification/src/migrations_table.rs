//! The SQL text of the ledger table's own operations: creating the table if
//! absent, inserting one applied-migration record, and selecting records.
//! The statements are assembled and pinned down here; sending them to the
//! store is the transport's job, outside the library.

pub use crate::migrations::MigrationInstance;
use vstd::prelude::*;

verus! {

/// The ledger table by name, with the SQL text of its operations.
#[derive(Debug)]
pub struct MigrationsTable {
    table_name: String,
}

/// The statement that idempotently creates the ledger table `name`.
pub open spec fn spec_create_query(name: Seq<char>) -> Seq<char> {
    "CREATE TABLE IF NOT EXISTS "@ + name
        + " ( index  SERIAL PRIMARY KEY, name TEXT, tag TEXT NOT NULL, applied_date DATE NOT NULL DEFAULT CURRENT_DATE, hash TEXT );"@
}

/// The statement that inserts one (name, hash, tag) record into table `t`.
pub open spec fn spec_insert_query(
    t: Seq<char>,
    name: Seq<char>,
    hash: Seq<char>,
    tag: Seq<char>,
) -> Seq<char> {
    "INSERT INTO "@ + t + " (name, hash, tag) VALUES('"@ + name + "', '"@ + hash + "', '"@ + tag
        + "');"@
}

/// The query that selects the records of table `t` applied under `tag`.
pub open spec fn spec_select_by_tag_query(t: Seq<char>, tag: Seq<char>) -> Seq<char> {
    "SELECT index, name, tag, hash FROM "@ + t + " WHERE tag = '"@ + tag + "'"@
}

/// The query that selects all records of table `t`.
pub open spec fn spec_select_all_query(t: Seq<char>) -> Seq<char> {
    "SELECT index, name, tag, hash FROM "@ + t
}

impl MigrationsTable {
    pub closed spec fn name(&self) -> Seq<char> {
        self.table_name@
    }

    pub fn new(table_name: &str) -> (r: MigrationsTable)
        ensures
            r.name() == table_name@,
    {
        MigrationsTable { table_name: String::from_str(table_name) }
    }

    /// The create-if-absent statement for this table.
    pub fn create_query(&self) -> (r: String)
        ensures
            r@ == spec_create_query(self.name()),
    {
        let mut q = String::new();
        q.append("CREATE TABLE IF NOT EXISTS ");
        q.append(self.table_name.as_str());
        q.append(
            " ( index  SERIAL PRIMARY KEY, name TEXT, tag TEXT NOT NULL, applied_date DATE NOT NULL DEFAULT CURRENT_DATE, hash TEXT );",
        );
        proof {
            assert(q@ =~= spec_create_query(self.name()));
        }
        q
    }

    /// The insert statement recording one applied (name, hash, tag).
    pub fn add_migration_query(&self, hash: &str, name: &str, tag: &str) -> (r: String)
        ensures
            r@ == spec_insert_query(self.name(), name@, hash@, tag@),
    {
        let mut q = String::new();
        q.append("INSERT INTO ");
        q.append(self.table_name.as_str());
        q.append(" (name, hash, tag) VALUES('");
        q.append(name);
        q.append("', '");
        q.append(hash);
        q.append("', '");
        q.append(tag);
        q.append("');");
        proof {
            assert(q@ =~= spec_insert_query(self.name(), name@, hash@, tag@));
        }
        q
    }

    /// The select for the records applied under one tag.
    pub fn get_migrations_by_tag_query(&self, tag: &str) -> (r: String)
        ensures
            r@ == spec_select_by_tag_query(self.name(), tag@),
    {
        let mut q = String::new();
        q.append("SELECT index, name, tag, hash FROM ");
        q.append(self.table_name.as_str());
        q.append(" WHERE tag = '");
        q.append(tag);
        q.append("'");
        proof {
            assert(q@ =~= spec_select_by_tag_query(self.name(), tag@));
        }
        q
    }

    /// The select for all records of the table.
    pub fn get_migrations_query(&self) -> (r: String)
        ensures
            r@ == spec_select_all_query(self.name()),
    {
        let mut q = String::new();
        q.append("SELECT index, name, tag, hash FROM ");
        q.append(self.table_name.as_str());
        proof {
            assert(q@ =~= spec_select_all_query(self.name()));
        }
        q
    }
}

} // verus!
