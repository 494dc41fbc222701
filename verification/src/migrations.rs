//! The migration ledger: the capability contract any backing store
//! implements (create the ledger table if absent, append one applied-record,
//! list records), and an in-memory implementation of it, verified against the
//! same contract the production adapter is trusted to meet.

use crate::error::OspreyError;
use vstd::prelude::*;

verus! {

/// A migration record from the ledger: the storage-assigned sequence number,
/// the file name, the tag, and the content hash at the time of application.
#[derive(Debug)]
pub struct MigrationInstance {
    pub index: i32,
    pub name: String,
    pub tag: String,
    pub hash: String,
}

/// The mathematical shape of a ledger record.
pub ghost struct MigrationInstanceV {
    pub index: int,
    pub name: Seq<char>,
    pub tag: Seq<char>,
    pub hash: Seq<char>,
}

impl View for MigrationInstance {
    type V = MigrationInstanceV;

    open spec fn view(&self) -> MigrationInstanceV {
        MigrationInstanceV { index: self.index as int, name: self.name@, tag: self.tag@, hash: self.hash@ }
    }
}

impl MigrationInstance {
    pub fn new(index: i32, name: &str, tag: &str, hash: &str) -> (r: MigrationInstance)
        ensures
            r@ == (MigrationInstanceV { index: index as int, name: name@, tag: tag@, hash: hash@ }),
    {
        MigrationInstance {
            index,
            name: name.to_owned(),
            tag: tag.to_owned(),
            hash: hash.to_owned(),
        }
    }
}

/// The views of a sequence of ledger records.
pub open spec fn records_view(v: Seq<MigrationInstance>) -> Seq<MigrationInstanceV> {
    v.map_values(|m: MigrationInstance| m@)
}

/// The records of `recs` whose tag is `tag`, in order.
pub open spec fn spec_records_by_tag(recs: Seq<MigrationInstanceV>, tag: Seq<char>) -> Seq<
    MigrationInstanceV,
>
    decreases recs.len(),
{
    if recs.len() == 0 {
        Seq::<MigrationInstanceV>::empty()
    } else {
        let rest = spec_records_by_tag(recs.drop_last(), tag);
        if recs.last().tag == tag {
            rest.push(recs.last())
        } else {
            rest
        }
    }
}

/// The ledger capability: a storage-backed, append-only record of which
/// (file, tag) groups have been applied and with what content hash. The
/// ledger is modelled by `records()`, the sequence of records it holds;
/// every operation but a successful `add_record` leaves it unchanged.
pub trait MigrationRecordStorage: Sized {
    /// The records the ledger currently holds, in sequence order.
    spec fn records(&self) -> Seq<MigrationInstanceV>;

    /// Idempotently creates the ledger table if absent. No record changes.
    /// A storage failure is never reported as a sanity finding.
    fn create_table(&mut self) -> (r: Result<(), OspreyError>)
        ensures
            final (self).records() == old(self).records(),
            r matches Err(e) ==> !(e is Sanity),
    ;

    /// Executes a batch of statements against the backing database. The
    /// ledger records are unchanged.
    fn execute_queries(&mut self, queries: &[String]) -> (r: Result<(), OspreyError>)
        ensures
            final (self).records() == old(self).records(),
            r matches Err(e) ==> !(e is Sanity),
    ;

    /// Appends one applied-migration record, with a storage-assigned sequence
    /// number; on failure the ledger is unchanged.
    fn add_record(&mut self, name: &str, tag: &str, hash: &str) -> (r: Result<(), OspreyError>)
        ensures
            r is Ok ==> exists|ix: int|
                final (self).records() == old(self).records().push(
                    MigrationInstanceV { index: ix, name: name@, tag: tag@, hash: hash@ },
                ),
            r is Err ==> final (self).records() == old(self).records(),
            r matches Err(e) ==> !(e is Sanity),
    ;

    /// Lists the records applied under one tag, in sequence order.
    fn get_records_by_tag(&mut self, tag: &str) -> (r: Result<Vec<MigrationInstance>, OspreyError>)
        ensures
            final (self).records() == old(self).records(),
            r matches Ok(v) ==> records_view(v@) == spec_records_by_tag(
                old(self).records(),
                tag@,
            ),
            r matches Err(e) ==> !(e is Sanity),
    ;

    /// Lists all records, in sequence order.
    fn get_all_records(&mut self) -> (r: Result<Vec<MigrationInstance>, OspreyError>)
        ensures
            final (self).records() == old(self).records(),
            r matches Ok(v) ==> records_view(v@) == old(self).records(),
            r matches Err(e) ==> !(e is Sanity),
    ;
}

pub proof fn lemma_records_view_index(v: Seq<MigrationInstance>, k: int)
    requires
        0 <= k < v.len(),
    ensures
        records_view(v)[k] == v[k]@,
{
}

pub proof fn lemma_records_view_push(v: Seq<MigrationInstance>, m: MigrationInstance)
    ensures
        records_view(v.push(m)) == records_view(v).push(m@),
{
    assert forall|k: int| 0 <= k < v.len() + 1 implies records_view(v.push(m))[k] == records_view(
        v,
    ).push(m@)[k] by {
        if k < v.len() {
            assert(v.push(m)[k] == v[k]);
        } else {
            assert(v.push(m)[k] == m);
        }
    }
    assert(records_view(v.push(m)) =~= records_view(v).push(m@));
}

fn clone_instance(m: &MigrationInstance) -> (r: MigrationInstance)
    ensures
        r@ == m@,
{
    MigrationInstance {
        index: m.index,
        name: m.name.clone(),
        tag: m.tag.clone(),
        hash: m.hash.clone(),
    }
}

/// An in-memory ledger: the test adapter of the storage capability. Records
/// are held in a vector; the sequence number is the insertion position.
pub struct MemoryMigrationRecordStorage {
    records: Vec<MigrationInstance>,
}

impl MemoryMigrationRecordStorage {
    pub fn new() -> (r: MemoryMigrationRecordStorage)
        ensures
            r.records() == Seq::<MigrationInstanceV>::empty(),
    {
        let r = MemoryMigrationRecordStorage { records: Vec::new() };
        proof {
            assert(r.records() =~= Seq::<MigrationInstanceV>::empty());
        }
        r
    }
}

impl MigrationRecordStorage for MemoryMigrationRecordStorage {
    closed spec fn records(&self) -> Seq<MigrationInstanceV> {
        records_view(self.records@)
    }

    fn create_table(&mut self) -> (r: Result<(), OspreyError>) {
        Ok(())
    }

    fn execute_queries(&mut self, queries: &[String]) -> (r: Result<(), OspreyError>) {
        Ok(())
    }

    fn add_record(&mut self, name: &str, tag: &str, hash: &str) -> (r: Result<(), OspreyError>) {
        if self.records.len() >= (i32::MAX as usize) {
            return Err(OspreyError::Storage("ledger full".to_owned()));
        }
        let index = self.records.len() as i32;
        let ghost prior = self.records@;
        self.records.push(MigrationInstance::new(index, name, tag, hash));
        proof {
            assert(records_view(self.records@) =~= records_view(prior).push(
                MigrationInstanceV { index: index as int, name: name@, tag: tag@, hash: hash@ },
            ));
        }
        Ok(())
    }

    fn get_records_by_tag(&mut self, tag: &str) -> (r: Result<
        Vec<MigrationInstance>,
        OspreyError,
    >) {
        let ghost recs = records_view(self.records@);
        let mut out: Vec<MigrationInstance> = Vec::new();
        let mut i: usize = 0;
        proof {
            assert(recs.take(0) =~= Seq::<MigrationInstanceV>::empty());
            assert(records_view(out@) =~= spec_records_by_tag(recs.take(0), tag@));
        }
        while i < self.records.len()
            invariant
                0 <= i <= self.records@.len(),
                recs == records_view(self.records@),
                recs.len() == self.records@.len(),
                records_view(out@) == spec_records_by_tag(recs.take(i as int), tag@),
            decreases self.records@.len() - i,
        {
            let ghost prior = out@;
            proof {
                lemma_records_view_index(self.records@, i as int);
                assert(recs.take(i + 1).drop_last() =~= recs.take(i as int));
                assert(recs.take(i + 1).last() == recs[i as int]);
            }
            if crate::text::str_eq(self.records[i].tag.as_str(), tag) {
                let cloned = clone_instance(&self.records[i]);
                out.push(cloned);
                proof {
                    lemma_records_view_push(prior, cloned);
                    assert(recs[i as int].tag == tag@);
                    assert(spec_records_by_tag(recs.take(i + 1), tag@) == spec_records_by_tag(
                        recs.take(i as int),
                        tag@,
                    ).push(recs[i as int]));
                }
            } else {
                proof {
                    assert(!(recs[i as int].tag == tag@));
                    assert(spec_records_by_tag(recs.take(i + 1), tag@) == spec_records_by_tag(
                        recs.take(i as int),
                        tag@,
                    ));
                }
            }
            i = i + 1;
        }
        proof {
            assert(recs.take(recs.len() as int) =~= recs);
        }
        Ok(out)
    }
    fn get_all_records(&mut self) -> (r: Result<Vec<MigrationInstance>, OspreyError>) {
        let ghost recs = records_view(self.records@);
        let mut out: Vec<MigrationInstance> = Vec::new();
        let mut i: usize = 0;
        proof {
            assert(records_view(out@) =~= recs.take(0));
        }
        while i < self.records.len()
            invariant
                0 <= i <= self.records@.len(),
                recs == records_view(self.records@),
                recs.len() == self.records@.len(),
                records_view(out@) == recs.take(i as int),
            decreases self.records@.len() - i,
        {
            let ghost prior = out@;
            let cloned = clone_instance(&self.records[i]);
            out.push(cloned);
            proof {
                lemma_records_view_push(prior, cloned);
                lemma_records_view_index(self.records@, i as int);
                assert(records_view(out@) =~= recs.take(i + 1));
            }
            i = i + 1;
        }
        proof {
            assert(recs.take(recs.len() as int) =~= recs);
        }
        Ok(out)
    }
}

/// The ledger behind its capability trait, with the table ensured to exist.
pub struct Migrations<S: MigrationRecordStorage> {
    record_storage: S,
}

impl<S: MigrationRecordStorage> Migrations<S> {
    /// The records of the underlying ledger.
    pub closed spec fn records(&self) -> Seq<MigrationInstanceV> {
        self.record_storage.records()
    }

    /// Takes ownership of a ledger and idempotently creates its table.
    pub fn new(record_storage: S) -> (r: Result<Migrations<S>, OspreyError>)
        ensures
            r matches Ok(m) ==> m.records() == record_storage.records(),
    {
        let mut record_storage = record_storage;
        match record_storage.create_table() {
            Ok(()) => Ok(Migrations { record_storage }),
            Err(e) => Err(e),
        }
    }

    /// Executes a batch of statements; the ledger records are unchanged.
    pub fn execute_queries(&mut self, queries: &[String]) -> (r: Result<(), OspreyError>)
        ensures
            final (self).records() == old(self).records(),
    {
        self.record_storage.execute_queries(queries)
    }

    /// Appends one applied-migration record for (file, tag, hash).
    pub fn add_migration(&mut self, hash: &str, name: &str, tag: &str) -> (r: Result<
        (),
        OspreyError,
    >)
        ensures
            r is Ok ==> exists|ix: int|
                final (self).records() == old(self).records().push(
                    MigrationInstanceV { index: ix, name: name@, tag: tag@, hash: hash@ },
                ),
            r is Err ==> final (self).records() == old(self).records(),
    {
        self.record_storage.add_record(name, tag, hash)
    }

    /// Lists the records applied under one tag.
    pub fn get_migrations_by_tag(&mut self, tag: &str) -> (r: Result<
        Vec<MigrationInstance>,
        OspreyError,
    >)
        ensures
            final (self).records() == old(self).records(),
            r matches Ok(v) ==> records_view(v@) == spec_records_by_tag(
                old(self).records(),
                tag@,
            ),
    {
        self.record_storage.get_records_by_tag(tag)
    }

    /// Lists all records in the ledger.
    pub fn get_migrations(&mut self) -> (r: Result<Vec<MigrationInstance>, OspreyError>)
        ensures
            final (self).records() == old(self).records(),
            r matches Ok(v) ==> records_view(v@) == old(self).records(),
    {
        self.record_storage.get_all_records()
    }
}

} // verus!
