//! The migration runner and the sanity checker. The runner computes, for one
//! tag, the set of parsed files not yet applied, executes their statements in
//! file order, and appends one ledger record per applied group. The checker
//! reconciles the full ledger against the current files, fail-fast: a
//! migrated tag that disappeared, a migrated group whose content hash
//! changed, a file never migrated, and a ledger record whose file no longer
//! exists are each reported as a distinct finding.

use crate::error::{OspreyError, SanityError, SanityErrorV};
use crate::migrations::{
    lemma_records_view_index, records_view, spec_records_by_tag, MigrationInstance,
    MigrationInstanceV, MigrationRecordStorage,
};
use crate::sql_file::{SQLFile, SQLFileV};
use vstd::prelude::*;

verus! {

/// The views of a sequence of parsed files.
pub open spec fn files_view(v: Seq<SQLFile>) -> Seq<SQLFileV> {
    v.map_values(|f: SQLFile| f@)
}

/// Some record of `recs` names the file `name`.
pub open spec fn has_record_named(recs: Seq<MigrationInstanceV>, name: Seq<char>) -> bool {
    exists|i: int| 0 <= i < recs.len() && recs[i].name == name
}

pub proof fn lemma_files_view_index(v: Seq<SQLFile>, k: int)
    requires
        0 <= k < v.len(),
    ensures
        files_view(v)[k] == v[k]@,
{
}

/// Some file of `files` is named `name`.
pub open spec fn file_names_contain(files: Seq<SQLFileV>, name: Seq<char>) -> bool {
    exists|i: int| 0 <= i < files.len() && files[i].name == name
}

/// A file is pending for a tag when it defines a group under the tag and no
/// fetched record names it.
pub open spec fn spec_file_pending(
    f: SQLFileV,
    recs: Seq<MigrationInstanceV>,
    tag: Seq<char>,
) -> bool {
    f.groups.contains_key(tag) && !has_record_named(recs, f.name)
}

/// The files pending for a tag, in file-enumeration order. `recs` is the
/// list of records already applied under the tag, fetched once before the
/// run: a pending file is judged against that snapshot, not against records
/// appended during the run.
pub open spec fn spec_pending(
    files: Seq<SQLFileV>,
    recs: Seq<MigrationInstanceV>,
    tag: Seq<char>,
) -> Seq<SQLFileV>
    decreases files.len(),
{
    if files.len() == 0 {
        Seq::<SQLFileV>::empty()
    } else {
        let rest = spec_pending(files.drop_last(), recs, tag);
        if spec_file_pending(files.last(), recs, tag) {
            rest.push(files.last())
        } else {
            rest
        }
    }
}

/// The total number of statements in the pending files' groups for a tag.
pub open spec fn spec_total_queries(pending: Seq<SQLFileV>, tag: Seq<char>) -> int
    decreases pending.len(),
{
    if pending.len() == 0 {
        0
    } else {
        spec_total_queries(pending.drop_last(), tag) + pending.last().groups[tag].queries.len()
    }
}

/// The total number of statements that all files define under a tag.
pub open spec fn spec_tag_query_total(files: Seq<SQLFileV>, tag: Seq<char>) -> int
    decreases files.len(),
{
    if files.len() == 0 {
        0
    } else {
        spec_tag_query_total(files.drop_last(), tag) + (if files.last().groups.contains_key(tag) {
            files.last().groups[tag].queries.len() as int
        } else {
            0
        })
    }
}

/// `newrecs` are exactly the ledger records a run appends for the pending
/// files, in order: one per file, carrying the run's tag and the file's
/// group hash (the sequence numbers are storage-assigned).
pub open spec fn spec_applied_records(
    pending: Seq<SQLFileV>,
    tag: Seq<char>,
    newrecs: Seq<MigrationInstanceV>,
) -> bool {
    &&& newrecs.len() == pending.len()
    &&& forall|i: int|
        0 <= i < newrecs.len() ==> {
            &&& (#[trigger] newrecs[i]).name == pending[i].name
            &&& newrecs[i].tag == tag
            &&& newrecs[i].hash == pending[i].groups[tag].hash
        }
}

/// The per-file scan of the checker over the ledger records, in record
/// order: a matching record whose tag the file no longer defines, then a
/// matching record whose stored hash differs, fail the scan; otherwise the
/// count of records naming the file is returned.
pub open spec fn spec_check_file_recs(f: SQLFileV, recs: Seq<MigrationInstanceV>) -> Result<
    int,
    SanityErrorV,
>
    decreases recs.len(),
{
    if recs.len() == 0 {
        Result::Ok(0)
    } else {
        let r0 = recs[0];
        let rest = recs.drop_first();
        if r0.name == f.name {
            if !f.groups.contains_key(r0.tag) {
                Result::Err(SanityErrorV::FileNoContainTag(f.name, r0.tag))
            } else if f.groups[r0.tag].hash != r0.hash {
                Result::Err(SanityErrorV::FileQuerySetChanged(f.name, r0.tag))
            } else {
                match spec_check_file_recs(f, rest) {
                    Result::Ok(c) => Result::Ok(c + 1),
                    Result::Err(e) => Result::Err(e),
                }
            }
        } else {
            spec_check_file_recs(f, rest)
        }
    }
}

/// The forward pass of the checker: each file in order is scanned against
/// the whole ledger; a file with no matching record fails when new files are
/// not ignored.
pub open spec fn spec_check_files(
    files: Seq<SQLFileV>,
    recs: Seq<MigrationInstanceV>,
    ignore_new_files: bool,
) -> Result<(), SanityErrorV>
    decreases files.len(),
{
    if files.len() == 0 {
        Result::Ok(())
    } else {
        match spec_check_file_recs(files[0], recs) {
            Result::Err(e) => Result::Err(e),
            Result::Ok(c) => {
                if !ignore_new_files && c == 0 {
                    Result::Err(SanityErrorV::FileNotMigrated(files[0].name))
                } else {
                    spec_check_files(files.drop_first(), recs, ignore_new_files)
                }
            },
        }
    }
}

/// The reverse pass of the checker: each ledger record in order must name a
/// file that still exists.
pub open spec fn spec_check_orphans(
    recs: Seq<MigrationInstanceV>,
    files: Seq<SQLFileV>,
) -> Result<(), SanityErrorV>
    decreases recs.len(),
{
    if recs.len() == 0 {
        Result::Ok(())
    } else if !file_names_contain(files, recs[0].name) {
        Result::Err(SanityErrorV::FileNoExist(recs[0].name))
    } else {
        spec_check_orphans(recs.drop_first(), files)
    }
}

/// What the sanity check returns: the first finding of the forward pass,
/// else the first finding of the reverse pass, else success.
pub open spec fn spec_sanity(
    recs: Seq<MigrationInstanceV>,
    files: Seq<SQLFileV>,
    ignore_new_files: bool,
) -> Result<(), SanityErrorV> {
    match spec_check_files(files, recs, ignore_new_files) {
        Result::Err(e) => Result::Err(e),
        Result::Ok(()) => spec_check_orphans(recs, files),
    }
}

/// The counts a migrate run reports: groups applied and statements executed.
pub struct MigrateCounts {
    pub query_sets: usize,
    pub queries: usize,
}

fn contains_name(instances: &Vec<MigrationInstance>, name: &str) -> (r: bool)
    ensures
        r == has_record_named(records_view(instances@), name@),
{
    let ghost recs = records_view(instances@);
    let n = instances.len();
    let mut i: usize = 0;
    while i < n
        invariant
            0 <= i <= n,
            n == instances@.len(),
            recs == records_view(instances@),
            forall|k: int| 0 <= k < i ==> recs[k].name != name@,
        decreases n - i,
    {
        proof {
            lemma_records_view_index(instances@, i as int);
        }
        if crate::text::str_eq(instances[i].name.as_str(), name) {
            proof {
                assert(recs[i as int].name == name@);
            }
            return true;
        }
        proof {
            assert(recs[i as int].name != name@);
        }
        i = i + 1;
    }
    false
}

proof fn lemma_pending_len(files: Seq<SQLFileV>, recs: Seq<MigrationInstanceV>, tag: Seq<char>)
    ensures
        spec_pending(files, recs, tag).len() <= files.len(),
    decreases files.len(),
{
    if files.len() > 0 {
        lemma_pending_len(files.drop_last(), recs, tag);
    }
}

proof fn lemma_total_queries_nonneg(pending: Seq<SQLFileV>, tag: Seq<char>)
    ensures
        spec_total_queries(pending, tag) >= 0,
    decreases pending.len(),
{
    if pending.len() > 0 {
        lemma_total_queries_nonneg(pending.drop_last(), tag);
    }
}

proof fn lemma_tag_total_take(files: Seq<SQLFileV>, tag: Seq<char>, i: int)
    requires
        0 <= i <= files.len(),
    ensures
        spec_tag_query_total(files.take(i), tag) <= spec_tag_query_total(files, tag),
    decreases files.len(),
{
    if i == files.len() {
        assert(files.take(i) =~= files);
    } else {
        assert(files.take(i) =~= files.drop_last().take(i));
        lemma_tag_total_take(files.drop_last(), tag, i);
        assert(spec_tag_query_total(files, tag) >= spec_tag_query_total(files.drop_last(), tag));
    }
}

/// The two top-level operations: apply a tag's pending groups, and reconcile
/// the ledger against the current files.
pub struct Osprey {}

impl Osprey {
    /// Applies, for the requested tag, every file's group not yet recorded in
    /// the ledger: executes its statements in order, then appends one ledger
    /// record carrying the group's content hash. Files already named by a
    /// record fetched for the tag are skipped. Returns the number of groups
    /// applied and statements executed; on a storage failure the run aborts
    /// at once, the ledger holding exactly the records appended so far.
    pub fn migrate<S: MigrationRecordStorage>(
        record_storage: &mut S,
        sql_sets: &Vec<SQLFile>,
        up_key: &str,
    ) -> (r: Result<MigrateCounts, OspreyError>)
        requires
            forall|i: int| 0 <= i < sql_sets@.len() ==> (#[trigger] sql_sets@[i]).wf(),
            spec_tag_query_total(files_view(sql_sets@), up_key@) <= usize::MAX,
        ensures
            ({
                let fv = files_view(sql_sets@);
                let mv = spec_records_by_tag(old(record_storage).records(), up_key@);
                match r {
                    Result::Ok(c) => exists|newrecs: Seq<MigrationInstanceV>|
                        {
                            &&& #[trigger] spec_applied_records(
                                spec_pending(fv, mv, up_key@),
                                up_key@,
                                newrecs,
                            )
                            &&& final (record_storage).records() == old(
                                record_storage,
                            ).records() + newrecs
                            &&& c.query_sets == spec_pending(fv, mv, up_key@).len()
                            &&& c.queries == spec_total_queries(
                                spec_pending(fv, mv, up_key@),
                                up_key@,
                            )
                        },
                    Result::Err(_) => exists|k: int, newrecs: Seq<MigrationInstanceV>|
                        {
                            &&& 0 <= k <= fv.len()
                            &&& #[trigger] spec_applied_records(
                                spec_pending(fv.take(k), mv, up_key@),
                                up_key@,
                                newrecs,
                            )
                            &&& final (record_storage).records() == old(
                                record_storage,
                            ).records() + newrecs
                        },
                }
            }),
    {
        let ghost fv = files_view(sql_sets@);
        let ghost base = old(record_storage).records();
        proof {
            assert(fv.take(0) =~= Seq::<SQLFileV>::empty());
            assert(base + Seq::<MigrationInstanceV>::empty() =~= base);
        }
        match record_storage.create_table() {
            Ok(()) => {},
            Err(e) => {
                proof {
                    let pend0 = spec_pending(fv.take(0), spec_records_by_tag(base, up_key@), up_key@);
                    assert(spec_applied_records(pend0, up_key@, Seq::<MigrationInstanceV>::empty()));
                }
                return Err(e);
            },
        }
        let migration_instances = match record_storage.get_records_by_tag(up_key) {
            Ok(v) => v,
            Err(e) => {
                proof {
                    let pend0 = spec_pending(fv.take(0), spec_records_by_tag(base, up_key@), up_key@);
                    assert(spec_applied_records(pend0, up_key@, Seq::<MigrationInstanceV>::empty()));
                }
                return Err(e);
            },
        };
        let ghost mv = spec_records_by_tag(base, up_key@);
        proof {
            assert(records_view(migration_instances@) == mv);
        }
        let mut executed_query_sets: usize = 0;
        let mut executed_queries: usize = 0;
        let ghost mut applied: Seq<MigrationInstanceV> = Seq::<MigrationInstanceV>::empty();
        let n = sql_sets.len();
        let mut k: usize = 0;
        proof {
            assert(record_storage.records() =~= base + applied);
        }
        while k < n
            invariant
                0 <= k <= n,
                n == sql_sets@.len(),
                fv == files_view(sql_sets@),
                fv.len() == n,
                forall|i: int| 0 <= i < sql_sets@.len() ==> (#[trigger] sql_sets@[i]).wf(),
                base == old(record_storage).records(),
                mv == spec_records_by_tag(base, up_key@),
                mv == records_view(migration_instances@),
                spec_tag_query_total(fv, up_key@) <= usize::MAX,
                record_storage.records() == base + applied,
                spec_applied_records(spec_pending(fv.take(k as int), mv, up_key@), up_key@, applied),
                executed_query_sets == spec_pending(fv.take(k as int), mv, up_key@).len(),
                executed_queries == spec_total_queries(
                    spec_pending(fv.take(k as int), mv, up_key@),
                    up_key@,
                ),
                executed_queries <= spec_tag_query_total(fv.take(k as int), up_key@),
            decreases n - k,
        {
            let ghost pend = spec_pending(fv.take(k as int), mv, up_key@);
            let file = &sql_sets[k];
            proof {
                lemma_files_view_index(sql_sets@, k as int);
                assert(fv.take(k + 1).drop_last() =~= fv.take(k as int));
                assert(fv.take(k + 1).last() == fv[k as int]);
            }
            let maybe_query_set = file.query_hash_map.get(up_key);
            match maybe_query_set {
                Option::Some(up_query) => {
                    if contains_name(&migration_instances, file.name.as_str()) {
                        proof {
                            assert(!spec_file_pending(fv[k as int], mv, up_key@));
                            assert(spec_pending(fv.take(k + 1), mv, up_key@) == pend);
                            assert(spec_tag_query_total(fv.take(k + 1), up_key@)
                                == spec_tag_query_total(fv.take(k as int), up_key@) + fv[
                                k as int
                            ].groups[up_key@].queries.len());
                        }
                    } else {
                        proof {
                            assert(spec_file_pending(fv[k as int], mv, up_key@));
                            assert(spec_pending(fv.take(k + 1), mv, up_key@) == pend.push(
                                fv[k as int],
                            ));
                            lemma_pending_len(fv.take(k as int), mv, up_key@);
                            lemma_total_queries_nonneg(pend, up_key@);
                            lemma_tag_total_take(fv, up_key@, k + 1);
                            assert(spec_tag_query_total(fv.take(k + 1), up_key@)
                                == spec_tag_query_total(fv.take(k as int), up_key@) + fv[
                                k as int
                            ].groups[up_key@].queries.len());
                            assert(up_query@.queries == fv[k as int].groups[up_key@].queries);
                            assert(up_query.queries@.len() == up_query@.queries.len());
                        }
                        match record_storage.execute_queries(up_query.queries.as_slice()) {
                            Ok(()) => {},
                            Err(e) => {
                                return Err(e);
                            },
                        }
                        executed_queries = executed_queries + up_query.queries.len();
                        executed_query_sets = executed_query_sets + 1;
                        let ghost pre = record_storage.records();
                        match record_storage.add_record(
                            file.name.as_str(),
                            up_key,
                            up_query.hash.as_str(),
                        ) {
                            Ok(()) => {},
                            Err(e) => {
                                proof {
                                    assert(spec_applied_records(pend, up_key@, applied));
                                }
                                return Err(e);
                            },
                        }
                        proof {
                            let rec = MigrationInstanceV {
                                index: choose|ix: int|
                                    record_storage.records() == pre.push(
                                        MigrationInstanceV {
                                            index: ix,
                                            name: file.name@,
                                            tag: up_key@,
                                            hash: up_query.hash@,
                                        },
                                    ),
                                name: file.name@,
                                tag: up_key@,
                                hash: up_query.hash@,
                            };
                            assert(record_storage.records() == pre.push(rec));
                            assert(rec.hash == fv[k as int].groups[up_key@].hash);
                            applied = applied.push(rec);
                            assert(record_storage.records() =~= base + applied);
                            assert(spec_applied_records(
                                spec_pending(fv.take(k + 1), mv, up_key@),
                                up_key@,
                                applied,
                            ));
                            assert(pend.push(fv[k as int]).drop_last() =~= pend);
                            assert(pend.push(fv[k as int]).last() == fv[k as int]);
                            assert(spec_total_queries(pend.push(fv[k as int]), up_key@)
                                == spec_total_queries(pend, up_key@) + fv[
                                k as int
                            ].groups[up_key@].queries.len());
                        }
                    }
                },
                Option::None => {
                    proof {
                        assert(!fv[k as int].groups.contains_key(up_key@));
                        assert(!spec_file_pending(fv[k as int], mv, up_key@));
                        assert(spec_pending(fv.take(k + 1), mv, up_key@) == pend);
                        assert(spec_tag_query_total(fv.take(k + 1), up_key@)
                            == spec_tag_query_total(fv.take(k as int), up_key@));
                    }
                },
            }
            k = k + 1;
        }
        proof {
            assert(fv.take(n as int) =~= fv);
        }
        Ok(MigrateCounts { query_sets: executed_query_sets, queries: executed_queries })
    }

    /// The runner's pending-set decision, for a caller that drives the
    /// storage itself: the indices, in file-enumeration order, of the files
    /// that define a group under the tag and that no fetched record names.
    pub fn pending_indices(
        sql_sets: &Vec<SQLFile>,
        migration_instances: &Vec<MigrationInstance>,
        up_key: &str,
    ) -> (r: Vec<usize>)
        requires
            forall|i: int| 0 <= i < sql_sets@.len() ==> (#[trigger] sql_sets@[i]).wf(),
        ensures
            forall|j: int| 0 <= j < r@.len() ==> (#[trigger] r@[j]) < sql_sets@.len(),
            r@.map_values(|i: usize| files_view(sql_sets@)[i as int]) == spec_pending(
                files_view(sql_sets@),
                records_view(migration_instances@),
                up_key@,
            ),
    {
        let ghost fv = files_view(sql_sets@);
        let ghost mv = records_view(migration_instances@);
        let mut out: Vec<usize> = Vec::new();
        let n = sql_sets.len();
        let mut k: usize = 0;
        proof {
            assert(fv.take(0) =~= Seq::<SQLFileV>::empty());
            assert(out@.map_values(|i: usize| fv[i as int]) =~= spec_pending(
                fv.take(0),
                mv,
                up_key@,
            ));
        }
        while k < n
            invariant
                0 <= k <= n,
                n == sql_sets@.len(),
                fv == files_view(sql_sets@),
                fv.len() == n,
                mv == records_view(migration_instances@),
                forall|i: int| 0 <= i < sql_sets@.len() ==> (#[trigger] sql_sets@[i]).wf(),
                forall|j: int| 0 <= j < out@.len() ==> (#[trigger] out@[j]) < k,
                out@.map_values(|i: usize| fv[i as int]) == spec_pending(
                    fv.take(k as int),
                    mv,
                    up_key@,
                ),
            decreases n - k,
        {
            let ghost prior = out@;
            let file = &sql_sets[k];
            proof {
                lemma_files_view_index(sql_sets@, k as int);
                assert(fv.take(k + 1).drop_last() =~= fv.take(k as int));
                assert(fv.take(k + 1).last() == fv[k as int]);
            }
            let has_tag = file.query_hash_map.contains_key(up_key);
            if has_tag && !contains_name(migration_instances, file.name.as_str()) {
                out.push(k);
                proof {
                    assert(spec_file_pending(fv[k as int], mv, up_key@));
                    assert(out@.map_values(|i: usize| fv[i as int]) =~= prior.map_values(
                        |i: usize| fv[i as int],
                    ).push(fv[k as int]));
                }
            } else {
                proof {
                    assert(!spec_file_pending(fv[k as int], mv, up_key@));
                }
            }
            k = k + 1;
        }
        proof {
            assert(fv.take(n as int) =~= fv);
        }
        out
    }

    /// Reconciles the full ledger against the current files without mutating
    /// anything: the table is ensured to exist, all records are fetched, and
    /// the checker's verdict is returned.
    pub fn sanity<S: MigrationRecordStorage>(
        record_storage: &mut S,
        sql_sets: &Vec<SQLFile>,
        ignore_new_files: bool,
    ) -> (r: Result<(), OspreyError>)
        requires
            forall|i: int| 0 <= i < sql_sets@.len() ==> (#[trigger] sql_sets@[i]).wf(),
        ensures
            final (record_storage).records() == old(record_storage).records(),
            r is Ok ==> spec_sanity(
                old(record_storage).records(),
                files_view(sql_sets@),
                ignore_new_files,
            ) is Ok,
            r matches Err(OspreyError::Sanity(e)) ==> spec_sanity(
                old(record_storage).records(),
                files_view(sql_sets@),
                ignore_new_files,
            ) == Result::<(), SanityErrorV>::Err(e@),
    {
        match record_storage.create_table() {
            Ok(()) => {},
            Err(e) => {
                return Err(e);
            },
        }
        let migration_instances = match record_storage.get_all_records() {
            Ok(v) => v,
            Err(e) => {
                return Err(e);
            },
        };
        match Self::instance_file_check(
            migration_instances.as_slice(),
            sql_sets.as_slice(),
            ignore_new_files,
        ) {
            Ok(()) => Ok(()),
            Err(e) => Err(OspreyError::Sanity(e)),
        }
    }
    /// The checker's core: given the full ledger and the current files,
    /// verifies that every applied record still matches the file's current
    /// content under the same tag, and flags never-migrated files and
    /// orphaned records. Fail-fast: the first finding is returned.
    pub fn instance_file_check(
        migration_instances: &[MigrationInstance],
        sql_sets: &[SQLFile],
        ignore_new_files: bool,
    ) -> (r: Result<(), SanityError>)
        requires
            forall|i: int| 0 <= i < sql_sets@.len() ==> (#[trigger] sql_sets@[i]).wf(),
        ensures
            match r {
                Result::Ok(()) => spec_sanity(
                    records_view(migration_instances@),
                    files_view(sql_sets@),
                    ignore_new_files,
                ) is Ok,
                Result::Err(e) => spec_sanity(
                    records_view(migration_instances@),
                    files_view(sql_sets@),
                    ignore_new_files,
                ) == Result::<(), SanityErrorV>::Err(e@),
            },
    {
        let ghost mv = records_view(migration_instances@);
        let ghost fv = files_view(sql_sets@);
        let nf = sql_sets.len();
        let nr = migration_instances.len();
        let mut fi: usize = 0;
        proof {
            assert(fv.skip(0) =~= fv);
        }
        while fi < nf
            invariant
                0 <= fi <= nf,
                nf == sql_sets@.len(),
                nr == migration_instances@.len(),
                mv == records_view(migration_instances@),
                fv == files_view(sql_sets@),
                mv.len() == nr,
                fv.len() == nf,
                forall|i: int| 0 <= i < sql_sets@.len() ==> (#[trigger] sql_sets@[i]).wf(),
                spec_check_files(fv, mv, ignore_new_files) == spec_check_files(
                    fv.skip(fi as int),
                    mv,
                    ignore_new_files,
                ),
            decreases nf - fi,
        {
            let file = &sql_sets[fi];
            proof {
                lemma_files_view_index(sql_sets@, fi as int);
            }
            let ghost f = fv[fi as int];
            proof {
                assert(f == sql_sets@[fi as int]@);
                assert(fv.skip(fi as int)[0] == f);
                assert(mv.skip(0) =~= mv);
            }
            let mut count: usize = 0;
            let mut ri: usize = 0;
            while ri < nr
                invariant
                    0 <= ri <= nr,
                    0 <= count <= ri,
                    nr == migration_instances@.len(),
                    mv == records_view(migration_instances@),
                    mv.len() == nr,
                    f == sql_sets@[fi as int]@,
                    0 <= fi < sql_sets@.len(),
                    sql_sets@[fi as int].wf(),
                    *file == sql_sets@[fi as int],
                    fv == files_view(sql_sets@),
                    fv.len() == sql_sets@.len(),
                    fv.skip(fi as int)[0] == f,
                    spec_check_files(fv, mv, ignore_new_files) == spec_check_files(
                        fv.skip(fi as int),
                        mv,
                        ignore_new_files,
                    ),
                    (match spec_check_file_recs(f, mv.skip(ri as int)) {
                        Result::Ok(c) => spec_check_file_recs(f, mv) == Result::<
                            int,
                            SanityErrorV,
                        >::Ok(c + count),
                        Result::Err(e) => spec_check_file_recs(f, mv) == Result::<
                            int,
                            SanityErrorV,
                        >::Err(e),
                    }),
                decreases nr - ri,
            {
                let migration = &migration_instances[ri];
                proof {
                    lemma_records_view_index(migration_instances@, ri as int);
                    assert(mv.skip(ri as int)[0] == mv[ri as int]);
                    assert(mv.skip(ri as int).drop_first() =~= mv.skip(ri + 1));
                }
                if crate::text::str_eq(migration.name.as_str(), file.name.as_str()) {
                    let maybe_query_set = file.query_hash_map.get(migration.tag.as_str());
                    match maybe_query_set {
                        Option::None => {
                            proof {
                                assert(spec_check_file_recs(f, mv.skip(ri as int)) == Result::<
                                    int,
                                    SanityErrorV,
                                >::Err(SanityErrorV::FileNoContainTag(f.name, mv[ri as int].tag)));
                                assert(spec_check_files(fv.skip(fi as int), mv, ignore_new_files)
                                    == Result::<(), SanityErrorV>::Err(
                                    SanityErrorV::FileNoContainTag(f.name, mv[ri as int].tag),
                                ));
                            }
                            return Err(
                                SanityError::FileNoContainTag(
                                    file.name.clone(),
                                    migration.tag.clone(),
                                ),
                            );
                        },
                        Option::Some(query_set) => {
                            if !crate::text::str_eq(
                                query_set.hash.as_str(),
                                migration.hash.as_str(),
                            ) {
                                proof {
                                    assert(f.groups[mv[ri as int].tag].hash != mv[ri as int].hash);
                                    assert(spec_check_file_recs(f, mv.skip(ri as int)) == Result::<
                                        int,
                                        SanityErrorV,
                                    >::Err(
                                        SanityErrorV::FileQuerySetChanged(
                                            f.name,
                                            mv[ri as int].tag,
                                        ),
                                    ));
                                    assert(spec_check_files(
                                        fv.skip(fi as int),
                                        mv,
                                        ignore_new_files,
                                    ) == Result::<(), SanityErrorV>::Err(
                                        SanityErrorV::FileQuerySetChanged(
                                            f.name,
                                            mv[ri as int].tag,
                                        ),
                                    ));
                                }
                                return Err(
                                    SanityError::FileQuerySetChanged(
                                        file.name.clone(),
                                        migration.tag.clone(),
                                    ),
                                );
                            }
                            count = count + 1;
                        },
                    }
                }
                ri = ri + 1;
            }
            proof {
                assert(mv.skip(nr as int) =~= Seq::<MigrationInstanceV>::empty());
                assert(spec_check_file_recs(f, mv) == Result::<int, SanityErrorV>::Ok(
                    count as int,
                ));
            }
            if !ignore_new_files && count == 0 {
                return Err(SanityError::FileNotMigrated(file.name.clone()));
            }
            proof {
                assert(fv.skip(fi as int).drop_first() =~= fv.skip(fi + 1));
            }
            fi = fi + 1;
        }
        proof {
            assert(fv.skip(nf as int) =~= Seq::<SQLFileV>::empty());
            assert(spec_check_files(fv, mv, ignore_new_files) is Ok);
        }
        let mut ri: usize = 0;
        proof {
            assert(mv.skip(0) =~= mv);
        }
        while ri < nr
            invariant
                0 <= ri <= nr,
                nf == sql_sets@.len(),
                nr == migration_instances@.len(),
                mv == records_view(migration_instances@),
                fv == files_view(sql_sets@),
                mv.len() == nr,
                fv.len() == nf,
                spec_check_files(fv, mv, ignore_new_files) is Ok,
                spec_check_orphans(mv, fv) == spec_check_orphans(mv.skip(ri as int), fv),
            decreases nr - ri,
        {
            let instance = &migration_instances[ri];
            proof {
                lemma_records_view_index(migration_instances@, ri as int);
                assert(mv.skip(ri as int)[0] == mv[ri as int]);
                assert(mv.skip(ri as int).drop_first() =~= mv.skip(ri + 1));
            }
            let mut found = false;
            let mut fi: usize = 0;
            while fi < nf
                invariant
                    0 <= fi <= nf,
                    nf == sql_sets@.len(),
                    fv == files_view(sql_sets@),
                    fv.len() == nf,
                    nr == migration_instances@.len(),
                    mv == records_view(migration_instances@),
                    mv.len() == nr,
                    0 <= ri < nr,
                    *instance == migration_instances@[ri as int],
                    !found ==> forall|k: int| 0 <= k < fi ==> fv[k].name != mv[ri as int].name,
                    found ==> file_names_contain(fv, mv[ri as int].name),
                ensures
                    found == file_names_contain(fv, mv[ri as int].name),
                decreases nf - fi,
            {
                proof {
                    lemma_files_view_index(sql_sets@, fi as int);
                    lemma_records_view_index(migration_instances@, ri as int);
                }
                if crate::text::str_eq(
                    sql_sets[fi].name.as_str(),
                    instance.name.as_str(),
                ) {
                    proof {
                        assert(fv[fi as int].name == mv[ri as int].name);
                    }
                    found = true;
                    break ;
                }
                proof {
                    assert(fv[fi as int].name != mv[ri as int].name);
                }
                fi = fi + 1;
            }
            if !found {
                proof {
                    assert(!file_names_contain(fv, mv[ri as int].name));
                }
                return Err(SanityError::FileNoExist(instance.name.clone()));
            }
            ri = ri + 1;
        }
        proof {
            assert(mv.skip(nr as int) =~= Seq::<MigrationInstanceV>::empty());
        }
        Ok(())
    }
}

proof fn lemma_records_by_tag_add(a: Seq<MigrationInstanceV>, b: Seq<MigrationInstanceV>, tag: Seq<char>)
    ensures
        spec_records_by_tag(a + b, tag) == spec_records_by_tag(a, tag) + spec_records_by_tag(
            b,
            tag,
        ),
    decreases b.len(),
{
    if b.len() == 0 {
        assert(a + b =~= a);
        assert(spec_records_by_tag(a, tag) + spec_records_by_tag(b, tag) =~= spec_records_by_tag(
            a,
            tag,
        ));
    } else {
        assert((a + b).drop_last() =~= a + b.drop_last());
        assert((a + b).last() == b.last());
        lemma_records_by_tag_add(a, b.drop_last(), tag);
        if b.last().tag == tag {
            assert((spec_records_by_tag(a, tag) + spec_records_by_tag(b.drop_last(), tag)).push(
                b.last(),
            ) =~= spec_records_by_tag(a, tag) + spec_records_by_tag(b.drop_last(), tag).push(
                b.last(),
            ));
        }
    }
}

proof fn lemma_records_by_tag_contains(recs: Seq<MigrationInstanceV>, tag: Seq<char>, i: int)
    requires
        0 <= i < recs.len(),
        recs[i].tag == tag,
    ensures
        has_record_named(spec_records_by_tag(recs, tag), recs[i].name),
    decreases recs.len(),
{
    let out = spec_records_by_tag(recs, tag);
    if i == recs.len() - 1 {
        assert(out.last() == recs[i]);
        assert(out[out.len() - 1].name == recs[i].name);
    } else {
        assert(recs.drop_last()[i] == recs[i]);
        lemma_records_by_tag_contains(recs.drop_last(), tag, i);
        let sub = spec_records_by_tag(recs.drop_last(), tag);
        let j = choose|j: int| 0 <= j < sub.len() && sub[j].name == recs[i].name;
        assert(out[j].name == recs[i].name);
    }
}

proof fn lemma_pending_contains(
    files: Seq<SQLFileV>,
    recs: Seq<MigrationInstanceV>,
    tag: Seq<char>,
    i: int,
)
    requires
        0 <= i < files.len(),
        spec_file_pending(files[i], recs, tag),
    ensures
        exists|j: int|
            0 <= j < spec_pending(files, recs, tag).len() && spec_pending(files, recs, tag)[j]
                == files[i],
    decreases files.len(),
{
    let out = spec_pending(files, recs, tag);
    if i == files.len() - 1 {
        assert(out.last() == files[i]);
        assert(out[out.len() - 1] == files[i]);
    } else {
        assert(files.drop_last()[i] == files[i]);
        lemma_pending_contains(files.drop_last(), recs, tag, i);
        let sub = spec_pending(files.drop_last(), recs, tag);
        let j = choose|j: int| 0 <= j < sub.len() && sub[j] == files[i];
        assert(out[j] == files[i]);
    }
}

proof fn lemma_pending_empty(files: Seq<SQLFileV>, recs: Seq<MigrationInstanceV>, tag: Seq<char>)
    requires
        forall|i: int| 0 <= i < files.len() ==> !spec_file_pending(#[trigger] files[i], recs, tag),
    ensures
        spec_pending(files, recs, tag) == Seq::<SQLFileV>::empty(),
    decreases files.len(),
{
    if files.len() > 0 {
        assert(forall|i: int|
            0 <= i < files.drop_last().len() ==> !spec_file_pending(
                #[trigger] files.drop_last()[i],
                recs,
                tag,
            )) by {
            assert(forall|i: int|
                0 <= i < files.drop_last().len() ==> files.drop_last()[i] == files[i]);
        }
        lemma_pending_empty(files.drop_last(), recs, tag);
        assert(!spec_file_pending(files[files.len() - 1], recs, tag));
    }
}

/// Round-trip idempotence: after a run has appended one record per pending
/// file for a tag, nothing is pending for that tag any more, so a second run
/// against the same files applies zero groups and zero statements.
pub proof fn lemma_migrate_idempotent(
    files: Seq<SQLFileV>,
    recs: Seq<MigrationInstanceV>,
    tag: Seq<char>,
    newrecs: Seq<MigrationInstanceV>,
)
    requires
        spec_applied_records(
            spec_pending(files, spec_records_by_tag(recs, tag), tag),
            tag,
            newrecs,
        ),
    ensures
        spec_pending(files, spec_records_by_tag(recs + newrecs, tag), tag) == Seq::<
            SQLFileV,
        >::empty(),
        spec_total_queries(spec_pending(files, spec_records_by_tag(recs + newrecs, tag), tag), tag)
            == 0,
{
    let mv0 = spec_records_by_tag(recs, tag);
    let pend = spec_pending(files, mv0, tag);
    let mv1 = spec_records_by_tag(recs + newrecs, tag);
    lemma_records_by_tag_add(recs, newrecs, tag);
    assert(mv1 == mv0 + spec_records_by_tag(newrecs, tag));
    assert forall|i: int| 0 <= i < files.len() implies !spec_file_pending(
        #[trigger] files[i],
        mv1,
        tag,
    ) by {
        if files[i].groups.contains_key(tag) {
            if has_record_named(mv0, files[i].name) {
                let j = choose|j: int| 0 <= j < mv0.len() && mv0[j].name == files[i].name;
                assert(mv1[j].name == files[i].name);
            } else {
                assert(spec_file_pending(files[i], mv0, tag));
                lemma_pending_contains(files, mv0, tag, i);
                let j = choose|j: int| 0 <= j < pend.len() && pend[j] == files[i];
                assert(newrecs[j].name == files[i].name);
                assert(newrecs[j].tag == tag);
                lemma_records_by_tag_contains(newrecs, tag, j);
                let bt = spec_records_by_tag(newrecs, tag);
                let j2 = choose|j2: int| 0 <= j2 < bt.len() && bt[j2].name == newrecs[j].name;
                assert(mv1[mv0.len() + j2].name == files[i].name);
            }
        }
    }
    lemma_pending_empty(files, mv1, tag);
}

/// One file is consistent with the ledger when every record naming it still
/// has its tag defined in the file with an unchanged content hash.
pub open spec fn spec_file_consistent(f: SQLFileV, recs: Seq<MigrationInstanceV>) -> bool {
    forall|j: int|
        0 <= j < recs.len() && (#[trigger] recs[j]).name == f.name ==> f.groups.contains_key(
            recs[j].tag,
        ) && f.groups[recs[j].tag].hash == recs[j].hash
}

/// The whole collection is consistent: every file matches every record that
/// names it, every file has been migrated (unless new files are ignored),
/// and every record names a file that still exists.
pub open spec fn spec_consistent(
    recs: Seq<MigrationInstanceV>,
    files: Seq<SQLFileV>,
    ignore_new_files: bool,
) -> bool {
    &&& forall|i: int|
        0 <= i < files.len() ==> spec_file_consistent(#[trigger] files[i], recs)
    &&& ignore_new_files || forall|i: int|
        0 <= i < files.len() ==> has_record_named(recs, (#[trigger] files[i]).name)
    &&& forall|j: int|
        0 <= j < recs.len() ==> file_names_contain(files, (#[trigger] recs[j]).name)
}

proof fn lemma_check_file_recs_props(f: SQLFileV, recs: Seq<MigrationInstanceV>)
    ensures
        (spec_check_file_recs(f, recs) is Ok) <==> spec_file_consistent(f, recs),
        spec_check_file_recs(f, recs) is Ok ==> spec_check_file_recs(f, recs)->Ok_0 >= 0,
        spec_check_file_recs(f, recs) is Ok ==> ((spec_check_file_recs(f, recs)->Ok_0 == 0)
            <==> !has_record_named(recs, f.name)),
    decreases recs.len(),
{
    if recs.len() == 0 {
        assert(!has_record_named(recs, f.name));
    } else {
        let r0 = recs[0];
        let rest = recs.drop_first();
        lemma_check_file_recs_props(f, rest);
        assert(forall|j: int| 0 <= j < rest.len() ==> rest[j] == recs[j + 1]);
        assert(spec_file_consistent(f, recs) <==> ((r0.name == f.name ==> f.groups.contains_key(
            r0.tag,
        ) && f.groups[r0.tag].hash == r0.hash) && spec_file_consistent(f, rest))) by {
            if (r0.name == f.name ==> f.groups.contains_key(r0.tag) && f.groups[r0.tag].hash
                == r0.hash) && spec_file_consistent(f, rest) {
                assert forall|j: int|
                    0 <= j < recs.len() && (#[trigger] recs[j]).name == f.name implies f
                    .groups.contains_key(recs[j].tag) && f.groups[recs[j].tag].hash
                    == recs[j].hash by {
                    if j > 0 {
                        assert(rest[j - 1] == recs[j]);
                    }
                }
            }
        }
        assert(has_record_named(recs, f.name) <==> (r0.name == f.name || has_record_named(
            rest,
            f.name,
        ))) by {
            if has_record_named(recs, f.name) {
                let j = choose|j: int| 0 <= j < recs.len() && recs[j].name == f.name;
                if j > 0 {
                    assert(rest[j - 1].name == f.name);
                }
            }
            if has_record_named(rest, f.name) {
                let j = choose|j: int| 0 <= j < rest.len() && rest[j].name == f.name;
                assert(recs[j + 1].name == f.name);
            }
        }
    }
}

proof fn lemma_check_files_props(
    files: Seq<SQLFileV>,
    recs: Seq<MigrationInstanceV>,
    ignore_new_files: bool,
)
    ensures
        (spec_check_files(files, recs, ignore_new_files) is Ok) <==> (forall|i: int|
            0 <= i < files.len() ==> (spec_file_consistent(#[trigger] files[i], recs) && (
            ignore_new_files || has_record_named(recs, files[i].name)))),
    decreases files.len(),
{
    if files.len() > 0 {
        let f0 = files[0];
        let rest = files.drop_first();
        lemma_check_file_recs_props(f0, recs);
        lemma_check_files_props(rest, recs, ignore_new_files);
        assert(forall|i: int| 0 <= i < rest.len() ==> rest[i] == files[i + 1]);
        if spec_check_files(files, recs, ignore_new_files) is Ok {
            assert forall|i: int| 0 <= i < files.len() implies (spec_file_consistent(
                #[trigger] files[i],
                recs,
            ) && (ignore_new_files || has_record_named(recs, files[i].name))) by {
                if i > 0 {
                    assert(rest[i - 1] == files[i]);
                }
            }
        } else {
            if (forall|i: int|
                0 <= i < files.len() ==> (spec_file_consistent(#[trigger] files[i], recs) && (
                ignore_new_files || has_record_named(recs, files[i].name)))) {
                assert(spec_file_consistent(files[0], recs));
                assert(false);
            }
        }
    }
}

proof fn lemma_check_orphans_props(recs: Seq<MigrationInstanceV>, files: Seq<SQLFileV>)
    ensures
        (spec_check_orphans(recs, files) is Ok) <==> (forall|j: int|
            0 <= j < recs.len() ==> file_names_contain(files, (#[trigger] recs[j]).name)),
    decreases recs.len(),
{
    if recs.len() > 0 {
        let rest = recs.drop_first();
        lemma_check_orphans_props(rest, files);
        assert(forall|j: int| 0 <= j < rest.len() ==> rest[j] == recs[j + 1]);
        if spec_check_orphans(recs, files) is Ok {
            assert forall|j: int| 0 <= j < recs.len() implies file_names_contain(
                files,
                (#[trigger] recs[j]).name,
            ) by {
                if j > 0 {
                    assert(rest[j - 1] == recs[j]);
                }
            }
        }
    }
}

/// The sanity check passes exactly when the files and the ledger are
/// consistent: every record naming a file still matches its content, every
/// file has been migrated (unless new files are ignored), and every record
/// names an existing file.
pub proof fn lemma_sanity_ok_iff_consistent(
    recs: Seq<MigrationInstanceV>,
    files: Seq<SQLFileV>,
    ignore_new_files: bool,
)
    ensures
        (spec_sanity(recs, files, ignore_new_files) is Ok) <==> spec_consistent(
            recs,
            files,
            ignore_new_files,
        ),
{
    lemma_check_files_props(files, recs, ignore_new_files);
    lemma_check_orphans_props(recs, files);
}

/// Drift detection: a record whose file still defines the tag but under a
/// different content hash makes the sanity check fail.
pub proof fn lemma_drift_detected(
    recs: Seq<MigrationInstanceV>,
    files: Seq<SQLFileV>,
    ignore_new_files: bool,
    i: int,
    j: int,
)
    requires
        0 <= i < files.len(),
        0 <= j < recs.len(),
        recs[j].name == files[i].name,
        files[i].groups.contains_key(recs[j].tag),
        files[i].groups[recs[j].tag].hash != recs[j].hash,
    ensures
        spec_sanity(recs, files, ignore_new_files) is Err,
{
    lemma_sanity_ok_iff_consistent(recs, files, ignore_new_files);
    if spec_sanity(recs, files, ignore_new_files) is Ok {
        assert(spec_file_consistent(files[i], recs));
        assert(false);
    }
}

/// Missing-tag detection: a record whose file no longer defines the tag it
/// was migrated under makes the sanity check fail.
pub proof fn lemma_missing_tag_detected(
    recs: Seq<MigrationInstanceV>,
    files: Seq<SQLFileV>,
    ignore_new_files: bool,
    i: int,
    j: int,
)
    requires
        0 <= i < files.len(),
        0 <= j < recs.len(),
        recs[j].name == files[i].name,
        !files[i].groups.contains_key(recs[j].tag),
    ensures
        spec_sanity(recs, files, ignore_new_files) is Err,
{
    lemma_sanity_ok_iff_consistent(recs, files, ignore_new_files);
    if spec_sanity(recs, files, ignore_new_files) is Ok {
        assert(spec_file_consistent(files[i], recs));
        assert(false);
    }
}

/// Orphan detection: a ledger record naming a file that is not in the
/// current collection makes the sanity check fail.
pub proof fn lemma_orphan_detected(
    recs: Seq<MigrationInstanceV>,
    files: Seq<SQLFileV>,
    ignore_new_files: bool,
    j: int,
)
    requires
        0 <= j < recs.len(),
        !file_names_contain(files, recs[j].name),
    ensures
        spec_sanity(recs, files, ignore_new_files) is Err,
{
    lemma_sanity_ok_iff_consistent(recs, files, ignore_new_files);
}

/// New-file detection: when new files are not ignored, a file with no ledger
/// record makes the sanity check fail.
pub proof fn lemma_unmigrated_detected(
    recs: Seq<MigrationInstanceV>,
    files: Seq<SQLFileV>,
    i: int,
)
    requires
        0 <= i < files.len(),
        !has_record_named(recs, files[i].name),
    ensures
        spec_sanity(recs, files, false) is Err,
{
    lemma_sanity_ok_iff_consistent(recs, files, false);
}

proof fn lemma_check_file_recs_err_sound(f: SQLFileV, recs: Seq<MigrationInstanceV>)
    ensures
        match spec_check_file_recs(f, recs) {
            Result::Err(SanityErrorV::FileNoContainTag(n, t)) => n == f.name
                && !f.groups.contains_key(t) && (exists|j: int|
                0 <= j < recs.len() && (#[trigger] recs[j]).name == f.name && recs[j].tag == t),
            Result::Err(SanityErrorV::FileQuerySetChanged(n, t)) => n == f.name
                && f.groups.contains_key(t) && (exists|j: int|
                0 <= j < recs.len() && (#[trigger] recs[j]).name == f.name && recs[j].tag == t
                    && f.groups[t].hash != recs[j].hash),
            Result::Err(_) => false,
            Result::Ok(_) => true,
        },
    decreases recs.len(),
{
    if recs.len() > 0 {
        let r0 = recs[0];
        let rest = recs.drop_first();
        lemma_check_file_recs_err_sound(f, rest);
        assert(forall|j: int| 0 <= j < rest.len() ==> rest[j] == recs[j + 1]);
        if r0.name == f.name && f.groups.contains_key(r0.tag) && f.groups[r0.tag].hash
            == r0.hash || r0.name != f.name {
            match spec_check_file_recs(f, rest) {
                Result::Err(SanityErrorV::FileNoContainTag(n, t)) => {
                    let j = choose|j: int|
                        0 <= j < rest.len() && (#[trigger] rest[j]).name == f.name && rest[j].tag
                            == t;
                    assert(recs[j + 1].name == f.name && recs[j + 1].tag == t);
                },
                Result::Err(SanityErrorV::FileQuerySetChanged(n, t)) => {
                    let j = choose|j: int|
                        0 <= j < rest.len() && (#[trigger] rest[j]).name == f.name && rest[j].tag
                            == t && f.groups[t].hash != rest[j].hash;
                    assert(recs[j + 1].name == f.name && recs[j + 1].tag == t);
                },
                _ => {},
            }
        }
    }
}

proof fn lemma_check_files_err_sound(
    files: Seq<SQLFileV>,
    recs: Seq<MigrationInstanceV>,
    ignore_new_files: bool,
)
    ensures
        match spec_check_files(files, recs, ignore_new_files) {
            Result::Err(SanityErrorV::FileNoContainTag(n, t)) => exists|i: int, j: int|
                0 <= i < files.len() && 0 <= j < recs.len() && (#[trigger] files[i]).name == n && (
                #[trigger] recs[j]).name == n && recs[j].tag == t && !files[i].groups.contains_key(
                    t,
                ),
            Result::Err(SanityErrorV::FileQuerySetChanged(n, t)) => exists|i: int, j: int|
                0 <= i < files.len() && 0 <= j < recs.len() && (#[trigger] files[i]).name == n && (
                #[trigger] recs[j]).name == n && recs[j].tag == t && files[i].groups.contains_key(t)
                    && files[i].groups[t].hash != recs[j].hash,
            Result::Err(SanityErrorV::FileNotMigrated(n)) => !ignore_new_files
                && file_names_contain(files, n) && !has_record_named(recs, n),
            Result::Err(SanityErrorV::FileNoExist(_)) => false,
            Result::Ok(_) => true,
        },
    decreases files.len(),
{
    if files.len() > 0 {
        let f0 = files[0];
        let rest = files.drop_first();
        lemma_check_file_recs_err_sound(f0, recs);
        lemma_check_file_recs_props(f0, recs);
        lemma_check_files_err_sound(rest, recs, ignore_new_files);
        assert(forall|i: int| 0 <= i < rest.len() ==> rest[i] == files[i + 1]);
        match spec_check_file_recs(f0, recs) {
            Result::Err(SanityErrorV::FileNoContainTag(n, t)) => {
                assert(files[0].name == n);
            },
            Result::Err(SanityErrorV::FileQuerySetChanged(n, t)) => {
                assert(files[0].name == n);
            },
            Result::Err(_) => {},
            Result::Ok(c) => {
                if !ignore_new_files && c == 0 {
                    assert(files[0].name == f0.name);
                } else {
                    match spec_check_files(rest, recs, ignore_new_files) {
                        Result::Err(SanityErrorV::FileNoContainTag(n, t)) => {
                            let (i, j) = choose|i: int, j: int|
                                0 <= i < rest.len() && 0 <= j < recs.len() && (
                                #[trigger] rest[i]).name == n && (#[trigger] recs[j]).name == n
                                    && recs[j].tag == t && !rest[i].groups.contains_key(t);
                            assert(files[i + 1].name == n);
                        },
                        Result::Err(SanityErrorV::FileQuerySetChanged(n, t)) => {
                            let (i, j) = choose|i: int, j: int|
                                0 <= i < rest.len() && 0 <= j < recs.len() && (
                                #[trigger] rest[i]).name == n && (#[trigger] recs[j]).name == n
                                    && recs[j].tag == t && rest[i].groups.contains_key(t)
                                    && rest[i].groups[t].hash != recs[j].hash;
                            assert(files[i + 1].name == n);
                        },
                        Result::Err(SanityErrorV::FileNotMigrated(n)) => {
                            let i = choose|i: int|
                                0 <= i < rest.len() && (#[trigger] rest[i]).name == n;
                            assert(files[i + 1].name == n);
                        },
                        _ => {},
                    }
                }
            },
        }
    }
}

proof fn lemma_check_orphans_err_sound(recs: Seq<MigrationInstanceV>, files: Seq<SQLFileV>)
    ensures
        match spec_check_orphans(recs, files) {
            Result::Err(SanityErrorV::FileNoExist(n)) => has_record_named(recs, n)
                && !file_names_contain(files, n),
            Result::Err(_) => false,
            Result::Ok(_) => true,
        },
    decreases recs.len(),
{
    if recs.len() > 0 {
        let rest = recs.drop_first();
        lemma_check_orphans_err_sound(rest, files);
        assert(forall|j: int| 0 <= j < rest.len() ==> rest[j] == recs[j + 1]);
        if file_names_contain(files, recs[0].name) {
            match spec_check_orphans(rest, files) {
                Result::Err(SanityErrorV::FileNoExist(n)) => {
                    let j = choose|j: int| 0 <= j < rest.len() && (#[trigger] rest[j]).name == n;
                    assert(recs[j + 1].name == n);
                },
                _ => {},
            }
        } else {
            assert(recs[0].name == recs[0].name);
        }
    }
}

/// Every finding names a genuine violation: a tag the named file no longer
/// defines, a hash that truly differs for the named file and tag, a named
/// file with no record, or a named record whose file is gone.
pub proof fn lemma_sanity_err_sound(
    recs: Seq<MigrationInstanceV>,
    files: Seq<SQLFileV>,
    ignore_new_files: bool,
)
    ensures
        match spec_sanity(recs, files, ignore_new_files) {
            Result::Err(SanityErrorV::FileNoContainTag(n, t)) => exists|i: int, j: int|
                0 <= i < files.len() && 0 <= j < recs.len() && (#[trigger] files[i]).name == n && (
                #[trigger] recs[j]).name == n && recs[j].tag == t && !files[i].groups.contains_key(
                    t,
                ),
            Result::Err(SanityErrorV::FileQuerySetChanged(n, t)) => exists|i: int, j: int|
                0 <= i < files.len() && 0 <= j < recs.len() && (#[trigger] files[i]).name == n && (
                #[trigger] recs[j]).name == n && recs[j].tag == t && files[i].groups.contains_key(t)
                    && files[i].groups[t].hash != recs[j].hash,
            Result::Err(SanityErrorV::FileNotMigrated(n)) => !ignore_new_files
                && file_names_contain(files, n) && !has_record_named(recs, n),
            Result::Err(SanityErrorV::FileNoExist(n)) => has_record_named(recs, n)
                && !file_names_contain(files, n),
            Result::Ok(_) => true,
        },
{
    lemma_check_files_err_sound(files, recs, ignore_new_files);
    lemma_check_orphans_err_sound(recs, files);
}

} // verus!
