use osprey::error::{OspreyError, SanityError};
use osprey::migrations::{
    MemoryMigrationRecordStorage, MigrationInstance, MigrationRecordStorage, Migrations,
};
use osprey::osprey::Osprey;
use osprey::sql_file::SQLFile;

fn parse(name: &str, text: &str) -> SQLFile {
    SQLFile::new_from_string(name, text).unwrap()
}

#[test]
fn test_migrate_applies_pending_groups() {
    let files = vec![
        parse("one", "-- tag:up\nCREATE TABLE a (x INT);"),
        parse("two", "-- tag:up\nCREATE TABLE b (x INT);\nCREATE TABLE c (x INT);"),
        parse("three", "-- tag:down\nDROP TABLE a;"),
    ];
    let mut storage = MemoryMigrationRecordStorage::new();
    let counts = Osprey::migrate(&mut storage, &files, "up").unwrap();
    assert_eq!(counts.query_sets, 2);
    assert_eq!(counts.queries, 3);

    let records = storage.get_all_records().unwrap();
    assert_eq!(records.len(), 2);
    assert_eq!(records[0].name, "one");
    assert_eq!(records[0].tag, "up");
    assert_eq!(records[1].name, "two");
    assert_eq!(records[1].tag, "up");
}

#[test]
fn test_migrate_twice_applies_nothing() {
    let files = vec![
        parse("one", "-- tag:up\nCREATE TABLE a (x INT);"),
        parse("two", "-- tag:up\nCREATE TABLE b (x INT);"),
    ];
    let mut storage = MemoryMigrationRecordStorage::new();

    let first = Osprey::migrate(&mut storage, &files, "up").unwrap();
    assert_eq!(first.query_sets, 2);
    assert_eq!(first.queries, 2);

    let second = Osprey::migrate(&mut storage, &files, "up").unwrap();
    assert_eq!(second.query_sets, 0);
    assert_eq!(second.queries, 0);

    let records = storage.get_all_records().unwrap();
    assert_eq!(records.len(), 2);
}

#[test]
fn test_migrate_records_group_hash() {
    let files = vec![parse("one", "-- tag:up\nCREATE TABLE a (x INT);")];
    let mut storage = MemoryMigrationRecordStorage::new();
    Osprey::migrate(&mut storage, &files, "up").unwrap();

    let records = storage.get_all_records().unwrap();
    let group = files[0].query_hash_map.get("up").unwrap();
    assert_eq!(records[0].hash, group.hash);
}

#[test]
fn test_sanity_passes_after_migrate() {
    let files = vec![
        parse("one", "-- tag:up\nCREATE TABLE a (x INT);"),
        parse("two", "-- tag:up\nCREATE TABLE b (x INT);"),
    ];
    let mut storage = MemoryMigrationRecordStorage::new();
    Osprey::migrate(&mut storage, &files, "up").unwrap();

    let verdict = Osprey::sanity(&mut storage, &files, false);
    assert!(verdict.is_ok());
}

#[test]
fn test_sanity_detects_drift() {
    let files = vec![parse("one", "-- tag:up\nCREATE TABLE a (x INT);")];
    let mut storage = MemoryMigrationRecordStorage::new();
    Osprey::migrate(&mut storage, &files, "up").unwrap();

    let edited = vec![parse("one", "-- tag:up\nCREATE TABLE a (x INT, y INT);")];
    let verdict = Osprey::sanity(&mut storage, &edited, false);
    match verdict {
        Err(OspreyError::Sanity(SanityError::FileQuerySetChanged(file, tag))) => {
            assert_eq!(file, "one");
            assert_eq!(tag, "up");
        }
        other => panic!("expected FileQuerySetChanged, got {:?}", other),
    }
}

#[test]
fn test_sanity_detects_missing_tag() {
    let files = vec![parse("one", "-- tag:up\nCREATE TABLE a (x INT);")];
    let mut storage = MemoryMigrationRecordStorage::new();
    Osprey::migrate(&mut storage, &files, "up").unwrap();

    let retagged = vec![parse("one", "-- tag:down\nDROP TABLE a;")];
    let verdict = Osprey::sanity(&mut storage, &retagged, false);
    match verdict {
        Err(OspreyError::Sanity(SanityError::FileNoContainTag(file, tag))) => {
            assert_eq!(file, "one");
            assert_eq!(tag, "up");
        }
        other => panic!("expected FileNoContainTag, got {:?}", other),
    }
}

#[test]
fn test_sanity_detects_orphan_record() {
    let files = vec![parse("one", "-- tag:up\nCREATE TABLE a (x INT);")];
    let mut storage = MemoryMigrationRecordStorage::new();
    Osprey::migrate(&mut storage, &files, "up").unwrap();

    let none: Vec<SQLFile> = vec![];
    let verdict = Osprey::sanity(&mut storage, &none, false);
    match verdict {
        Err(OspreyError::Sanity(SanityError::FileNoExist(file))) => {
            assert_eq!(file, "one");
        }
        other => panic!("expected FileNoExist, got {:?}", other),
    }
}

#[test]
fn test_sanity_detects_unmigrated_file() {
    let files = vec![parse("one", "-- tag:up\nCREATE TABLE a (x INT);")];
    let mut storage = MemoryMigrationRecordStorage::new();

    let verdict = Osprey::sanity(&mut storage, &files, false);
    match verdict {
        Err(OspreyError::Sanity(SanityError::FileNotMigrated(file))) => {
            assert_eq!(file, "one");
        }
        other => panic!("expected FileNotMigrated, got {:?}", other),
    }

    let ignoring = Osprey::sanity(&mut storage, &files, true);
    assert!(ignoring.is_ok());
}

#[test]
fn test_pending_indices_skips_recorded_files() {
    let files = vec![
        parse("one", "-- tag:up\nA;"),
        parse("two", "-- tag:up\nB;"),
        parse("three", "-- tag:down\nC;"),
    ];
    let recorded = vec![MigrationInstance::new(1, "one", "up", "h")];
    let pending = Osprey::pending_indices(&files, &recorded, "up");
    assert_eq!(pending, vec![1]);

    let nothing_recorded: Vec<MigrationInstance> = vec![];
    let pending = Osprey::pending_indices(&files, &nothing_recorded, "up");
    assert_eq!(pending, vec![0, 1]);
}

#[test]
fn test_instance_file_check_direct() {
    let files = vec![parse("one", "-- tag:up\nA;")];
    let group_hash = files[0].query_hash_map.get("up").unwrap().hash.clone();
    let records = vec![MigrationInstance::new(1, "one", "up", group_hash.as_str())];

    assert!(Osprey::instance_file_check(&records, &files, false).is_ok());

    let stale = vec![MigrationInstance::new(1, "one", "up", "0000")];
    let verdict = Osprey::instance_file_check(&stale, &files, false);
    assert!(matches!(
        verdict,
        Err(SanityError::FileQuerySetChanged(_, _))
    ));
}

#[test]
fn test_migrations_wrapper_round_trip() {
    let storage = MemoryMigrationRecordStorage::new();
    let mut migrations = Migrations::new(storage).unwrap();

    migrations
        .execute_queries(&["CREATE TABLE a (x INT);".to_string()])
        .unwrap();
    migrations.add_migration("aaaa", "one", "up").unwrap();
    migrations.add_migration("bbbb", "two", "down").unwrap();

    let ups = migrations.get_migrations_by_tag("up").unwrap();
    assert_eq!(ups.len(), 1);
    assert_eq!(ups[0].name, "one");
    assert_eq!(ups[0].hash, "aaaa");

    let all = migrations.get_migrations().unwrap();
    assert_eq!(all.len(), 2);
    assert_eq!(all[0].index, 0);
    assert_eq!(all[1].index, 1);
}
