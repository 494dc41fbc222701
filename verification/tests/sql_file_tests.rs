use osprey::error::SQLFileError;
use sha2::{Digest, Sha256};
use osprey::sql_file::{SQLFile, SyntaxErrorMessage};

fn check_sem(result: Result<SQLFile, SQLFileError>, se: SyntaxErrorMessage) -> bool {
    assert!(result.is_err());
    if let SQLFileError::SyntaxError(_, err) = result.err().unwrap() {
        assert_eq!(err, se);
        return true;
    }
    false
}

#[test]
fn test_valid_sql_file() {
    let valid_file = "\n-- tag:up \nSELECT * FROM atable WHERE *;";

    let sql_file = SQLFile::new_from_string("filename", valid_file);
    assert!(sql_file.is_ok());

    let file = sql_file.unwrap();
    assert_eq!(file.name.as_str(), "filename");
    assert!(file.query_hash_map.len() == 1);
    assert!(file.query_hash_map.contains_key(&"up".to_string()));
}

#[test]
fn test_no_query_with_tag() {
    let no_query = "\n-- tag:up";

    let sql_file = SQLFile::new_from_string("filename", no_query);
    assert!(check_sem(sql_file, SyntaxErrorMessage::NoQueryForTag));
}

#[test]
fn test_query_with_no_tag() {
    let no_tag = "SELECT * FROM atable WHERE *;";
    let maybe_sql_file = SQLFile::new_from_string("f", no_tag);
    assert!(check_sem(maybe_sql_file, SyntaxErrorMessage::QueryGivenNoTag));
}

#[test]
fn test_no_tag_name() {
    let no_tag_name = "\n-- tag:\nSELECT * FROM atable WHERE *;";
    let maybe_sql_file = SQLFile::new_from_string("f", no_tag_name);
    assert!(check_sem(maybe_sql_file, SyntaxErrorMessage::CouldNotParseTagName));
}

#[test]
fn test_unfinished_query() {
    let unfinished_query = "\n-- tag: up\nSELECT * FROM atable WHERE *";
    let maybe_sql_file = SQLFile::new_from_string("f", unfinished_query);
    assert!(check_sem(maybe_sql_file, SyntaxErrorMessage::EOFIncompleteQuery));
}

#[test]
fn test_query_set_no_query() {
    let queries = "\n-- tag:up\nSELECT * FROM atable WHERE *;\n-- tag:down\nSELECT * FROM atable WHERE *;\n-- tag:left\n-- tag:right\nSELECT * FROM atable WHERE *;";
    let maybe_sql_file = SQLFile::new_from_string("filename", queries);
    assert!(check_sem(maybe_sql_file, SyntaxErrorMessage::NoQueryForTag));
}

#[test]
fn test_multiline_query() {
    let multiline: &str = "-- tag: up \nSELECT * FROM \natable WHERE \nacolumn=avalue;\n";

    let maybe_sql_file = SQLFile::new_from_string("f", multiline);
    assert!(maybe_sql_file.is_ok());

    let sql_file = maybe_sql_file.unwrap();
    let maybe_query = sql_file.query_hash_map.get("up");
    assert!(maybe_query.is_some());

    let set = maybe_query.unwrap();
    assert!(set.queries.len() == 1);
    assert_eq!(&set.queries[0], "SELECT * FROM \natable WHERE \nacolumn=avalue;");
}

#[test]
fn test_multiquery_set() {
    let queries = "\n-- tag:up\nSELECT * FROM onetable WHERE *;\nSELECT * FROM twotable WHERE *;\nSELECT * FROM threetable WHERE *;";

    let maybe_sql_file = SQLFile::new_from_string("f", queries);
    assert!(maybe_sql_file.is_ok());

    let sql_file = maybe_sql_file.unwrap();
    let maybe_query_set = sql_file.query_hash_map.get("up");
    assert!(maybe_query_set.is_some());

    let set = maybe_query_set.unwrap();
    assert!(set.queries.len() == 3);

    assert_eq!(&set.queries[0], "SELECT * FROM onetable WHERE *;");
    assert_eq!(&set.queries[1], "SELECT * FROM twotable WHERE *;");
    assert_eq!(&set.queries[2], "SELECT * FROM threetable WHERE *;")
}

#[test]
fn test_comment_in_query() {
    let text = "-- tag:up\nSELECT *\n-- a comment mid-statement\nFROM atable;";
    let maybe_sql_file = SQLFile::new_from_string("f", text);
    assert!(check_sem(maybe_sql_file, SyntaxErrorMessage::CommentInQuery));
}

#[test]
fn test_tag_in_unfinished_query() {
    let text = "-- tag:up\nSELECT *\n-- tag:down\nFROM atable;";
    let maybe_sql_file = SQLFile::new_from_string("f", text);
    assert!(check_sem(maybe_sql_file, SyntaxErrorMessage::TagNameIncompleteQuery));
}

#[test]
fn test_no_queries_found() {
    let maybe_sql_file = SQLFile::new_from_string("f", "");
    assert!(check_sem(maybe_sql_file, SyntaxErrorMessage::NoQueriesFound));

    let comments_only = "-- nothing here\n\n-- still nothing\n";
    let maybe_sql_file = SQLFile::new_from_string("f", comments_only);
    assert!(check_sem(maybe_sql_file, SyntaxErrorMessage::NoQueriesFound));
}

#[test]
fn test_duplicate_tag_last_wins() {
    let text = "-- tag:up\nFIRST;\n-- tag:down\nSECOND;\n-- tag:up\nTHIRD;";
    let sql_file = SQLFile::new_from_string("f", text).unwrap();
    assert_eq!(sql_file.query_hash_map.len(), 2);
    let up = sql_file.query_hash_map.get("up").unwrap();
    assert_eq!(up.queries, vec!["THIRD;".to_string()]);
    let down = sql_file.query_hash_map.get("down").unwrap();
    assert_eq!(down.queries, vec!["SECOND;".to_string()]);
}

#[test]
fn test_statement_spans_blank_line() {
    let text = "-- tag:up\nSELECT *\n\nFROM atable;";
    let sql_file = SQLFile::new_from_string("f", text).unwrap();
    let up = sql_file.query_hash_map.get("up").unwrap();
    assert_eq!(up.queries.len(), 1);
    assert_eq!(&up.queries[0], "SELECT *\nFROM atable;");
}

#[test]
fn test_hash_deterministic() {
    let text = "\n-- tag:up \nSELECT * FROM atable WHERE *;\n-- tag:down\nDROP TABLE atable;";
    let first = SQLFile::new_from_string("a", text).unwrap();
    let second = SQLFile::new_from_string("b", text).unwrap();
    let up1 = first.query_hash_map.get("up").unwrap();
    let up2 = second.query_hash_map.get("up").unwrap();
    assert_eq!(up1.hash, up2.hash);
    let down1 = first.query_hash_map.get("down").unwrap();
    let down2 = second.query_hash_map.get("down").unwrap();
    assert_eq!(down1.hash, down2.hash);
    assert_ne!(up1.hash, down1.hash);
}

#[test]
fn test_hash_is_uppercase_sha256_of_concatenation() {
    let text = "-- tag:up\nONE;\nTWO;";
    let sql_file = SQLFile::new_from_string("f", text).unwrap();
    let up = sql_file.query_hash_map.get("up").unwrap();

    let mut hasher = Sha256::new();
    hasher.update("ONE;TWO;".as_bytes());
    let mut expected = String::new();
    for b in hasher.finalize().iter() {
        expected.push_str(&format!("{:02X}", b));
    }
    assert_eq!(up.hash, expected);
    assert_eq!(up.hash.len(), 64);
}
