use rfdb::graph::normalize_db_path;

#[test]
fn test_normalize_db_path_no_extension() {
    let path = normalize_db_path("/path/to/db");
    assert_eq!(path, "/path/to/db.rfdb");
}

#[test]
fn test_normalize_db_path_with_rfdb_extension() {
    let path = normalize_db_path("/path/to/db.rfdb");
    assert_eq!(path, "/path/to/db.rfdb");
}

#[test]
fn test_normalize_db_path_with_other_extension() {
    let path = normalize_db_path("/path/to/db.db");
    assert_eq!(path, "/path/to/db.rfdb");
}

#[test]
fn test_normalize_db_path_with_json_extension() {
    let path = normalize_db_path("/path/to/database.json");
    assert_eq!(path, "/path/to/database.rfdb");
}

#[test]
fn test_normalize_db_path_relative() {
    let path = normalize_db_path("mydb");
    assert_eq!(path, "mydb.rfdb");
}

#[test]
fn test_normalize_db_path_relative_with_extension() {
    let path = normalize_db_path("mydb.sqlite");
    assert_eq!(path, "mydb.rfdb");
}
