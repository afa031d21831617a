use picbad::schema::{images_table_needs_rebuild, needs_api_key_column};

#[test]
fn api_key_column_detection() {
    let cols: Vec<String> = ["id", "username", "token"].iter().map(|s| s.to_string()).collect();
    assert!(needs_api_key_column(&cols));
    let mut with = cols.clone();
    with.push("api_key".to_string());
    assert!(!needs_api_key_column(&with));
    assert!(needs_api_key_column(&Vec::new()));
}

#[test]
fn images_rebuild_detection() {
    let old = "CREATE TABLE images (id TEXT PRIMARY KEY, sha256 TEXT NOT NULL UNIQUE, ext TEXT)";
    let new = "CREATE TABLE images (id TEXT PRIMARY KEY, sha256 TEXT NOT NULL, ext TEXT)";
    assert!(images_table_needs_rebuild(Some(old)));
    assert!(!images_table_needs_rebuild(Some(new)));
    assert!(!images_table_needs_rebuild(None));
    assert!(!images_table_needs_rebuild(Some("")));
}
