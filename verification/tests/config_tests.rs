use picbad::config::{join_path, Config};

fn config(dir: &str) -> Config {
    Config {
        bind: "0.0.0.0:8080".to_string(),
        data_dir: dir.to_string(),
        database_url: "sqlite://data/picbad.sqlite".to_string(),
        cache_max_bytes: 2 * 1024 * 1024 * 1024,
        max_upload_bytes: 50 * 1024 * 1024,
        admin_user: "admin".to_string(),
        admin_password: "PicbadAdmin123!".to_string(),
    }
}

#[test]
fn data_subdirectories() {
    let c = config("./data");
    assert_eq!(c.originals_dir(), "./data/originals");
    assert_eq!(c.cache_dir(), "./data/cache");
    assert_eq!(config("/srv/").cache_dir(), "/srv/cache");
    assert_eq!(config("").originals_dir(), "originals");
}

#[test]
fn join_like_path_join() {
    assert_eq!(join_path("a/b", "c.png"), "a/b/c.png");
    assert_eq!(join_path("a/b", "/abs"), "/abs");
    assert_eq!(join_path("a/", "c"), "a/c");
    for (base, name) in [("a/b", "c.png"), ("a/", "c"), ("", "c"), ("x", "/y")] {
        let expected = std::path::Path::new(base).join(name);
        assert_eq!(join_path(base, name), expected.to_str().unwrap());
    }
}
