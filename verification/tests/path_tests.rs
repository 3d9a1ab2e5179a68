use netidx::path::{append, canonical};

#[test]
fn canonical_paths() {
    assert_eq!(canonical("/app/v0"), Some(String::from("/app/v0")));
    assert_eq!(canonical("/app/v0/"), Some(String::from("/app/v0")));
    assert_eq!(canonical("/app/v0///"), Some(String::from("/app/v0")));
    assert_eq!(canonical("/"), Some(String::from("/")));
    assert_eq!(canonical("//"), Some(String::from("/")));
    assert_eq!(canonical(""), None);
    assert_eq!(canonical("app/v0"), None);
    // an empty component inside the name is forbidden
    assert_eq!(canonical("/app//v0"), None);
    // canonicalizing is idempotent
    let once = canonical("/a/b/").unwrap();
    assert_eq!(canonical(&once), Some(once.clone()));
}

#[test]
fn append_components() {
    assert_eq!(append("/", "app"), String::from("/app"));
    assert_eq!(append("/app", "v0"), String::from("/app/v0"));
    let built = append(&append("/", "bench"), "0");
    assert_eq!(built, String::from("/bench/0"));
    assert_eq!(canonical(&built), Some(built.clone()));
}
