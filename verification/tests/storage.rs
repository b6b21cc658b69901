use freebck::storage::file::{collection_item_key, get_collection_path, get_item_path, temp_file_name};
use freebck::storage::Collection;

#[test]
fn collection_paths() {
    assert_eq!(get_collection_path(Collection::Snapshot).components, ["snapshot"]);
    assert_eq!(get_collection_path(Collection::Blob).components, ["blob"]);
}

#[test]
fn item_paths_are_sharded_by_key_prefix() {
    let path = get_item_path(Collection::Blob, "Hello World!").ok().unwrap();
    assert_eq!(path.components, ["blob", "He", "llo World!"]);
    let path = get_item_path(Collection::Snapshot, "docs/1").ok().unwrap();
    assert_eq!(path.components, ["snapshot", "do", "cs/1"]);
    let path = get_item_path(Collection::Blob, "éa").ok().unwrap();
    assert_eq!(path.components, ["blob", "é", "a"]);
}

#[test]
fn short_keys_are_refused() {
    assert!(get_item_path(Collection::Blob, "ab").is_err());
    assert!(get_item_path(Collection::Blob, "").is_err());
    assert!(get_item_path(Collection::Blob, "abc").is_ok());
    // two characters but three bytes
    assert!(get_item_path(Collection::Blob, "éa").is_ok());
}

#[test]
fn different_keys_get_different_paths() {
    let a = get_item_path(Collection::Blob, "key_1").ok().unwrap();
    let b = get_item_path(Collection::Blob, "key_2").ok().unwrap();
    let c = get_item_path(Collection::Snapshot, "key_1").ok().unwrap();
    assert_ne!(a.components, b.components);
    assert_ne!(a.components, c.components);
}

#[test]
fn item_keys_from_listed_paths() {
    let parts = |v: &[&str]| v.iter().map(|s| s.to_string()).collect::<Vec<String>>();
    assert_eq!(collection_item_key(&parts(&["foo", "bar"])), "foobar");
    assert_eq!(collection_item_key(&parts(&["ke", "y_1"])), "key_1");
    assert_eq!(collection_item_key(&parts(&["do", "cs", "12"])), "docs/12");
    assert_eq!(collection_item_key(&parts(&["loose"])), "loose");
    assert_eq!(collection_item_key(&parts(&[])), "");
    let path = get_item_path(Collection::Snapshot, "key_3").ok().unwrap();
    assert_eq!(collection_item_key(&path.components[1..].to_vec()), "key_3");
    // the file system splits `cs/12` into a directory and a file
    let path = get_item_path(Collection::Snapshot, "docs/12").ok().unwrap();
    let mut listed = vec![path.components[1].clone()];
    listed.extend(path.components[2].split('/').map(|s| s.to_string()));
    assert_eq!(collection_item_key(&listed), "docs/12");
}

#[test]
fn temp_file_names_are_sixteen_alphanumerics() {
    let a = temp_file_name();
    let b = temp_file_name();
    assert_eq!(a.len(), 16);
    assert!(a.chars().all(|c| c.is_ascii_alphanumeric()));
    assert_ne!(a, b);
}
