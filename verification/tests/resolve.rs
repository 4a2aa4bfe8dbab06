use camello::resolve::{decimal_string, fnv, module_file, Cache, Origin, Resolver};
use std::path::PathBuf;

fn path_of(parts: &[&str]) -> String {
    let mut path = PathBuf::new();
    for part in parts {
        path.push(part);
    }
    path.to_string_lossy().into_owned()
}

#[test]
fn a_module_name_becomes_a_path() {
    assert_eq!(module_file("Foo::Bar"), Some(path_of(&["Foo", "Bar.pm"])));
    assert_eq!(module_file("Foo"), Some(path_of(&["Foo.pm"])));
    assert_eq!(module_file("Foo::"), None);
    assert_eq!(module_file(""), None);
    assert_eq!(module_file("../etc/passwd"), None);
}

#[test]
fn a_pragma_is_not_worth_resolving() {
    assert!(!Resolver::worth_resolving("strict"));
    assert!(!Resolver::worth_resolving("parent"));
    assert!(Resolver::worth_resolving("Foo::Bar"));
}

#[test]
fn the_key_changes_with_the_contents() {
    let path = "nowhere.pm";
    assert_ne!(Cache::key(path, 0, 0, "a", ""), Cache::key(path, 0, 0, "b", ""));
    assert_eq!(Cache::key(path, 0, 0, "a", ""), Cache::key(path, 0, 0, "a", ""));
    assert_ne!(Cache::key(path, 0, 0, "a", ""), Cache::key(path, 0, 0, "a", "A=B"));
}

#[test]
fn the_key_names_the_size_and_the_time() {
    let key = Cache::key("nowhere.pm", 12, 345, "a", "");
    assert!(key.ends_with("-12-345"), "{key}");
    assert_eq!(key.len(), 16 + "-12-345".len());
    assert_ne!(key, Cache::key("nowhere.pm", 13, 345, "a", ""));
}

#[test]
fn fnv_of_nothing_is_the_offset_basis() {
    assert_eq!(fnv(b""), 0xcbf2_9ce4_8422_2325);
    assert_eq!(fnv(b"a"), 0xaf63_dc4c_8601_ec8c);
}

#[test]
fn a_decimal_string_is_the_number_written_out() {
    assert_eq!(decimal_string(0), "0");
    assert_eq!(decimal_string(1234), "1234");
    assert_eq!(decimal_string(u64::MAX), u64::MAX.to_string());
}

#[test]
fn a_disabled_cache_has_no_entries() {
    let cache = Cache::disabled();
    assert!(!cache.is_enabled());
    assert_eq!(cache.entry_path("k"), None);
    let cache = Cache::new(Some("dir".to_string()));
    assert!(cache.is_enabled());
    assert_eq!(cache.entry_path("k"), Some(path_of(&["dir", "k.json"])));
}

#[test]
fn candidates_search_roots_then_stubs_then_inc() {
    let resolver = Resolver::new(
        vec!["lib".to_string()],
        vec!["stubs".to_string()],
        vec!["/usr/share/perl5".to_string()],
    );
    let candidates = resolver.candidates("Foo::Bar").unwrap();
    assert_eq!(candidates.len(), 3);
    assert_eq!(candidates[0].0, path_of(&["lib", "Foo", "Bar.pm"]));
    assert!(candidates[0].1.in_roots());
    assert!(!candidates[1].1.in_roots());
    assert_eq!(
        resolver.locate("Foo::Bar", &vec![false, true, true]).map(|(p, _)| p),
        Some(path_of(&["stubs", "Foo", "Bar.pm"]))
    );
    assert!(resolver.locate("Foo::Bar", &vec![false, false, false]).is_none());
    assert!(resolver.candidates("../x").is_none());
    let _ = Origin::Root;
}
