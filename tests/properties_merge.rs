use mcmod::properties::{key_less, merge_properties, PropertyMap};

fn map_of(pairs: &[(&str, &str)]) -> PropertyMap {
    PropertyMap::from_pairs(pairs.iter().map(|(k, v)| (k.to_string(), v.to_string())).collect())
}

#[test]
fn merge_into_absent_file_appends_in_key_order() {
    let m = map_of(&[("modName", "Foo"), ("modId", "foo")]);
    assert_eq!(merge_properties("", &m), "modId=foo\nmodName=Foo\n");
}

#[test]
fn property_map_keeps_keys_sorted() {
    let mut m = map_of(&[("zeta", "1"), ("Alpha", "2"), ("mid", "3")]);
    m.insert("beta".to_string(), "4".to_string());
    let keys: Vec<String> = m.entries().into_iter().map(|(k, _)| k).collect();
    assert_eq!(keys, vec!["Alpha", "beta", "mid", "zeta"]);
    assert!(key_less(&"ab".to_string(), &"b".to_string()));
    assert!(key_less(&"a".to_string(), &"ab".to_string()));
    assert!(!key_less(&"b".to_string(), &"b".to_string()));
    assert!(key_less(&"Z".to_string(), &"a".to_string()));
}

#[test]
fn merge_replaces_active_and_revives_commented_keys() {
    let m = map_of(&[("a", "1"), ("b", "2")]);
    let existing = "a=0\n# b = old\n";
    assert_eq!(merge_properties(existing, &m), "a = 1\nb = 2\n");
}

#[test]
fn merge_keeps_unrelated_lines_byte_for_byte() {
    let m = map_of(&[("key", "v")]);
    let existing = "# a comment\n\n   \nno equals here\nother = x \nkey=old\n";
    assert_eq!(
        merge_properties(existing, &m),
        "# a comment\n\n   \nno equals here\nother = x \nkey = v\n"
    );
}

#[test]
fn merge_line_without_equals_is_never_a_key() {
    let m = map_of(&[("key", "v")]);
    assert_eq!(merge_properties("key\n", &m), "key\nkey=v\n");
}

#[test]
fn merge_only_first_occurrence_is_rewritten() {
    let m = map_of(&[("k", "new")]);
    assert_eq!(merge_properties("k=1\nk=2\n", &m), "k = new\nk=2\n");
}

#[test]
fn merge_trims_key_and_drops_crlf() {
    let m = map_of(&[("k", "v")]);
    assert_eq!(merge_properties("  k  = 1\r\nx=y\r\nlast", &m), "k = v\nx=y\nlast\n");
}

#[test]
fn merge_twice_is_stable_when_keys_present() {
    let m = map_of(&[("a", "1"), ("b", "2")]);
    let once = merge_properties("a=0\n# b=9\n\nc=3\n", &m);
    let twice = merge_properties(&once, &m);
    assert_eq!(once, twice);
    assert_eq!(once, "a = 1\nb = 2\n\nc=3\n");
}

#[test]
fn merge_appended_key_is_rewritten_on_second_pass() {
    let m = map_of(&[("a", "1")]);
    let once = merge_properties("", &m);
    assert_eq!(once, "a=1\n");
    assert_eq!(merge_properties(&once, &m), "a = 1\n");
}

#[test]
fn property_map_insert_keeps_place_and_order() {
    let mut m = map_of(&[("x", "1"), ("y", "2")]);
    m.insert("x".to_string(), "3".to_string());
    m.insert("z".to_string(), "4".to_string());
    assert_eq!(m.len(), 3);
    assert_eq!(m.get("x"), Some("3".to_string()));
    assert_eq!(m.get("w"), None);
    let e = m.entries();
    assert_eq!(e[0], ("x".to_string(), "3".to_string()));
    assert_eq!(e[2], ("z".to_string(), "4".to_string()));
}

#[test]
fn property_map_extend_overrides() {
    let mut m = map_of(&[("a", "1"), ("b", "2")]);
    let o = map_of(&[("b", "override"), ("c", "3")]);
    m.extend(&o);
    assert_eq!(
        m.entries(),
        vec![
            ("a".to_string(), "1".to_string()),
            ("b".to_string(), "override".to_string()),
            ("c".to_string(), "3".to_string())
        ]
    );
}
