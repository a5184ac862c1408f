use spd::table::StringMap;

fn s(x: &str) -> String {
    x.to_string()
}

#[test]
fn insert_then_get_gives_back_the_value() {
    let mut m = StringMap::new();
    assert!(m.is_empty());
    m.insert(s("a"), s("1"));
    m.insert(s("b"), s("2"));
    assert_eq!(m.get("a"), Some(&s("1")));
    assert_eq!(m.get("b"), Some(&s("2")));
    assert_eq!(m.get("c"), None);
    assert!(m.contains_key("a"));
    assert!(!m.contains_key("c"));
    assert_eq!(m.len(), 2);
    assert!(!m.is_empty());
}

#[test]
fn overwriting_keeps_the_place_of_the_key() {
    let mut m = StringMap::new();
    m.insert(s("a"), s("1"));
    m.insert(s("b"), s("2"));
    m.insert(s("a"), s("3"));
    assert_eq!(m.len(), 2);
    assert_eq!(m.entry(0), (&s("a"), &s("3")));
    assert_eq!(m.entry(1), (&s("b"), &s("2")));
    assert_eq!(m.position("b"), Some(1));
    assert_eq!(m.position("z"), None);
}

#[test]
fn copies_have_the_same_entries() {
    let mut m = StringMap::new();
    m.insert(s("k"), s("v"));
    m.insert(s("l"), s("w"));
    let c = m.copied();
    assert_eq!(c.len(), 2);
    assert_eq!(c.entry(0), (&s("k"), &s("v")));
    assert_eq!(c.entry(1), (&s("l"), &s("w")));
}
