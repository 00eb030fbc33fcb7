use routerify::PathParams;

#[test]
fn new_params_are_empty() {
    let p = PathParams::new();
    assert_eq!(p.len(), 0);
    assert!(!p.has(&"id".to_string()));
    assert_eq!(p.get(&"id".to_string()), None);
}

#[test]
fn with_capacity_is_empty() {
    let p = PathParams::with_capacity(8);
    assert_eq!(p.len(), 0);
}

#[test]
fn set_then_get() {
    let mut p = PathParams::new();
    p.set("id".to_string(), "42".to_string());
    assert!(p.has(&"id".to_string()));
    assert_eq!(p.get(&"id".to_string()), Some(&"42".to_string()));
    assert_eq!(p.len(), 1);
}

#[test]
fn set_same_name_replaces() {
    let mut p = PathParams::new();
    p.set("id".to_string(), "1".to_string());
    p.set("id".to_string(), "2".to_string());
    assert_eq!(p.len(), 1);
    assert_eq!(p.get(&"id".to_string()), Some(&"2".to_string()));
}

#[test]
fn names_and_pairs() {
    let mut p = PathParams::new();
    p.set("a".to_string(), "1".to_string());
    p.set("b".to_string(), "2".to_string());
    let mut names = p.params_names();
    names.sort();
    assert_eq!(names, vec!["a".to_string(), "b".to_string()]);
    let mut pairs = p.iter();
    pairs.sort();
    assert_eq!(
        pairs,
        vec![("a".to_string(), "1".to_string()), ("b".to_string(), "2".to_string())]
    );
}

#[test]
fn extend_other_wins() {
    let mut p = PathParams::new();
    p.set("a".to_string(), "1".to_string());
    p.set("b".to_string(), "2".to_string());
    let mut q = PathParams::new();
    q.set("b".to_string(), "3".to_string());
    q.set("c".to_string(), "4".to_string());
    p.extend(q);
    assert_eq!(p.len(), 3);
    assert_eq!(p.get(&"a".to_string()), Some(&"1".to_string()));
    assert_eq!(p.get(&"b".to_string()), Some(&"3".to_string()));
    assert_eq!(p.get(&"c".to_string()), Some(&"4".to_string()));
}
