use lucid::dispatch::most_specific_accepting;

fn lists(items: &[&[&str]]) -> Vec<Vec<String>> {
    items.iter().map(|l| l.iter().map(|s| s.to_string()).collect()).collect()
}

fn names(items: &[&str]) -> Vec<String> {
    items.iter().map(|s| s.to_string()).collect()
}

#[test]
fn dispatch_picks_most_specific_accepting_entry() {
    let entries = lists(&[&["int", "int"], &["object", "str"], &["object", "object"]]);
    assert_eq!(most_specific_accepting(&entries, &names(&["int", "int"])), Some(0));
    assert_eq!(most_specific_accepting(&entries, &names(&["int", "str"])), Some(1));
    assert_eq!(most_specific_accepting(&entries, &names(&["float", "float"])), Some(2));
}

#[test]
fn dispatch_needs_matching_arity() {
    let entries = lists(&[&["int", "int"], &["object", "object"]]);
    assert_eq!(most_specific_accepting(&entries, &names(&["int"])), None);
    assert_eq!(most_specific_accepting(&entries, &names(&[])), None);
    assert_eq!(most_specific_accepting(&lists(&[&[]]), &names(&[])), Some(0));
}

#[test]
fn dispatch_object_is_the_only_wildcard() {
    let entries = lists(&[&["str"], &["Shape"]]);
    assert_eq!(most_specific_accepting(&entries, &names(&["int"])), None);
    assert_eq!(most_specific_accepting(&entries, &names(&["Shape"])), Some(1));
}

#[test]
fn dispatch_prefers_the_most_specific_entry() {
    let entries = lists(&[&["object"], &["int"], &["int"]]);
    assert_eq!(most_specific_accepting(&entries, &names(&["int"])), Some(1));
    assert_eq!(most_specific_accepting(&entries, &names(&["str"])), Some(0));
    let pairs = lists(&[&["object", "object"], &["Vector2D", "object"], &["object", "float"]]);
    assert_eq!(most_specific_accepting(&pairs, &names(&["Vector2D", "float"])), Some(1));
    assert_eq!(most_specific_accepting(&pairs, &names(&["int", "float"])), Some(2));
}

#[test]
fn runtime_error_keeps_message_and_span() {
    let e = lucid::dispatch::RuntimeError { message: "division by zero".to_string(), span: lucid::token::Span::new(3, 4, 1, 4) };
    let c = e.clone();
    assert_eq!(c, e);
    assert_eq!(c.message, "division by zero");
}
