use deadlocked::keyvalues::{parse, Value};

#[test]
fn keyvalues_keep_duplicate_keys_in_order() {
    let root = parse("\"a\" \"1\" \"a\" \"2\" // comment\n \"b\" { \"c\" \"3\" }");
    assert_eq!(root.len(), 3);
    assert_eq!(root[0].0, "a");
    assert_eq!(root[0].1.as_str(), Some("1"));
    assert_eq!(root[1].1.as_str(), Some("2"));
    assert_eq!(root[2].0, "b");
    let block = root[2].1.as_block().expect("block");
    assert_eq!(block.len(), 1);
    assert_eq!(block[0].0, "c");
    assert_eq!(block[0].1.as_str(), Some("3"));
    assert!(root[2].1.as_str().is_none());
    assert!(root[0].1.as_block().is_none());
}

#[test]
fn keyvalues_unterminated_block_ends_at_end_of_text() {
    let root = parse("\"k\" { \"x\" \"y\"");
    assert_eq!(root.len(), 1);
    match &root[0].1 {
        Value::Block(b) => assert_eq!(b.len(), 1),
        Value::Str(_) => panic!("expected a block"),
    }
}

#[test]
fn keyvalues_empty_text_gives_nothing() {
    assert!(parse("").is_empty());
    assert!(parse("// only a comment").is_empty());
}
