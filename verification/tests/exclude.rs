use bridgent::exclude::{add_entry, entry_state, remove_entry};

#[test]
fn add_to_empty_file() {
    let out = add_entry("", ".pi").unwrap();
    assert_eq!(out, "# bridgent: .pi\n/.pi\n");
}

#[test]
fn add_keeps_content_and_ends_line() {
    let out = add_entry("*.log", ".pi").unwrap();
    assert_eq!(out, "*.log\n# bridgent: .pi\n/.pi\n");
    let out = add_entry("*.log\n", ".codex").unwrap();
    assert_eq!(out, "*.log\n# bridgent: .codex\n/.codex\n");
}

#[test]
fn add_strips_leading_slashes_from_pattern_only() {
    let out = add_entry("", "//.pi").unwrap();
    assert_eq!(out, "# bridgent: //.pi\n/.pi\n");
}

#[test]
fn add_is_idempotent() {
    let once = add_entry("x\n", ".pi").unwrap();
    assert_eq!(add_entry(&once, ".pi"), None);
}

#[test]
fn add_skips_existing_pattern_forms() {
    assert_eq!(add_entry("/.pi\n", ".pi"), None);
    assert_eq!(add_entry("/.pi/\n", ".pi"), None);
    assert_eq!(add_entry("/.pi   \r\n", ".pi"), None);
    assert!(add_entry("/.pix\n", ".pi").is_some());
}

#[test]
fn state_after_add() {
    let out = add_entry("", ".github/copilot-instructions.md").unwrap();
    assert_eq!(entry_state(&out, ".github/copilot-instructions.md"), (true, true));
    assert_eq!(entry_state("/.pi\n", ".pi"), (true, false));
    assert_eq!(entry_state("# bridgent: .pi\n", ".pi"), (false, true));
    assert_eq!(entry_state("", ".pi"), (false, false));
    assert_eq!(entry_state("/.pi/\n", ".pi"), (false, false));
}

#[test]
fn remove_undoes_add() {
    let base = "*.log\n/target\n";
    let added = add_entry(base, ".pi").unwrap();
    assert_eq!(remove_entry(&added, ".pi").unwrap(), base);
    assert_eq!(remove_entry(&add_entry("", ".pi").unwrap(), ".pi").unwrap(), "");
}

#[test]
fn remove_keeps_user_entry_without_marker() {
    assert_eq!(remove_entry("/.pi\n", ".pi"), None);
    assert_eq!(remove_entry("a\n", ".pi"), None);
    assert_eq!(remove_entry("# bridgent: .pi\n", ".pi"), None);
}

#[test]
fn remove_drops_marker_and_pattern_lines() {
    let content = "a\n# bridgent: .pi\nb\n/.pi\r\nc";
    assert_eq!(remove_entry(content, ".pi").unwrap(), "a\nb\nc\n");
    let out = remove_entry("# bridgent: .pi\n/.pi\n", ".pi").unwrap();
    assert_eq!(out, "");
    assert_eq!(entry_state(&out, ".pi"), (false, false));
}

#[test]
fn remove_twice_removes_nothing() {
    let added = add_entry("keep\n", ".pi").unwrap();
    let once = remove_entry(&added, ".pi").unwrap();
    assert_eq!(once, "keep\n");
    assert_eq!(remove_entry(&once, ".pi"), None);
}

#[test]
fn remove_normalizes_crlf_of_kept_lines() {
    let content = "a\r\n# bridgent: .pi\r\n/.pi\r\n";
    assert_eq!(remove_entry(content, ".pi").unwrap(), "a\n");
}

#[test]
fn second_add_writes_nothing() {
    for rel in ["", ".pi", ".github/x.md"] {
        let once = bridgent::exclude::add_entry("keep\n", rel).unwrap();
        assert!(once.starts_with("keep\n"));
        assert!(bridgent::exclude::add_entry(&once, rel).is_none());
    }
}
