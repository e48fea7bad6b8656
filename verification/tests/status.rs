use bridgent::doctor::DoctorReport;
use bridgent::link::Entry;
use bridgent::status::{describe_status, path_status, status_line, Observed, PathStatus};

#[test]
fn symlink_to_existing_target() {
    let st = path_status("/r", "/r/.pi", ".pi", "# bridgent: .pi\n/.pi\n", &Entry::Symlink("/".to_string()), true);
    assert_eq!(st.path, ".pi");
    assert_eq!(st.kind, "symlink");
    assert_eq!(st.target.as_deref(), Some("/"));
    assert!(st.excluded && st.exclude_marked);
    assert!(st.note.is_none());
    let st = path_status("/r", "/r/.pi", ".pi", "", &Entry::Symlink("t".to_string()), false);
    assert_eq!(st.kind, "dangling");
    assert_eq!(st.target.as_deref(), Some("/r/t"));
}

#[test]
fn dangling_symlink() {
    let st = path_status("/r", "/r/.pi", ".pi", "/.pi\n", &Entry::Symlink("/bridgent-no-such-dir/x/../y".to_string()), false);
    assert_eq!(st.kind, "dangling");
    assert_eq!(st.target.as_deref(), Some("/bridgent-no-such-dir/y"));
    assert!(st.excluded && !st.exclude_marked);
    assert_eq!(st.note.as_deref(), Some("target does not exist (dangling)"));
}

#[test]
fn status_reads_the_path_as_given() {
    // `link ./.pi` writes the entry for `.pi`; status of `.pi` finds it,
    // status of `./.pi` looks for `/./.pi` and does not.
    let content = bridgent::exclude::add_entry("", &bridgent::link::managed_rel("./.pi")).unwrap();
    let st = path_status("/r", "/r/.pi", ".pi", &content, &Entry::Symlink("/".to_string()), true);
    assert!(st.excluded && st.exclude_marked);
    assert_eq!(st.target.as_deref(), Some("/"));
    let st = path_status("/r", "/r/./.pi", "./.pi", &content, &Entry::Symlink("/".to_string()), true);
    assert_eq!(st.path, "./.pi");
    assert!(!st.excluded && !st.exclude_marked);
    let st = path_status("/r", "/r/.pi", "/.pi", "/.pi\n", &Entry::Missing, false);
    assert!(st.excluded && !st.exclude_marked);
}

#[test]
fn real_objects_and_missing() {
    let st = describe_status(".pi", false, false, &Observed::Dir);
    assert_eq!(st.kind, "real_dir");
    assert_eq!(st.note.as_deref(), Some("not a symlink; bridgent will not touch it"));
    let st = describe_status(".pi", false, false, &Observed::File);
    assert_eq!(st.kind, "real_file");
    let st = path_status("/r", "/r/.pi", ".pi", "/.pi\n", &Entry::Missing, false);
    assert_eq!(st.kind, "missing");
    assert_eq!(st.note.as_deref(), Some("excluded but missing (link broken?)"));
    let st = path_status("/r", "/r/.pi", ".pi", "", &Entry::Missing, false);
    assert!(st.note.is_none());
}

#[test]
fn text_line_is_padded() {
    let st = PathStatus {
        path: ".pi".to_string(),
        kind: "symlink".to_string(),
        target: Some("/t".to_string()),
        excluded: true,
        exclude_marked: true,
        note: None,
    };
    let expected = format!("{:<10} {:<10} -> {:<40} {} {}", ".pi", "symlink", "/t", "excluded (bridgent)", "");
    assert_eq!(status_line(&st), expected);
    let st = PathStatus {
        path: ".a-very-long-name".to_string(),
        kind: "missing".to_string(),
        target: None,
        excluded: false,
        exclude_marked: false,
        note: Some("n".to_string()),
    };
    let expected = format!("{:<10} {:<10} -> {:<40} {} {}", ".a-very-long-name", "missing", "-", "NOT excluded", "n");
    assert_eq!(status_line(&st), expected);
    let st = PathStatus {
        path: "x".to_string(),
        kind: "real_dir".to_string(),
        target: None,
        excluded: true,
        exclude_marked: false,
        note: None,
    };
    assert!(status_line(&st).contains("excluded (manual)"));
}

#[test]
fn doctor_summary() {
    let r = DoctorReport {
        git_root: Some("/r".to_string()),
        git_dir: Some("/r/.git".to_string()),
        exclude_path: None,
        exclude_writable: Some(false),
        symlink_ok: true,
        platform_note: String::new(),
    };
    assert_eq!(
        r.summary_lines("/r/sub"),
        vec![
            "repo root:   /r",
            "git dir:     /r/.git",
            "exclude:     -",
            "exclude dir: MISSING (git repo incomplete?)",
            "symlinks:    OK",
        ]
    );
    let r = DoctorReport {
        git_root: None,
        git_dir: None,
        exclude_path: None,
        exclude_writable: None,
        symlink_ok: false,
        platform_note: "p".to_string(),
    };
    assert_eq!(
        r.summary_lines("/x"),
        vec![
            "no git repository found from /x",
            "note: link/unlink/status need a git repo (unless --no-exclude is used)",
            "symlinks:    FAILED",
            "note: p",
        ]
    );
}
