use bridgent::project::{
    expand_tilde, find_git_root, git_marker_path, git_root_candidates, join, lexical_normalize, parent,
    repo_path, resolve_git_dirs, resolve_target, GitDirError, GitMarker,
    PathError,
};

#[test]
fn normalize_resolves_dots() {
    assert_eq!(lexical_normalize("/a/./b/../c"), "/a/c");
    assert_eq!(lexical_normalize("a/b/../../.."), "..");
    assert_eq!(lexical_normalize("../x/../y"), "../y");
    assert_eq!(lexical_normalize("./a//b/"), "a/b");
    assert_eq!(lexical_normalize("/.."), "/");
    assert_eq!(lexical_normalize("/../x"), "/x");
    assert_eq!(lexical_normalize("/a/../../b"), "/b");
    assert_eq!(lexical_normalize("/"), "/");
    assert_eq!(lexical_normalize(""), "");
    assert_eq!(lexical_normalize("."), "");
    assert_eq!(lexical_normalize(".pi/..x"), ".pi/..x");
}

#[test]
fn normalize_is_idempotent_on_examples() {
    for p in ["/a/./b/../c", "../../a/./b", "a/../../b/c/..", "/x/y/../../..", "./.hidden/./z"] {
        let once = lexical_normalize(p);
        assert_eq!(lexical_normalize(&once), once);
    }
}

#[test]
fn join_follows_pathbuf_push() {
    assert_eq!(join("/repo", ".pi"), "/repo/.pi");
    assert_eq!(join("/repo/", ".pi"), "/repo/.pi");
    assert_eq!(join("/repo", "/abs"), "/abs");
    assert_eq!(join("", "x"), "x");
}

#[test]
fn tilde_expansion() {
    assert_eq!(expand_tilde("~", Some("/home/u")), "/home/u");
    assert_eq!(expand_tilde("~/agents/x", Some("/home/u")), "/home/u/agents/x");
    assert_eq!(expand_tilde("~/agents", None), "~/agents");
    assert_eq!(expand_tilde("~x/y", Some("/home/u")), "~x/y");
    assert_eq!(expand_tilde(".bridgent/pi", Some("/home/u")), ".bridgent/pi");
}

#[test]
fn targets_are_resolved_from_root() {
    assert_eq!(resolve_target("/repo", ".bridgent/pi", None), "/repo/.bridgent/pi");
    assert_eq!(resolve_target("/repo", "../agents/./codex", None), "/agents/codex");
    assert_eq!(resolve_target("/repo", "~/agents/codex", Some("/home/u")), "/home/u/agents/codex");
    assert_eq!(resolve_target("/repo", "/abs/x/../y", None), "/abs/y");
    assert_eq!(resolve_target("/repo", "../../x", None), "/x");
}

#[test]
fn repo_paths_stay_inside() {
    assert_eq!(repo_path("/repo", ".pi", None, Some("/repo")).ok().unwrap(), "/repo/.pi");
    assert_eq!(
        repo_path("/repo", "/repo/.github/x.md", None, Some("/repo")).ok().unwrap(),
        "/repo/.github/x.md"
    );
    match repo_path("/repo", "/elsewhere/.pi", None, Some("/repo")) {
        Err(e @ PathError::Outside { .. }) => assert_eq!(
            e.message(),
            "path `/elsewhere/.pi` is outside the repository root `/repo`"
        ),
        _ => panic!("expected Outside"),
    }
    match repo_path("/repo", "../x", None, Some("/repo")) {
        Err(e @ PathError::Escapes { .. }) => {
            assert_eq!(e.message(), "path `../x` escapes the repository root via `..`")
        }
        _ => panic!("expected Escapes"),
    }
}

#[test]
fn repo_path_accepts_the_root_as_given() {
    assert_eq!(repo_path("/tmp/..", "x", None, None).ok().unwrap(), "/tmp/../x");
    assert_eq!(repo_path("/", "x", None, None).ok().unwrap(), "/x");
    assert_eq!(repo_path("/tmp/..", "x", None, Some("/")).ok().unwrap(), "/tmp/../x");
    assert_eq!(repo_path("/link", "/real/y", None, Some("/real")).ok().unwrap(), "/real/y");
    assert!(matches!(repo_path("/link", "/real/y", None, None), Err(PathError::Outside { .. })));
    // A root reached through a link: paths under either form are accepted.
    assert_eq!(repo_path("/link", ".pi", None, Some("/real")).ok().unwrap(), "/link/.pi");
    assert_eq!(repo_path("/link", "./.pi", None, Some("/real")).ok().unwrap(), "/link/./.pi");
    assert_eq!(repo_path("/link", "/real/.pi", None, Some("/real")).ok().unwrap(), "/real/.pi");
    assert!(matches!(repo_path("/link", "/other/.pi", None, Some("/real")), Err(PathError::Outside { .. })));
    assert!(matches!(repo_path("/link", "/real/../x", None, Some("/real")), Err(PathError::Escapes { .. })));
    assert!(matches!(repo_path("/link", "a/../../x", None, Some("/real")), Err(PathError::Escapes { .. })));
}

#[test]
fn parents_and_candidates() {
    assert_eq!(parent("/a/b", "/r"), "/a");
    assert_eq!(parent("/a", "/r"), "/");
    assert_eq!(parent("/", "/r"), "/r");
    assert_eq!(parent("a", "/r"), "");
    assert_eq!(git_root_candidates("/a/b"), vec!["/a/b", "/a", "/"]);
    assert_eq!(git_root_candidates("a/b"), vec!["a/b", "a", ""]);
    assert_eq!(git_root_candidates("/"), vec!["/"]);
}

#[test]
fn git_markers_are_probed_in_each_candidate() {
    assert_eq!(git_marker_path("/a/b"), "/a/b/.git");
    assert_eq!(git_marker_path("/"), "/.git");
    assert_eq!(git_marker_path(""), ".git");
    let probed: Vec<String> = git_root_candidates("/a/b").iter().map(|c| git_marker_path(c)).collect();
    assert_eq!(probed, vec!["/a/b/.git", "/a/.git", "/.git"]);
}

#[test]
fn git_dirs_of_a_plain_repository() {
    let (root, git, exclude) = resolve_git_dirs("/repo", &GitMarker::Dir, None).ok().unwrap();
    assert_eq!(root, "/repo");
    assert_eq!(git, "/repo/.git");
    assert_eq!(exclude, "/repo/.git/info/exclude");
}

#[test]
fn git_dirs_of_a_worktree() {
    let file = GitMarker::File("gitdir: /main/.git/worktrees/wt \n".to_string());
    let (_, git, exclude) = resolve_git_dirs("/wt", &file, None).ok().unwrap();
    assert_eq!(git, "/main/.git/worktrees/wt");
    assert_eq!(exclude, "/main/.git/worktrees/wt/info/exclude");
    let rel = GitMarker::File("x\ngitdir: ../main/.git\n".to_string());
    let (_, git, _) = resolve_git_dirs("/wt", &rel, None).ok().unwrap();
    assert_eq!(git, "/wt/../main/.git");
    let home = GitMarker::File("gitdir: ~/m/.git".to_string());
    let (_, git, _) = resolve_git_dirs("/wt", &home, Some("/h")).ok().unwrap();
    assert_eq!(git, "/h/m/.git");
}

#[test]
fn git_dirs_errors() {
    match resolve_git_dirs("/r", &GitMarker::File("nothing\n".to_string()), None) {
        Err(e @ GitDirError::NoGitdirLine { .. }) => {
            assert_eq!(e.message(), "/r/.git is a file but has no `gitdir:` line")
        }
        _ => panic!("expected NoGitdirLine"),
    }
    match resolve_git_dirs("/r", &GitMarker::Other, None) {
        Err(e @ GitDirError::NotGit { .. }) => {
            assert_eq!(e.message(), "/r/.git is neither a directory nor a gitfile")
        }
        _ => panic!("expected NotGit"),
    }
}

#[test]
fn resolved_targets_are_normal() {
    for (root, raw) in [("/repo", "../a/./b/.."), ("/repo/", "x//y/"), ("/", "..")] {
        let t = resolve_target(root, raw, None);
        assert_eq!(lexical_normalize(&t), t);
    }
}

#[test]
fn first_root_found_wins() {
    assert_eq!(find_git_root("/a/b", &vec![false, true, true]), Some("/a".to_string()));
    assert_eq!(find_git_root("/a/b", &vec![true]), Some("/a/b".to_string()));
    assert_eq!(find_git_root("/a/b", &vec![false, false, true]), Some("/".to_string()));
    assert_eq!(find_git_root("/a/b", &vec![false, false, false]), None);
    assert_eq!(find_git_root("/a/b", &vec![false]), None);
    assert_eq!(find_git_root("a", &vec![false, true]), Some("".to_string()));
}
