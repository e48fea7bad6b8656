use bridgent::link::{
    link_root, LinkRoot,
    already_linked_message, already_linked_plan, decide_link, decide_unlink, is_yes, link_message, link_target,
    managed_rel, plan_link, unlink_message, Clear, Entry, Kind, LinkError, LinkFacts, LinkOpts,
    LinkQuery, LinkStep, Prep, UnlinkError, UnlinkFacts, UnlinkQuery, UnlinkStep,
};

fn opts() -> LinkOpts {
    LinkOpts { yes: false, no_exclude: false, dry_run: false, force: false, kind: Kind::Dir }
}

fn facts() -> LinkFacts {
    LinkFacts { entry: None, dir_empty: None, target_exists: None, confirmed: None }
}

#[test]
fn kind_names() {
    assert_eq!(Kind::Dir.as_str(), "dir");
    assert_eq!(Kind::File.as_str(), "file");
}

#[test]
fn managed_rel_strips_prefixes() {
    assert_eq!(managed_rel("./.pi"), ".pi");
    assert_eq!(managed_rel("././/.pi"), ".pi");
    assert_eq!(managed_rel("/.pi"), ".pi");
    assert_eq!(managed_rel(".pi"), ".pi");
}

#[test]
fn link_targets_are_read_from_the_link_directory() {
    assert_eq!(link_target("/r/.pi", "/r", ".bridgent/pi"), "/r/.bridgent/pi");
    assert_eq!(link_target("/r/.github/x.md", "/r", "../.bridgent/x.md"), "/r/.bridgent/x.md");
    assert_eq!(link_target("/r/.pi", "/r", "/abs/./t"), "/abs/t");
}

#[test]
fn link_asks_what_is_there_first() {
    assert!(matches!(decide_link("/r/.pi", "/r", "/r/.b/pi", &opts(), &facts()), LinkStep::Ask(LinkQuery::Entry)));
}

#[test]
fn existing_correct_link_is_kept() {
    let mut f = facts();
    f.entry = Some(Entry::Symlink("/r/.b/pi".to_string()));
    assert!(matches!(decide_link("/r/.pi", "/r", "/r/.b/pi", &opts(), &f), LinkStep::AlreadyLinked));
    f.entry = Some(Entry::Symlink(".b/pi".to_string()));
    assert!(matches!(decide_link("/r/.pi", "/r", "/r/.b/pi", &opts(), &f), LinkStep::AlreadyLinked));
    assert_eq!(
        already_linked_message("/r/.pi", "/r/.b/pi", true),
        "link /r/.pi -> /r/.b/pi already correct; exclude entry added"
    );
    let mut o = opts();
    o.dry_run = true;
    let plan = already_linked_plan(&o);
    assert!(plan.check_exclude && !plan.write_exclude && !plan.create_link);
    assert_eq!(already_linked_message("/r/.pi", "/r/.b/pi", false), "link /r/.pi -> /r/.b/pi already correct");
}

#[test]
fn link_elsewhere_needs_force() {
    let mut f = facts();
    f.entry = Some(Entry::Symlink("/other".to_string()));
    match decide_link("/r/.pi", "/r", "/r/.b/pi", &opts(), &f) {
        LinkStep::Fail(e @ LinkError::SymlinkElsewhere { .. }) => assert_eq!(
            e.message(),
            "/r/.pi is a symlink pointing to `/other`, not `/r/.b/pi`. Use --force to replace it."
        ),
        _ => panic!("expected refusal"),
    }
    let mut o = opts();
    o.force = true;
    assert!(matches!(decide_link("/r/.pi", "/r", "/r/.b/pi", &o, &f), LinkStep::Ask(LinkQuery::TargetExists)));
    f.target_exists = Some(true);
    match decide_link("/r/.pi", "/r", "/r/.b/pi", &o, &f) {
        LinkStep::Proceed(p @ Prep::ReplaceLink { create_target: false, .. }) => {
            let plan = plan_link(&p, "/r/.pi", "/r/.b/pi", &o);
            assert_eq!(plan.reports, vec!["info: replacing symlink /r/.pi (was -> /other)".to_string()]);
            assert!(matches!(plan.clear, Some(Clear::RemoveLink)));
            assert!(plan.create_target.is_none());
            assert!(plan.create_link && plan.check_exclude && plan.write_exclude);
        }
        _ => panic!("expected replacement"),
    }
    f.target_exists = Some(false);
    match decide_link("/r/.pi", "/r", "/r/.b/pi", &o, &f) {
        LinkStep::Proceed(p @ Prep::ReplaceLink { create_target: true, .. }) => {
            let plan = plan_link(&p, "/r/.pi", "/r/.b/pi", &o);
            assert_eq!(
                plan.reports,
                vec![
                    "info: replacing symlink /r/.pi (was -> /other)".to_string(),
                    "info: creating /r/.b/pi (dir)".to_string()
                ]
            );
            assert!(matches!(plan.clear, Some(Clear::RemoveLink)));
            assert!(matches!(plan.create_target, Some(Kind::Dir)));
        }
        _ => panic!("expected replacement with a fresh target"),
    }
}

#[test]
fn empty_directory_is_removed() {
    let mut f = facts();
    f.entry = Some(Entry::Dir);
    assert!(matches!(decide_link("/r/.pi", "/r", "/t", &opts(), &f), LinkStep::Ask(LinkQuery::DirEmpty)));
    f.dir_empty = Some(true);
    assert!(matches!(decide_link("/r/.pi", "/r", "/t", &opts(), &f), LinkStep::Ask(LinkQuery::TargetExists)));
    f.target_exists = Some(true);
    match decide_link("/r/.pi", "/r", "/t", &opts(), &f) {
        LinkStep::Proceed(p) => {
            let plan = plan_link(&p, "/r/.pi", "/t", &opts());
            assert_eq!(plan.reports, vec!["info: removing empty directory /r/.pi".to_string()]);
            assert!(matches!(plan.clear, Some(Clear::RemoveEmptyDir)));
            assert!(plan.create_target.is_none() && plan.create_link);
        }
        _ => panic!("expected removal"),
    }
}

#[test]
fn empty_directory_with_missing_target_gets_a_fresh_target() {
    let mut f = facts();
    f.entry = Some(Entry::Dir);
    f.dir_empty = Some(true);
    f.target_exists = Some(false);
    let mut o = opts();
    o.kind = Kind::Dir;
    match decide_link("/r/.pi", "/r", "/t", &o, &f) {
        LinkStep::Proceed(p @ Prep::RemoveEmptyDir { create_target: true }) => {
            let plan = plan_link(&p, "/r/.pi", "/t", &o);
            assert_eq!(
                plan.reports,
                vec!["info: removing empty directory /r/.pi".to_string(), "info: creating /t (dir)".to_string()]
            );
            assert!(matches!(plan.clear, Some(Clear::RemoveEmptyDir)));
            assert!(matches!(plan.create_target, Some(Kind::Dir)));
            assert!(plan.create_link);
            o.dry_run = true;
            let dry = plan_link(&p, "/r/.pi", "/t", &o);
            assert_eq!(dry.reports.len(), 2);
            assert!(dry.clear.is_none() && dry.create_target.is_none() && !dry.create_link && !dry.write_exclude);
        }
        _ => panic!("expected removal and creation"),
    }
}

#[test]
fn real_data_moves_only_with_consent() {
    let mut f = facts();
    f.entry = Some(Entry::Dir);
    f.dir_empty = Some(false);
    assert!(matches!(decide_link("/r/.pi", "/r", "/t", &opts(), &f), LinkStep::Ask(LinkQuery::TargetExists)));
    f.target_exists = Some(false);
    match decide_link("/r/.pi", "/r", "/t", &opts(), &f) {
        LinkStep::Ask(LinkQuery::Confirm(q)) => {
            assert_eq!(q, "/r/.pi exists and is not a symlink. Move it to /t (data is preserved)?")
        }
        _ => panic!("expected a question"),
    }
    f.confirmed = Some(false);
    match decide_link("/r/.pi", "/r", "/t", &opts(), &f) {
        LinkStep::Fail(e @ LinkError::Aborted) => assert_eq!(e.message(), "aborted by user"),
        _ => panic!("expected abort"),
    }
    f.confirmed = Some(true);
    assert!(matches!(decide_link("/r/.pi", "/r", "/t", &opts(), &f), LinkStep::Proceed(Prep::MoveIntoTarget)));
    let mut o = opts();
    o.yes = true;
    f.confirmed = None;
    assert!(matches!(decide_link("/r/.pi", "/r", "/t", &o, &f), LinkStep::Proceed(Prep::MoveIntoTarget)));
    o.dry_run = true;
    let plan = plan_link(&Prep::MoveIntoTarget, "/r/.pi", "/t", &o);
    assert_eq!(plan.reports, vec!["info: moving /r/.pi -> /t".to_string()]);
    assert!(plan.clear.is_none() && plan.create_target.is_none() && !plan.create_link);
    assert!(plan.check_exclude && !plan.write_exclude);
}

#[test]
fn conflict_is_refused() {
    let mut f = facts();
    f.entry = Some(Entry::File);
    f.target_exists = Some(true);
    match decide_link("/r/x.md", "/r", "/t.md", &opts(), &f) {
        LinkStep::Fail(e) => assert_eq!(
            e.message(),
            "conflict: /r/x.md is a real file and /t.md already exists. Refusing to touch either. Move one aside manually, then retry."
        ),
        _ => panic!("expected conflict"),
    }
    f.entry = Some(Entry::Dir);
    f.dir_empty = Some(false);
    match decide_link("/r/.pi", "/r", "/t", &opts(), &f) {
        LinkStep::Fail(LinkError::Conflict { is_dir, .. }) => assert!(is_dir),
        _ => panic!("expected conflict"),
    }
}

#[test]
fn missing_target_is_created() {
    let mut f = facts();
    f.entry = Some(Entry::Missing);
    f.target_exists = Some(false);
    let mut o = opts();
    o.kind = Kind::File;
    match decide_link("/r/x.md", "/r", "/t.md", &o, &f) {
        LinkStep::Proceed(p) => {
            let plan = plan_link(&p, "/r/x.md", "/t.md", &o);
            assert_eq!(plan.reports, vec!["info: creating /t.md (file)".to_string()]);
            assert!(plan.clear.is_none());
            assert!(matches!(plan.create_target, Some(Kind::File)));
        }
        _ => panic!("expected creation"),
    }
    f.target_exists = Some(true);
    match decide_link("/r/x.md", "/r", "/t.md", &o, &f) {
        LinkStep::Proceed(p) => {
            let plan = plan_link(&p, "/r/x.md", "/t.md", &o);
            assert!(plan.reports.is_empty() && plan.clear.is_none() && plan.create_target.is_none());
            assert!(plan.create_link);
        }
        _ => panic!("expected plain link"),
    }
}

#[test]
fn link_messages() {
    assert_eq!(link_message("/r/.pi", "/t", ".pi", false, true), "linked /r/.pi -> /t; excluded `.pi`");
    assert_eq!(link_message("/r/.pi", "/t", ".pi", false, false), "linked /r/.pi -> /t; exclude entry already present");
    assert_eq!(link_message("/r/.pi", "/t", ".pi", true, false), "linked /r/.pi -> /t (exclude skipped)");
}

fn ufacts(entry: Option<Entry>, confirmed: Option<bool>) -> UnlinkFacts {
    UnlinkFacts { entry, confirmed, confirmed_again: None }
}

#[test]
fn unlink_refuses_real_data() {
    match decide_unlink("/r/.pi", "/r", false, false, false, &ufacts(Some(Entry::Dir), None)) {
        UnlinkStep::Fail(e) => assert_eq!(
            e.message(),
            "/r/.pi is a real directory; bridgent never removes real data. Move/delete it manually."
        ),
        _ => panic!("expected refusal"),
    }
    match decide_unlink("/r/.pi", "/r", false, false, false, &ufacts(Some(Entry::Missing), None)) {
        UnlinkStep::Fail(e @ UnlinkError::Missing { .. }) => assert_eq!(e.message(), "/r/.pi does not exist"),
        _ => panic!("expected missing"),
    }
    assert!(matches!(
        decide_unlink("/r/.pi", "/r", false, false, false, &ufacts(None, None)),
        UnlinkStep::Ask(UnlinkQuery::Entry)
    ));
}

#[test]
fn unlink_removes_the_link() {
    let f = ufacts(Some(Entry::Symlink(".bridgent/pi".to_string())), None);
    match decide_unlink("/r/.pi", "/r", false, false, false, &f) {
        UnlinkStep::Proceed(plan) => {
            assert_eq!(plan.target, "/r/.bridgent/pi");
            assert!(!plan.purge_target && plan.remove_link && plan.update_exclude);
            assert_eq!(
                unlink_message("/r/.pi", &plan.target, false, true),
                "removed link /r/.pi (target `/r/.bridgent/pi` preserved); exclude entry removed"
            );
        }
        _ => panic!("expected removal"),
    }
}

#[test]
fn purge_needs_consent() {
    let f = ufacts(Some(Entry::Symlink("/t".to_string())), None);
    match decide_unlink("/r/.pi", "/r", true, false, false, &f) {
        UnlinkStep::Ask(UnlinkQuery::Confirm(q)) => {
            assert_eq!(q, "--purge: also delete the target data at /t? This cannot be undone.")
        }
        _ => panic!("expected a question"),
    }
    let no = ufacts(Some(Entry::Symlink("/t".to_string())), Some(false));
    assert!(matches!(decide_unlink("/r/.pi", "/r", true, false, false, &no), UnlinkStep::Fail(UnlinkError::Aborted)));
    match decide_unlink("/r/.pi", "/r", true, true, true, &f) {
        UnlinkStep::Proceed(plan) => {
            assert!(!plan.purge_target && !plan.remove_link && !plan.update_exclude);
            assert_eq!(
                unlink_message("/r/.pi", "/t", true, false),
                "removed link /r/.pi (target `/t` preserved); purged target /t"
            );
        }
        _ => panic!("expected dry run plan"),
    }
}

#[test]
fn purge_asks_twice() {
    let mut f = ufacts(Some(Entry::Symlink("/t".to_string())), Some(true));
    match decide_unlink("/r/.pi", "/r", true, false, false, &f) {
        UnlinkStep::Ask(UnlinkQuery::ConfirmAgain(q)) => {
            assert_eq!(q, "Really delete everything at /t? Answer yes once more to purge.")
        }
        _ => panic!("expected a second question"),
    }
    f.confirmed_again = Some(false);
    assert!(matches!(decide_unlink("/r/.pi", "/r", true, false, false, &f), UnlinkStep::Fail(UnlinkError::Aborted)));
    f.confirmed_again = Some(true);
    match decide_unlink("/r/.pi", "/r", true, false, false, &f) {
        UnlinkStep::Proceed(plan) => {
            assert_eq!(plan.target, "/t");
            assert!(plan.purge_target && plan.remove_link && plan.update_exclude);
        }
        _ => panic!("expected the purge"),
    }
    let y = ufacts(Some(Entry::Symlink("/t".to_string())), None);
    match decide_unlink("/r/.pi", "/r", true, true, false, &y) {
        UnlinkStep::Proceed(plan) => assert!(plan.purge_target),
        _ => panic!("--yes skips both questions"),
    }
}

#[test]
fn yes_answers() {
    assert!(is_yes("y\n"));
    assert!(is_yes("  YeS "));
    assert!(is_yes("Y"));
    assert!(!is_yes("yeah"));
    assert!(!is_yes(""));
    assert!(!is_yes("n"));
}

#[test]
fn where_link_works() {
    match link_root(Some(("/r".to_string(), "/r/.git/info/exclude".to_string())), "/r/sub", false) {
        Ok(LinkRoot::Repo { root, exclude }) => {
            assert_eq!(root, "/r");
            assert_eq!(exclude, "/r/.git/info/exclude");
        }
        _ => panic!("expected the repository"),
    }
    match link_root(None, "/tmp/x", true) {
        Ok(LinkRoot::Bare { root }) => assert_eq!(root, "/tmp/x"),
        _ => panic!("expected the start directory"),
    }
    match link_root(None, "/tmp/x", false) {
        Err(m) => assert_eq!(
            m,
            "no git repository found from `/tmp/x` (use --project-dir, or --no-exclude to link without exclude)"
        ),
        _ => panic!("expected refusal"),
    }
    assert_eq!(
        bridgent::project::no_repo_message("/x"),
        "no git repository found from `/x` (use --project-dir, or link with --no-exclude in a non-git dir)"
    );
}
