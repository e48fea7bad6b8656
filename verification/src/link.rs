//! The decisions behind `link` and `unlink`.
//!
//! The caller looks at the file system when asked to, hands back what it
//! found, and carries out the plan it gets; the decisions, and the messages
//! reported, are made here.

use vstd::prelude::*;
use crate::path::{
    is_absolute, join_path, law_absolute_stays_absolute, law_lexical_normal_idempotent,
    lexical_normal, parent_path,
};
use crate::project::{join, lexical_normalize};
use crate::text::{chars_of, strip_leading, string_of};

verus! {

/// What to create when the managed object has to be made fresh.
#[derive(Clone, Copy, PartialEq, Eq, Structural)]
pub enum Kind {
    Dir,
    File,
}

impl Kind {
    /// The name of the kind: `dir` or `file`.
    pub fn as_str(&self) -> (s: &'static str)
        ensures
            s@ == match self {
                Kind::Dir => "dir"@,
                Kind::File => "file"@,
            },
    {
        match self {
            Kind::Dir => "dir",
            Kind::File => "file",
        }
    }
}

/// Options of the `link` command.
pub struct LinkOpts {
    /// Do not ask before moving existing data.
    pub yes: bool,
    /// Do not touch the exclude file.
    pub no_exclude: bool,
    /// Report what would be done, change nothing on disk.
    pub dry_run: bool,
    /// Replace a link that points elsewhere.
    pub force: bool,
    /// What to create when the target does not exist yet.
    pub kind: Kind,
}

/// What is found at a path, without following a link.
pub enum Entry {
    /// A symbolic link, with the text it holds.
    Symlink(String),
    /// A real directory.
    Dir,
    /// A real file (or any other object that is not a directory).
    File,
    /// Nothing.
    Missing,
}

/// Where an existing link points, as a normalized path: its
/// text taken from the directory that holds the link (from `root` when the
/// link has no parent).
pub open spec fn link_target_abs(path: Seq<char>, root: Seq<char>, text: Seq<char>) -> Seq<char> {
    let base = match parent_path(path) {
        Some(p) => p,
        None => root,
    };
    lexical_normal(join_path(base, text))
}

/// Where the link at `path` (holding `text`) points.
pub fn link_target(path: &str, root: &str, text: &str) -> (r: String)
    ensures
        r@ == link_target_abs(path@, root@, text@),
{
    let base = crate::project::parent(path, root);
    let j = join(base.as_str(), text);
    lexical_normalize(j.as_str())
}

/// The repository path as it is written to the exclude file: without
/// leading `./` and `/`.
pub open spec fn managed_rel_spec(rel: Seq<char>) -> Seq<char> {
    strip_leading(strip_dot_slash(rel), '/')
}

/// `s` without its leading `./` pairs (`str::trim_start_matches("./")`).
pub open spec fn strip_dot_slash(s: Seq<char>) -> Seq<char>
    decreases s.len(),
{
    if s.len() >= 2 && s[0] == '.' && s[1] == '/' {
        strip_dot_slash(s.skip(2))
    } else {
        s
    }
}

/// The repository path as it is written to the exclude file.
pub fn managed_rel(rel: &str) -> (r: String)
    ensures
        r@ == managed_rel_spec(rel@),
{
    let v = chars_of(rel);
    let mut k: usize = 0;
    assert(v@.skip(0) =~= v@);
    while k < v.len() && v.len() - k >= 2 && v[k] == '.' && v[k + 1] == '/'
        invariant
            k <= v.len(),
            strip_dot_slash(v@.skip(k as int)) == strip_dot_slash(v@),
        decreases v.len() - k,
    {
        assert(v@.skip(k as int).skip(2) =~= v@.skip(k + 2));
        k = k + 2;
    }
    while k < v.len() && v[k] == '/'
        invariant
            k <= v.len(),
            strip_leading(v@.skip(k as int), '/') == managed_rel_spec(v@),
        decreases v.len() - k,
    {
        assert(v@.skip(k as int).drop_first() =~= v@.skip(k + 1));
        k = k + 1;
    }
    let mut r: Vec<char> = Vec::new();
    for i in k..v.len()
        invariant
            k <= v.len(),
            r@ == v@.subrange(k as int, i as int),
    {
        r.push(v[i]);
        assert(v@.subrange(k as int, i + 1) =~= v@.subrange(k as int, i as int).push(v@[i as int]));
    }
    assert(r@ =~= v@.skip(k as int));
    string_of(&r)
}


/// Where `link` works.
pub enum LinkRoot {
    /// The repository found, with its exclude file.
    Repo { root: String, exclude: String },
    /// No repository: the starting directory, without an exclude file.
    Bare { root: String },
}

/// Chooses where `link` works: the repository found from `start` (its root
/// and exclude file); without one, `start` itself, but only under
/// `--no-exclude`, since there is no exclude file to write.
pub fn link_root(found: Option<(String, String)>, start: &str, no_exclude: bool) -> (r: Result<
    LinkRoot,
    String,
>)
    ensures
        match found {
            Some((root, exclude)) => r matches Ok(LinkRoot::Repo { root: a, exclude: b }) && a
                == root && b == exclude,
            None => if no_exclude {
                r matches Ok(LinkRoot::Bare { root: a }) && a@ == start@
            } else {
                r matches Err(m) && m@ == "no git repository found from `"@ + start@
                    + "` (use --project-dir, or --no-exclude to link without exclude)"@
            },
        },
{
    match found {
        Some((root, exclude)) => Ok(LinkRoot::Repo { root, exclude }),
        None => {
            if no_exclude {
                Ok(LinkRoot::Bare { root: String::from_str(start) })
            } else {
                Err(
                    cat3(
                        "no git repository found from `",
                        start,
                        "` (use --project-dir, or --no-exclude to link without exclude)",
                    ),
                )
            }
        },
    }
}

/// What has been found out so far for a `link` request; `None` where it has
/// not been looked at yet.
pub struct LinkFacts {
    /// What is at the link location.
    pub entry: Option<Entry>,
    /// Whether the directory at the link location is empty.
    pub dir_empty: Option<bool>,
    /// Whether anything is at the target.
    pub target_exists: Option<bool>,
    /// The user's answer to the question of moving the existing data.
    pub confirmed: Option<bool>,
}

/// What `decide_link` needs to know next.
pub enum LinkQuery {
    /// What is at the link location (not following a link).
    Entry,
    /// Whether the directory there is empty.
    DirEmpty,
    /// Whether anything is at the target.
    TargetExists,
    /// Ask the user this question, expecting yes or no.
    Confirm(String),
}

/// Why a `link` request is refused.
pub enum LinkError {
    /// A link is there and points elsewhere, and `--force` was not given.
    SymlinkElsewhere { path: String, current: String, target: String },
    /// The user declined to move the existing data.
    Aborted,
    /// Real data is at the link location and something is at the target.
    Conflict { path: String, is_dir: bool, target: String },
}

/// How the link location is made ready for the new link.
pub enum Prep {
    /// Remove the link that points elsewhere (it pointed to `was`), and
    /// create the target when it does not exist.
    ReplaceLink { was: String, create_target: bool },
    /// Remove the empty directory, and create the target when it does not
    /// exist.
    RemoveEmptyDir { create_target: bool },
    /// Move the existing data to the target.
    MoveIntoTarget,
    /// Nothing is at either place: create the target.
    CreateTarget,
    /// Nothing is at the link location and the target exists.
    Nothing,
}

/// The outcome of one round of `decide_link`.
pub enum LinkStep {
    /// Look this up and decide again.
    Ask(LinkQuery),
    /// Refuse.
    Fail(LinkError),
    /// The link is there and already points to the target.
    AlreadyLinked,
    /// Prepare the location this way, then create the link.
    Proceed(Prep),
}

/// The question asked before existing data is moved to the target.
pub open spec fn move_prompt(path: Seq<char>, target: Seq<char>) -> Seq<char> {
    path + " exists and is not a symlink. Move it to "@ + target + " (data is preserved)?"@
}

/// What is to be done when the link location holds real data (a
/// non-empty directory, or a file) and whether the target exists is known.
pub open spec fn real_data_step(
    path: Seq<char>,
    target: Seq<char>,
    is_dir: bool,
    opts: LinkOpts,
    facts: LinkFacts,
    s: LinkStep,
) -> bool {
    match facts.target_exists {
        None => s == LinkStep::Ask(LinkQuery::TargetExists),
        Some(false) => if opts.yes || facts.confirmed == Some(true) {
            s == LinkStep::Proceed(Prep::MoveIntoTarget)
        } else if facts.confirmed == Some(false) {
            s == LinkStep::Fail(LinkError::Aborted)
        } else {
            s matches LinkStep::Ask(LinkQuery::Confirm(q)) && q@ == move_prompt(path, target)
        },
        Some(true) => s matches LinkStep::Fail(LinkError::Conflict { path: p, is_dir: d, target: t })
            && p@ == path && d == is_dir && t@ == target,
    }
}

/// The decision of `link` for the link location `path` in the repository
/// at `root` and the resolved `target`, from what has been found out so far.
pub open spec fn link_step_spec(
    path: Seq<char>,
    root: Seq<char>,
    target: Seq<char>,
    opts: LinkOpts,
    facts: LinkFacts,
    s: LinkStep,
) -> bool {
    match facts.entry {
        None => s == LinkStep::Ask(LinkQuery::Entry),
        Some(Entry::Symlink(text)) => {
            let cur = link_target_abs(path, root, text@);
            if cur == target {
                s == LinkStep::AlreadyLinked
            } else if !opts.force {
                s matches LinkStep::Fail(
                    LinkError::SymlinkElsewhere { path: p, current: c, target: t },
                ) && p@ == path && c@ == cur && t@ == target
            } else {
                match facts.target_exists {
                    None => s == LinkStep::Ask(LinkQuery::TargetExists),
                    Some(e) => s matches LinkStep::Proceed(
                        Prep::ReplaceLink { was, create_target: c },
                    ) && was@ == cur && c == !e,
                }
            }
        },
        Some(Entry::Dir) => match facts.dir_empty {
            None => s == LinkStep::Ask(LinkQuery::DirEmpty),
            Some(true) => match facts.target_exists {
                None => s == LinkStep::Ask(LinkQuery::TargetExists),
                Some(e) => s == LinkStep::Proceed(Prep::RemoveEmptyDir { create_target: !e }),
            },
            Some(false) => real_data_step(path, target, true, opts, facts, s),
        },
        Some(Entry::File) => real_data_step(path, target, false, opts, facts, s),
        Some(Entry::Missing) => match facts.target_exists {
            None => s == LinkStep::Ask(LinkQuery::TargetExists),
            Some(false) => s == LinkStep::Proceed(Prep::CreateTarget),
            Some(true) => s == LinkStep::Proceed(Prep::Nothing),
        },
    }
}

fn cat3(a: &str, b: &str, c: &str) -> (r: String)
    ensures
        r@ == a@ + b@ + c@,
{
    let mut r = String::from_str(a);
    r.append(b);
    r.append(c);
    r
}

fn decide_real_data(path: &str, target: &str, is_dir: bool, opts: &LinkOpts, facts: &LinkFacts) -> (s:
    LinkStep)
    ensures
        real_data_step(path@, target@, is_dir, *opts, *facts, s),
{
    match facts.target_exists {
        None => LinkStep::Ask(LinkQuery::TargetExists),
        Some(false) => {
            if opts.yes || facts.confirmed == Some(true) {
                LinkStep::Proceed(Prep::MoveIntoTarget)
            } else if facts.confirmed == Some(false) {
                LinkStep::Fail(LinkError::Aborted)
            } else {
                let mut q = cat3(path, " exists and is not a symlink. Move it to ", target);
                q.append(" (data is preserved)?");
                LinkStep::Ask(LinkQuery::Confirm(q))
            }
        },
        Some(true) => LinkStep::Fail(
            LinkError::Conflict {
                path: String::from_str(path),
                is_dir,
                target: String::from_str(target),
            },
        ),
    }
}

/// One round of the `link` decision: what to look up next, or the verdict.
/// A link that already points to the target is left alone; one pointing
/// elsewhere is replaced only with `--force`; an empty directory is
/// removed; a link location cleared this way gets a target created when
/// none exists (of `--kind`, the type of the managed object "when it must
/// be created fresh"), so the new link never dangles: a forced
/// replacement is cleared like an empty directory, and a link to a
/// missing target would leave nothing managed behind it; other real data is moved to a free target (after the user's
/// yes, unless `--yes`) and never overwrites an existing one; a missing
/// target is created.
pub fn decide_link(path: &str, root: &str, target: &str, opts: &LinkOpts, facts: &LinkFacts) -> (s:
    LinkStep)
    ensures
        link_step_spec(path@, root@, target@, *opts, *facts, s),
{
    match &facts.entry {
        None => LinkStep::Ask(LinkQuery::Entry),
        Some(Entry::Symlink(text)) => {
            let cur = link_target(path, root, text.as_str());
            if cur == String::from_str(target) {
                LinkStep::AlreadyLinked
            } else if !opts.force {
                LinkStep::Fail(
                    LinkError::SymlinkElsewhere {
                        path: String::from_str(path),
                        current: cur,
                        target: String::from_str(target),
                    },
                )
            } else {
                match facts.target_exists {
                    None => LinkStep::Ask(LinkQuery::TargetExists),
                    Some(e) => LinkStep::Proceed(Prep::ReplaceLink { was: cur, create_target: !e }),
                }
            }
        },
        Some(Entry::Dir) => match facts.dir_empty {
            None => LinkStep::Ask(LinkQuery::DirEmpty),
            Some(true) => match facts.target_exists {
                None => LinkStep::Ask(LinkQuery::TargetExists),
                Some(e) => LinkStep::Proceed(Prep::RemoveEmptyDir { create_target: !e }),
            },
            Some(false) => decide_real_data(path, target, true, opts, facts),
        },
        Some(Entry::File) => decide_real_data(path, target, false, opts, facts),
        Some(Entry::Missing) => match facts.target_exists {
            None => LinkStep::Ask(LinkQuery::TargetExists),
            Some(false) => LinkStep::Proceed(Prep::CreateTarget),
            Some(true) => LinkStep::Proceed(Prep::Nothing),
        },
    }
}


impl LinkError {
    /// The message the refusal is reported with.
    pub fn message(&self) -> (m: String)
        ensures
            m@ == match self {
                LinkError::SymlinkElsewhere { path, current, target } => path@
                    + " is a symlink pointing to `"@ + current@ + "`, not `"@ + target@
                    + "`. Use --force to replace it."@,
                LinkError::Aborted => "aborted by user"@,
                LinkError::Conflict { path, is_dir, target } => "conflict: "@ + path@
                    + " is a real "@ + (if *is_dir {
                    "directory"@
                } else {
                    "file"@
                }) + " and "@ + target@
                    + " already exists. Refusing to touch either. Move one aside manually, then retry."@,
            },
    {
        match self {
            LinkError::SymlinkElsewhere { path, current, target } => {
                let mut m = cat3(path.as_str(), " is a symlink pointing to `", current.as_str());
                m.append("`, not `");
                m.append(target.as_str());
                m.append("`. Use --force to replace it.");
                m
            },
            LinkError::Aborted => String::from_str("aborted by user"),
            LinkError::Conflict { path, is_dir, target } => {
                let mut m = cat3("conflict: ", path.as_str(), " is a real ");
                m.append(if *is_dir { "directory" } else { "file" });
                m.append(" and ");
                m.append(target.as_str());
                m.append(
                    " already exists. Refusing to touch either. Move one aside manually, then retry.",
                );
                m
            },
        }
    }
}

/// What clears the link location before the link is made.
pub enum Clear {
    /// Remove the existing link, not what it points to.
    RemoveLink,
    /// Remove the empty directory.
    RemoveEmptyDir,
    /// Move the data at the link location to the target.
    MoveIntoTarget,
}

/// What `link` does once the decision is made, in this order: report,
/// clear the location, create the target, create the link.
pub struct LinkPlan {
    /// The lines to report before anything is changed.
    pub reports: Vec<String>,
    /// The change at the link location.
    pub clear: Option<Clear>,
    /// The target to create fresh, as a directory or an empty file.
    pub create_target: Option<Kind>,
    /// Whether to create the link (with the missing parent directories).
    pub create_link: bool,
    /// Whether to look up the exclude entry afterwards (and report whether
    /// it had to be added).
    pub check_exclude: bool,
    /// Whether to write the entry to the exclude file when it is missing.
    pub write_exclude: bool,
}

/// The texts of the reported lines.
pub open spec fn report_texts(reports: Seq<String>) -> Seq<Seq<char>> {
    reports.map_values(|r: String| r@)
}

/// The plan for a `link` that found the link already in place: nothing is
/// changed but the exclude entry, which is looked up unless
/// `--no-exclude` and written unless a dry run as well.
pub fn already_linked_plan(opts: &LinkOpts) -> (p: LinkPlan)
    ensures
        p.reports@.len() == 0,
        p.clear is None,
        p.create_target is None,
        !p.create_link,
        p.check_exclude == !opts.no_exclude,
        p.write_exclude == (!opts.no_exclude && !opts.dry_run),
{
    LinkPlan {
        reports: Vec::new(),
        clear: None,
        create_target: None,
        create_link: false,
        check_exclude: !opts.no_exclude,
        write_exclude: !opts.no_exclude && !opts.dry_run,
    }
}

/// The name of a kind, as `Kind::as_str` gives it.
pub open spec fn kind_name(k: Kind) -> Seq<char> {
    match k {
        Kind::Dir => "dir"@,
        Kind::File => "file"@,
    }
}

/// The change a prepared `link` makes at the link location.
pub open spec fn prep_clear(prep: Prep) -> Option<Clear> {
    match prep {
        Prep::ReplaceLink { .. } => Some(Clear::RemoveLink),
        Prep::RemoveEmptyDir { .. } => Some(Clear::RemoveEmptyDir),
        Prep::MoveIntoTarget => Some(Clear::MoveIntoTarget),
        _ => None,
    }
}

/// Whether a prepared `link` creates the target fresh.
pub open spec fn prep_creates(prep: Prep) -> bool {
    match prep {
        Prep::ReplaceLink { create_target, .. } => create_target,
        Prep::RemoveEmptyDir { create_target } => create_target,
        Prep::CreateTarget => true,
        _ => false,
    }
}

/// The line reported for the change at the link location.
pub open spec fn clear_report(prep: Prep, path: Seq<char>, target: Seq<char>) -> Seq<Seq<char>> {
    match prep {
        Prep::ReplaceLink { was, .. } => seq![
            "info: replacing symlink "@ + path + " (was -> "@ + was@ + ")"@,
        ],
        Prep::RemoveEmptyDir { .. } => seq!["info: removing empty directory "@ + path],
        Prep::MoveIntoTarget => seq!["info: moving "@ + path + " -> "@ + target],
        _ => Seq::empty(),
    }
}

/// The line reported before the target is created.
pub open spec fn creating_report(target: Seq<char>, kind: Kind) -> Seq<char> {
    "info: creating "@ + target + " ("@ + kind_name(kind) + ")"@
}

/// The plan `plan_link` makes for a prepared `link`.
pub open spec fn link_plan_spec(
    prep: Prep,
    path: Seq<char>,
    target: Seq<char>,
    opts: LinkOpts,
    p: LinkPlan,
) -> bool {
    &&& report_texts(p.reports@) == clear_report(prep, path, target) + (if prep_creates(prep) {
        seq![creating_report(target, opts.kind)]
    } else {
        Seq::empty()
    })
    &&& p.clear == (if opts.dry_run {
        None
    } else {
        prep_clear(prep)
    })
    &&& p.create_target == (if !opts.dry_run && prep_creates(prep) {
        Some(opts.kind)
    } else {
        None
    })
    &&& p.create_link == !opts.dry_run
    &&& p.check_exclude == !opts.no_exclude
    &&& p.write_exclude == (!opts.no_exclude && !opts.dry_run)
}

fn push_report(reports: &mut Vec<String>, r: String)
    ensures
        report_texts(final(reports)@) == report_texts(old(reports)@).push(r@),
        final(reports)@.len() == old(reports)@.len() + 1,
{
    let ghost before = reports@;
    reports.push(r);
    assert(report_texts(reports@) =~= report_texts(before).push(r@));
}

/// The plan for a prepared `link`. A dry run reports the steps but
/// changes nothing on disk, the exclude file included; the exclude entry
/// is looked up unless `--no-exclude`.
pub fn plan_link(prep: &Prep, path: &str, target: &str, opts: &LinkOpts) -> (p: LinkPlan)
    ensures
        link_plan_spec(*prep, path@, target@, *opts, p),
        !opts.dry_run ==> p.create_link,
        opts.dry_run ==> !p.create_link && p.clear is None && p.create_target is None,
        (*prep is MoveIntoTarget && !opts.dry_run) ==> p.clear == Some(Clear::MoveIntoTarget),
{
    let mut reports: Vec<String> = Vec::new();
    assert(report_texts(reports@) =~= Seq::<Seq<char>>::empty());
    let (clear, creates): (Option<Clear>, bool) = match prep {
        Prep::ReplaceLink { was, create_target } => {
            let mut r = cat3("info: replacing symlink ", path, " (was -> ");
            r.append(was.as_str());
            r.append(")");
            push_report(&mut reports, r);
            (Some(Clear::RemoveLink), *create_target)
        },
        Prep::RemoveEmptyDir { create_target } => {
            let mut r = String::from_str("info: removing empty directory ");
            r.append(path);
            push_report(&mut reports, r);
            (Some(Clear::RemoveEmptyDir), *create_target)
        },
        Prep::MoveIntoTarget => {
            let mut r = cat3("info: moving ", path, " -> ");
            r.append(target);
            push_report(&mut reports, r);
            (Some(Clear::MoveIntoTarget), false)
        },
        Prep::CreateTarget => (None, true),
        Prep::Nothing => (None, false),
    };
    assert(clear == prep_clear(*prep) && creates == prep_creates(*prep));
    let ghost first = report_texts(reports@);
    assert(first =~= clear_report(*prep, path@, target@));
    if creates {
        let mut r = cat3("info: creating ", target, " (");
        r.append(opts.kind.as_str());
        r.append(")");
        assert(r@ == creating_report(target@, opts.kind));
        push_report(&mut reports, r);
        assert(report_texts(reports@) =~= first + seq![creating_report(target@, opts.kind)]);
    } else {
        assert(report_texts(reports@) =~= first + Seq::<Seq<char>>::empty());
    }
    LinkPlan {
        reports,
        clear: if opts.dry_run { None } else { clear },
        create_target: if creates && !opts.dry_run { Some(opts.kind) } else { None },
        create_link: !opts.dry_run,
        check_exclude: !opts.no_exclude,
        write_exclude: !opts.no_exclude && !opts.dry_run,
    }
}

/// The report of a `link` that found the link already in place; `added`
/// tells whether the exclude entry had to be added.
pub fn already_linked_message(path: &str, target: &str, added: bool) -> (m: String)
    ensures
        m@ == "link "@ + path@ + " -> "@ + target@ + " already correct"@ + (if added {
            "; exclude entry added"@
        } else {
            Seq::empty()
        }),
{
    let mut m = cat3("link ", path, " -> ");
    m.append(target);
    m.append(" already correct");
    if added {
        m.append("; exclude entry added");
    } else {
        assert(m@ + Seq::<char>::empty() =~= m@);
    }
    m
}

/// The report of a completed `link`: `added` tells whether the exclude
/// entry had to be added (it is not looked at under `--no-exclude`).
pub fn link_message(path: &str, target: &str, rel: &str, no_exclude: bool, added: bool) -> (m:
    String)
    ensures
        m@ == "linked "@ + path@ + " -> "@ + target@ + (if no_exclude {
            " (exclude skipped)"@
        } else if added {
            "; excluded `"@ + rel@ + "`"@
        } else {
            "; exclude entry already present"@
        }),
{
    let mut m = cat3("linked ", path, " -> ");
    m.append(target);
    if no_exclude {
        m.append(" (exclude skipped)");
    } else if added {
        m.append("; excluded `");
        m.append(rel);
        m.append("`");
    } else {
        m.append("; exclude entry already present");
    }
    m
}


/// What has been found out so far for an `unlink` request.
pub struct UnlinkFacts {
    /// What is at the link location.
    pub entry: Option<Entry>,
    /// The user's answer to the question of purging the target.
    pub confirmed: Option<bool>,
    /// The user's answer when asked a second time.
    pub confirmed_again: Option<bool>,
}

/// What `decide_unlink` needs to know next.
pub enum UnlinkQuery {
    /// What is at the link location (not following a link).
    Entry,
    /// Ask the user this question, expecting yes or no.
    Confirm(String),
    /// Ask the user this second question, expecting yes or no.
    ConfirmAgain(String),
}

/// Why an `unlink` request is refused.
pub enum UnlinkError {
    /// Nothing is at the link location.
    Missing { path: String },
    /// Real data is at the link location: it is never removed.
    RealObject { path: String, is_dir: bool },
    /// The user declined to purge the target.
    Aborted,
}

impl UnlinkError {
    /// The message the refusal is reported with.
    pub fn message(&self) -> (m: String)
        ensures
            m@ == match self {
                UnlinkError::Missing { path } => path@ + " does not exist"@,
                UnlinkError::RealObject { path, is_dir } => path@ + " is a real "@ + (if *is_dir {
                    "directory"@
                } else {
                    "file"@
                }) + "; bridgent never removes real data. Move/delete it manually."@,
                UnlinkError::Aborted => "aborted by user"@,
            },
    {
        match self {
            UnlinkError::Missing { path } => {
                let mut m = String::from_str(path.as_str());
                m.append(" does not exist");
                m
            },
            UnlinkError::RealObject { path, is_dir } => {
                let mut m = cat3(
                    path.as_str(),
                    " is a real ",
                    if *is_dir {
                        "directory"
                    } else {
                        "file"
                    },
                );
                m.append("; bridgent never removes real data. Move/delete it manually.");
                m
            },
            UnlinkError::Aborted => String::from_str("aborted by user"),
        }
    }
}

/// What `unlink` does once the decision is made.
pub struct UnlinkPlan {
    /// Where the link points.
    pub target: String,
    /// Whether to delete the data at the target.
    pub purge_target: bool,
    /// Whether to remove the link itself.
    pub remove_link: bool,
    /// Whether to remove the exclude entry afterwards.
    pub update_exclude: bool,
}

/// The outcome of one round of `decide_unlink`.
pub enum UnlinkStep {
    /// Look this up and decide again.
    Ask(UnlinkQuery),
    /// Refuse.
    Fail(UnlinkError),
    /// Carry out this plan.
    Proceed(UnlinkPlan),
}

/// The question asked before the target's data is purged.
pub open spec fn purge_prompt(target: Seq<char>) -> Seq<char> {
    "--purge: also delete the target data at "@ + target + "? This cannot be undone."@
}

/// The decision of `unlink` for the link location `path` in the
/// repository at `root`, from what has been found out so far.
pub open spec fn unlink_step_spec(
    path: Seq<char>,
    root: Seq<char>,
    purge: bool,
    yes: bool,
    dry_run: bool,
    facts: UnlinkFacts,
    s: UnlinkStep,
) -> bool {
    match facts.entry {
        None => s == UnlinkStep::Ask(UnlinkQuery::Entry),
        Some(Entry::Missing) => s matches UnlinkStep::Fail(UnlinkError::Missing { path: p })
            && p@ == path,
        Some(Entry::Dir) => s matches UnlinkStep::Fail(
            UnlinkError::RealObject { path: p, is_dir: d },
        ) && p@ == path && d,
        Some(Entry::File) => s matches UnlinkStep::Fail(
            UnlinkError::RealObject { path: p, is_dir: d },
        ) && p@ == path && !d,
        Some(Entry::Symlink(text)) => {
            let t = link_target_abs(path, root, text@);
            if purge && !yes && facts.confirmed != Some(true) {
                if facts.confirmed == Some(false) {
                    s == UnlinkStep::Fail(UnlinkError::Aborted)
                } else {
                    s matches UnlinkStep::Ask(UnlinkQuery::Confirm(q)) && q@ == purge_prompt(t)
                }
            } else if purge && !yes && facts.confirmed_again != Some(true) {
                if facts.confirmed_again == Some(false) {
                    s == UnlinkStep::Fail(UnlinkError::Aborted)
                } else {
                    s matches UnlinkStep::Ask(UnlinkQuery::ConfirmAgain(q)) && q@ == purge_prompt_again(
                        t,
                    )
                }
            } else {
                s matches UnlinkStep::Proceed(plan) && plan.target@ == t && plan.purge_target == (
                purge && !dry_run) && plan.remove_link == !dry_run && plan.update_exclude
                    == !dry_run
            }
        },
    }
}

/// The second question asked before the target's data is purged.
pub open spec fn purge_prompt_again(target: Seq<char>) -> Seq<char> {
    "Really delete everything at "@ + target + "? Answer yes once more to purge."@
}

/// One round of the `unlink` decision. Only a link is removed, never real
/// data; the target's data is deleted only with `--purge`, after the user
/// said yes twice (unless `--yes`); a dry run changes nothing on disk.
pub fn decide_unlink(
    path: &str,
    root: &str,
    purge: bool,
    yes: bool,
    dry_run: bool,
    facts: &UnlinkFacts,
) -> (s: UnlinkStep)
    ensures
        unlink_step_spec(path@, root@, purge, yes, dry_run, *facts, s),
        s matches UnlinkStep::Proceed(plan) ==> plan.remove_link == !dry_run
            && plan.update_exclude == !dry_run,
{
    match &facts.entry {
        None => UnlinkStep::Ask(UnlinkQuery::Entry),
        Some(Entry::Missing) => UnlinkStep::Fail(UnlinkError::Missing { path: String::from_str(path) }),
        Some(Entry::Dir) => UnlinkStep::Fail(
            UnlinkError::RealObject { path: String::from_str(path), is_dir: true },
        ),
        Some(Entry::File) => UnlinkStep::Fail(
            UnlinkError::RealObject { path: String::from_str(path), is_dir: false },
        ),
        Some(Entry::Symlink(text)) => {
            let t = link_target(path, root, text.as_str());
            if purge && !yes && facts.confirmed != Some(true) {
                if facts.confirmed == Some(false) {
                    UnlinkStep::Fail(UnlinkError::Aborted)
                } else {
                    let q = cat3("--purge: also delete the target data at ", t.as_str(), "? This cannot be undone.");
                    UnlinkStep::Ask(UnlinkQuery::Confirm(q))
                }
            } else if purge && !yes && facts.confirmed_again != Some(true) {
                if facts.confirmed_again == Some(false) {
                    UnlinkStep::Fail(UnlinkError::Aborted)
                } else {
                    let q = cat3("Really delete everything at ", t.as_str(), "? Answer yes once more to purge.");
                    UnlinkStep::Ask(UnlinkQuery::ConfirmAgain(q))
                }
            } else {
                UnlinkStep::Proceed(
                    UnlinkPlan {
                        target: t,
                        purge_target: purge && !dry_run,
                        remove_link: !dry_run,
                        update_exclude: !dry_run,
                    },
                )
            }
        },
    }
}

/// The report of a completed `unlink`.
pub fn unlink_message(path: &str, target: &str, purge: bool, exclude_removed: bool) -> (m: String)
    ensures
        m@ == "removed link "@ + path@ + " (target `"@ + target@ + "` preserved)"@ + (if purge {
            "; purged target "@ + target@
        } else {
            Seq::empty()
        }) + (if exclude_removed {
            "; exclude entry removed"@
        } else {
            Seq::empty()
        }),
{
    let mut m = cat3("removed link ", path, " (target `");
    m.append(target);
    m.append("` preserved)");
    let ghost base = m@;
    if purge {
        m.append("; purged target ");
        m.append(target);
    } else {
        assert(m@ =~= base + Seq::<char>::empty());
    }
    let ghost mid = m@;
    if exclude_removed {
        m.append("; exclude entry removed");
    } else {
        assert(m@ =~= mid + Seq::<char>::empty());
    }
    m
}

/// Whether an answer to a yes/no question means yes: `y` or `yes` in any
/// case, with white space around it ignored.
pub open spec fn is_yes_spec(answer: Seq<char>) -> bool {
    let t = crate::project::trim(answer);
    ||| (t.len() == 1 && (t[0] == 'y' || t[0] == 'Y'))
    ||| (t.len() == 3 && (t[0] == 'y' || t[0] == 'Y') && (t[1] == 'e' || t[1] == 'E') && (t[2]
        == 's' || t[2] == 'S'))
}

/// Reads an answer to a yes/no question.
pub fn is_yes(answer: &str) -> (b: bool)
    ensures
        b == is_yes_spec(answer@),
{
    let t = crate::project::trim_chars(&chars_of(answer));
    let y = t.len() >= 1 && (t[0] == 'y' || t[0] == 'Y');
    (t.len() == 1 && y) || (t.len() == 3 && y && (t[1] == 'e' || t[1] == 'E') && (t[2] == 's'
        || t[2] == 'S'))
}


/// `link` is idempotent: once the link holds the (absolute, normalized)
/// target, asking for the same link again finds it already in place.
pub proof fn law_relink_is_noop(
    path: Seq<char>,
    root: Seq<char>,
    target: Seq<char>,
    opts: LinkOpts,
    facts: LinkFacts,
    s: LinkStep,
)
    requires
        is_absolute(target),
        lexical_normal(target) == target,
        facts.entry matches Some(Entry::Symlink(text)) && text@ == target,
        link_step_spec(path, root, target, opts, facts, s),
    ensures
        s == LinkStep::AlreadyLinked,
{
    let base = match parent_path(path) {
        Some(p) => p,
        None => root,
    };
    assert(join_path(base, target) == target);
}

/// Every target that `resolve_target` gives is in normal form, and it is
/// absolute when the root is.
pub proof fn law_target_is_normal(root: Seq<char>, raw: Seq<char>, home: Option<Seq<char>>)
    ensures
        ({
            let t = lexical_normal(join_path(root, crate::project::expanded(raw, home)));
            &&& lexical_normal(t) == t
            &&& is_absolute(root) ==> is_absolute(t)
        }),
{
    let j = join_path(root, crate::project::expanded(raw, home));
    law_lexical_normal_idempotent(j);
    if is_absolute(root) {
        assert(is_absolute(j));
        law_absolute_stays_absolute(j);
    }
}

/// `link` is idempotent for every target that `resolve_target` gives from
/// an absolute repository root: once the link holds that target, asking
/// for the same link again finds it already in place.
pub proof fn law_relink_resolved_is_noop(
    path: Seq<char>,
    root: Seq<char>,
    raw: Seq<char>,
    home: Option<Seq<char>>,
    opts: LinkOpts,
    facts: LinkFacts,
    s: LinkStep,
)
    requires
        is_absolute(root),
        facts.entry matches Some(Entry::Symlink(text)) && text@ == lexical_normal(
            join_path(root, crate::project::expanded(raw, home)),
        ),
        link_step_spec(
            path,
            root,
            lexical_normal(join_path(root, crate::project::expanded(raw, home))),
            opts,
            facts,
            s,
        ),
    ensures
        s == LinkStep::AlreadyLinked,
{
    law_target_is_normal(root, raw, home);
    law_relink_is_noop(
        path,
        root,
        lexical_normal(join_path(root, crate::project::expanded(raw, home))),
        opts,
        facts,
        s,
    );
}

/// `link` never overwrites data: existing data is moved only to a target
/// where nothing is, and only with the user's yes (or `--yes`); a target
/// is created only where nothing is; when both places hold something, the
/// request is refused.
pub proof fn law_link_keeps_data(
    path: Seq<char>,
    root: Seq<char>,
    target: Seq<char>,
    opts: LinkOpts,
    facts: LinkFacts,
    s: LinkStep,
)
    requires
        link_step_spec(path, root, target, opts, facts, s),
    ensures
        s == LinkStep::Proceed(Prep::MoveIntoTarget) ==> facts.target_exists == Some(false) && (
        opts.yes || facts.confirmed == Some(true)),
        s matches LinkStep::Proceed(prep) && prep_creates(prep) ==> facts.target_exists == Some(
            false,
        ),
        s == LinkStep::Proceed(Prep::CreateTarget) ==> facts.entry == Some(Entry::Missing),
        (facts.entry == Some(Entry::File) || (facts.entry == Some(Entry::Dir) && facts.dir_empty
            == Some(false))) && facts.target_exists == Some(true) ==> s is Fail,
{
}

/// `link` never leaves a dangling link: whenever it goes ahead, the
/// target either exists already or is made by the plan, by moving the
/// data there or by creating it fresh (of `--kind`).
pub proof fn law_link_never_dangles(
    path: Seq<char>,
    root: Seq<char>,
    target: Seq<char>,
    opts: LinkOpts,
    facts: LinkFacts,
    prep: Prep,
)
    requires
        link_step_spec(path, root, target, opts, facts, LinkStep::Proceed(prep)),
    ensures
        facts.target_exists == Some(true) || (facts.target_exists == Some(false) && (prep_creates(
            prep,
        ) || prep == Prep::MoveIntoTarget)),
        facts.target_exists == Some(true) ==> !prep_creates(prep) && prep != Prep::MoveIntoTarget,
{
}

/// A dry run changes nothing on disk: no link, data or exclude entry is
/// created, moved or removed, whatever the request.
pub proof fn law_dry_run_writes_nothing(
    opts: LinkOpts,
    prep: Prep,
    path: Seq<char>,
    target: Seq<char>,
    plan: LinkPlan,
    root: Seq<char>,
    purge: bool,
    yes: bool,
    facts: UnlinkFacts,
    s: UnlinkStep,
)
    requires
        opts.dry_run,
        link_plan_spec(prep, path, target, opts, plan),
        unlink_step_spec(path, root, purge, yes, true, facts, s),
    ensures
        plan.clear is None && plan.create_target is None && !plan.create_link && !plan.write_exclude,
        s matches UnlinkStep::Proceed(u) ==> !u.purge_target && !u.remove_link && !u.update_exclude,
{
}

/// `unlink` removes nothing but a link: real data at the location is
/// refused, and the target is purged only with `--purge` and two yes
/// answers from the user (or `--yes`).
pub proof fn law_unlink_only_links(
    path: Seq<char>,
    root: Seq<char>,
    purge: bool,
    yes: bool,
    dry_run: bool,
    facts: UnlinkFacts,
    s: UnlinkStep,
)
    requires
        unlink_step_spec(path, root, purge, yes, dry_run, facts, s),
    ensures
        s is Proceed ==> facts.entry matches Some(Entry::Symlink(_)),
        s matches UnlinkStep::Proceed(plan) && plan.purge_target ==> purge && (yes || (
        facts.confirmed == Some(true) && facts.confirmed_again == Some(true))),
{
}


/// Once `link` goes ahead, the link is made unless it is a dry run,
/// whatever had to be done first: existing data moved into the target (and
/// only then the link made), an old link or empty directory removed, the
/// target created, or nothing. The exclude entry is looked up unless
/// `--no-exclude`, and written only when the link is made.
pub proof fn law_plan_makes_the_link(
    prep: Prep,
    path: Seq<char>,
    target: Seq<char>,
    opts: LinkOpts,
    p: LinkPlan,
)
    requires
        link_plan_spec(prep, path, target, opts, p),
    ensures
        p.create_link <==> !opts.dry_run,
        p.check_exclude <==> !opts.no_exclude,
        p.write_exclude ==> p.create_link && p.check_exclude,
        !opts.dry_run && !opts.no_exclude ==> p.write_exclude,
        prep is MoveIntoTarget && !opts.dry_run ==> p.clear == Some(Clear::MoveIntoTarget)
            && p.create_target is None,
        prep is ReplaceLink && !opts.dry_run ==> p.clear == Some(Clear::RemoveLink),
        prep is RemoveEmptyDir && !opts.dry_run ==> p.clear == Some(Clear::RemoveEmptyDir),
        prep is CreateTarget && !opts.dry_run ==> p.clear is None && p.create_target == Some(
            opts.kind,
        ),
        prep is Nothing ==> p.clear is None && p.create_target is None && p.reports.len() == 0,
        !(prep is Nothing) ==> p.reports.len() >= 1,
{
    assert(p.reports@.len() == report_texts(p.reports@).len());
}

/// `unlink` of a link that goes ahead removes the link and its exclude
/// entry unless it is a dry run, with or without `--yes` and `--purge`;
/// the target it reports is where the link points, and the target's data
/// is deleted only under `--purge` and never in a dry run. Without
/// `--purge`, or with `--yes`, no question is asked: it goes ahead at once.
pub proof fn law_unlink_removes_the_link(
    path: Seq<char>,
    root: Seq<char>,
    purge: bool,
    yes: bool,
    dry_run: bool,
    facts: UnlinkFacts,
    s: UnlinkStep,
)
    requires
        unlink_step_spec(path, root, purge, yes, dry_run, facts, s),
        facts.entry matches Some(Entry::Symlink(_)),
    ensures
        s matches UnlinkStep::Proceed(plan) ==> plan.remove_link == !dry_run
            && plan.update_exclude == !dry_run && plan.target@ == link_target_abs(
            path,
            root,
            facts.entry->0->0@,
        ) && (plan.purge_target <==> purge && !dry_run),
        !purge || yes ==> s is Proceed,
{
}


/// What `link` decides from what it found: it first looks at the link
/// location; a link already pointing to the target is kept as it is, one
/// pointing elsewhere is refused without `--force`; with nothing at the
/// location, an existing target is linked as it is (restoring a link after
/// a clone) and a missing one is created first; the request is refused as
/// aborted only when the user said no (and `--yes` was not given).
pub proof fn law_link_outcomes(
    path: Seq<char>,
    root: Seq<char>,
    target: Seq<char>,
    opts: LinkOpts,
    facts: LinkFacts,
    s: LinkStep,
)
    requires
        link_step_spec(path, root, target, opts, facts, s),
    ensures
        facts.entry is None ==> s == LinkStep::Ask(LinkQuery::Entry),
        s is AlreadyLinked <==> (facts.entry matches Some(Entry::Symlink(t)) && link_target_abs(
            path,
            root,
            t@,
        ) == target),
        (facts.entry matches Some(Entry::Symlink(t)) && link_target_abs(path, root, t@) != target
            && !opts.force) ==> s is Fail,
        facts.entry == Some(Entry::Missing) && facts.target_exists == Some(true) ==> s
            == LinkStep::Proceed(Prep::Nothing),
        facts.entry == Some(Entry::Missing) && facts.target_exists == Some(false) ==> s
            == LinkStep::Proceed(Prep::CreateTarget),
        s == LinkStep::Fail(LinkError::Aborted) ==> !opts.yes && facts.confirmed == Some(false),
        s == LinkStep::Proceed(Prep::MoveIntoTarget) ==> (facts.entry == Some(Entry::File) || (
        facts.entry == Some(Entry::Dir) && facts.dir_empty == Some(false))),
{
}

/// The path written to the exclude file never starts with `/`, and a path
/// that starts with neither `./` nor `/` is written as it is.
pub proof fn law_managed_rel_is_plain(rel: Seq<char>)
    ensures
        !(managed_rel_spec(rel).len() >= 1 && managed_rel_spec(rel)[0] == '/'),
        !(rel.len() >= 1 && rel[0] == '/') && !(rel.len() >= 2 && rel[0] == '.' && rel[1] == '/')
            ==> managed_rel_spec(rel) == rel,
{
    lemma_strip_slashes_any(strip_dot_slash(rel));
}

proof fn lemma_strip_slashes_any(s: Seq<char>)
    ensures
        !(strip_leading(s, '/').len() >= 1 && strip_leading(s, '/')[0] == '/'),
    decreases s.len(),
{
    if s.len() > 0 && s[0] == '/' {
        lemma_strip_slashes_any(s.drop_first());
    }
}

} // verus!
