//! Locating the repository and resolving the paths given on the command
//! line.

use vstd::prelude::*;
use crate::path::{
    body, collect, collect_components, comp_list_ok, components, components_of, is_absolute,
    join_path, lead, lemma_components_collect, lemma_components_ok, lemma_join_components,
    lexical_normal,
    normalize_components, parent_comp, parent_path, push_path, root_comp,
};
use crate::text::{
    chars_eq, chars_of, is_whitespace, lines, lines_of, split_on, string_of, trim_end,
    trim_end_chars,
    trim_start, views,
};

verus! {

/// `p` with a leading `~` replaced by the home directory: `~` alone becomes
/// the home directory, `~/rest` becomes the home directory joined with
/// `rest`; without a home directory, and for any other path, `p` is kept.
pub open spec fn expanded(p: Seq<char>, home: Option<Seq<char>>) -> Seq<char> {
    if p == seq!['~'] {
        match home {
            Some(h) => h,
            None => p,
        }
    } else if p.len() >= 2 && p[0] == '~' && p[1] == '/' {
        match home {
            Some(h) => join_path(h, p.skip(2)),
            None => p,
        }
    } else {
        p
    }
}

/// The view of an optional string.
pub open spec fn opt_view(s: Option<&str>) -> Option<Seq<char>> {
    match s {
        Some(x) => Some(x@),
        None => None,
    }
}

/// `base` is a component-wise prefix of `full` (`Path::strip_prefix`
/// succeeds).
pub open spec fn is_comp_prefix(base: Seq<Seq<char>>, full: Seq<Seq<char>>) -> bool {
    base.len() <= full.len() && forall|i: int| 0 <= i < base.len() ==> #[trigger] base[i] == full[i]
}

/// Some component of `full` after the first `from` is `..`.
pub open spec fn climbs_after(full: Seq<Seq<char>>, from: int) -> bool {
    exists|i: int| from <= i < full.len() && #[trigger] full[i] == parent_comp()
}

/// The components a resolved repository path is checked against: the
/// root's own, when they are a prefix of the path's (a path under the root
/// as it was given); the canonical root's otherwise.
pub open spec fn containing_base(
    root: Seq<char>,
    canonical: Seq<char>,
    full: Seq<char>,
) -> Seq<Seq<char>> {
    if is_comp_prefix(components(root), components(full)) {
        components(root)
    } else {
        components(canonical)
    }
}

/// What resolving the repository path `raw` against `root` gives, when the
/// root's canonical form is `canonical`: the joined path when it lies under
/// the root (as given, or in canonical form) and no `..` follows the
/// root's components; otherwise the error that says which of the two
/// failed.
pub open spec fn repo_path_spec(
    root: Seq<char>,
    raw: Seq<char>,
    home: Option<Seq<char>>,
    canonical: Seq<char>,
    r: Result<String, PathError>,
) -> bool {
    let full = join_path(root, expanded(raw, home));
    let base = containing_base(root, canonical, full);
    match r {
        Ok(p) => p@ == full && is_comp_prefix(base, components(full)) && !climbs_after(
            components(full),
            base.len() as int,
        ),
        Err(PathError::Outside { raw: e_raw, root: e_root }) => !is_comp_prefix(
            components(root),
            components(full),
        ) && !is_comp_prefix(components(canonical), components(full)) && e_raw@ == raw && e_root@
            == root,
        Err(PathError::Escapes { raw: e_raw }) => is_comp_prefix(base, components(full))
            && climbs_after(components(full), base.len() as int) && e_raw@ == raw,
    }
}

/// Why a repository path was refused.
pub enum PathError {
    /// The path does not lie under the repository root.
    Outside { raw: String, root: String },
    /// The path leaves the repository root through `..`.
    Escapes { raw: String },
}

impl PathError {
    /// The message the error is reported with.
    pub fn message(&self) -> (m: String)
        ensures
            m@ == match self {
                PathError::Outside { raw, root } => "path `"@ + raw@
                    + "` is outside the repository root `"@ + root@ + "`"@,
                PathError::Escapes { raw } => "path `"@ + raw@ + "` escapes the repository root via `..`"@,
            },
    {
        match self {
            PathError::Outside { raw, root } => {
                let mut m = String::from_str("path `");
                m.append(raw.as_str());
                m.append("` is outside the repository root `");
                m.append(root.as_str());
                m.append("`");
                m
            },
            PathError::Escapes { raw } => {
                let mut m = String::from_str("path `");
                m.append(raw.as_str());
                m.append("` escapes the repository root via `..`");
                m
            },
        }
    }
}


/// Lexically normalizes a path: `.` components are dropped and `..` removes
/// the component before it, without touching the file system.
pub fn lexical_normalize(p: &str) -> (r: String)
    ensures
        r@ == lexical_normal(p@),
{
    let cs = components_of(&chars_of(p));
    let n = normalize_components(&cs);
    let out = collect_components(&n, n.len());
    assert(views(n@).take(n.len() as int) =~= views(n@));
    string_of(&out)
}

/// Joins `q` to `base` the way `Path::join` does.
pub fn join(base: &str, q: &str) -> (r: String)
    ensures
        r@ == join_path(base@, q@),
{
    let mut b = chars_of(base);
    push_path(&mut b, &chars_of(q));
    string_of(&b)
}

/// Expands a leading `~` to `home`, the home directory when one is known.
pub fn expand_tilde(p: &str, home: Option<&str>) -> (r: String)
    ensures
        r@ == expanded(p@, opt_view(home)),
{
    let v = chars_of(p);
    if v.len() == 1 && v[0] == '~' {
        assert(v@ =~= seq!['~']);
        match home {
            Some(h) => String::from_str(h),
            None => String::from_str(p),
        }
    } else if v.len() >= 2 && v[0] == '~' && v[1] == '/' {
        match home {
            Some(h) => {
                let mut rest: Vec<char> = Vec::new();
                let mut i: usize = 2;
                while i < v.len()
                    invariant
                        2 <= i <= v.len(),
                        rest@ == v@.subrange(2, i as int),
                    decreases v.len() - i,
                {
                    rest.push(v[i]);
                    assert(v@.subrange(2, i + 1) =~= v@.subrange(2, i as int).push(v@[i as int]));
                    i = i + 1;
                }
                assert(rest@ =~= v@.skip(2));
                let mut b = chars_of(h);
                push_path(&mut b, &rest);
                string_of(&b)
            },
            None => String::from_str(p),
        }
    } else {
        assert(v@ != seq!['~']) by {
            if v@ =~= seq!['~'] {
                assert(v@[0] == '~');
            }
        }
        String::from_str(p)
    }
}

/// Resolves a target given with `--to`: `~` is expanded, a relative path
/// is taken from `root`, and the result is lexically normalized (the target
/// need not exist).
pub fn resolve_target(root: &str, raw: &str, home: Option<&str>) -> (r: String)
    ensures
        r@ == lexical_normal(join_path(root@, expanded(raw@, opt_view(home)))),
{
    let p = expand_tilde(raw, home);
    let abs = join(root, p.as_str());
    lexical_normalize(abs.as_str())
}

fn is_prefix_of(base: &Vec<Vec<char>>, full: &Vec<Vec<char>>) -> (b: bool)
    ensures
        b == is_comp_prefix(views(base@), views(full@)),
{
    if base.len() > full.len() {
        return false;
    }
    for i in 0..base.len()
        invariant
            base.len() <= full.len(),
            forall|j: int| 0 <= j < i ==> #[trigger] views(base@)[j] == views(full@)[j],
    {
        if !chars_eq(&base[i], &full[i]) {
            assert(views(base@)[i as int] != views(full@)[i as int]);
            return false;
        }
    }
    true
}

/// The root's canonical form as the caller read it from the file system,
/// or the root itself when that failed.
pub open spec fn canonical_or_root(root: Seq<char>, canonical_root: Option<Seq<char>>) -> Seq<
    char,
> {
    match canonical_root {
        Some(c) => c,
        None => root,
    }
}

/// Resolves a repository path (`.pi`, `.github/x.md`) against `root` and
/// checks that it stays inside the repository: `~` is expanded and a
/// relative path is taken from `root`. `canonical_root` is the root's
/// canonical form as read from the file system (`None` when that failed:
/// the root itself is used). The path is refused when neither the root's
/// components nor the canonical root's are a prefix of its components, or
/// when `..` follows them.
pub fn repo_path(root: &str, raw: &str, home: Option<&str>, canonical_root: Option<&str>) -> (r:
    Result<String, PathError>)
    ensures
        repo_path_spec(root@, raw@, opt_view(home), canonical_or_root(root@, opt_view(canonical_root)), r),
        ({
            let q = expanded(raw@, opt_view(home));
            !is_absolute(q) && (forall|i: int|
                0 <= i < components(q).len() ==> #[trigger] components(q)[i] != parent_comp())
                ==> (r matches Ok(p) && p@ == join_path(root@, q))
        }),
{
    let canon: &str = match canonical_root {
        Some(c) => c,
        None => root,
    };
    let r = resolve_under(root, raw, home, canon);
    proof {
        let q = expanded(raw@, opt_view(home));
        if !is_absolute(q) && (forall|j: int|
            0 <= j < components(q).len() ==> #[trigger] components(q)[j] != parent_comp()) {
            law_inner_path_accepted(root@, raw@, opt_view(home), canon@, r);
        }
    }
    r
}

fn resolve_under(root: &str, raw: &str, home: Option<&str>, canon: &str) -> (r: Result<
    String,
    PathError,
>)
    ensures
        repo_path_spec(root@, raw@, opt_view(home), canon@, r),
{
    let p = expand_tilde(raw, home);
    let full = join(root, p.as_str());
    let fc = components_of(&chars_of(full.as_str()));
    let rc = components_of(&chars_of(root));
    let cc = components_of(&chars_of(canon));
    let base: &Vec<Vec<char>> = if is_prefix_of(&rc, &fc) {
        &rc
    } else if is_prefix_of(&cc, &fc) {
        &cc
    } else {
        return Err(PathError::Outside { raw: String::from_str(raw), root: String::from_str(root) });
    };
    let mut i = base.len();
    while i < fc.len()
        invariant
            base.len() <= i <= fc.len(),
            is_comp_prefix(views(base@), views(fc@)),
            views(fc@) == components(full@),
            views(base@) == containing_base(root@, canon@, full@),
            full@ == join_path(root@, expanded(raw@, opt_view(home))),
            forall|j: int| base.len() <= j < i ==> #[trigger] views(fc@)[j] != parent_comp(),
        decreases fc.len() - i,
    {
        let c = &fc[i];
        if c.len() == 2 && c[0] == '.' && c[1] == '.' {
            assert(views(fc@)[i as int] =~= parent_comp());
            assert(climbs_after(components(full@), base.len() as int));
            return Err(PathError::Escapes { raw: String::from_str(raw) });
        }
        assert(views(fc@)[i as int] != parent_comp()) by {
            if views(fc@)[i as int] == parent_comp() {
                assert(c@ =~= parent_comp());
            }
        }
        i = i + 1;
    }
    Ok(full)
}

/// A repository path given relative to the root, with no `..` among its
/// components, is always accepted, and comes back joined to the root as
/// the root was given (not in canonical form).
pub proof fn law_inner_path_accepted(
    root: Seq<char>,
    raw: Seq<char>,
    home: Option<Seq<char>>,
    canonical: Seq<char>,
    r: Result<String, PathError>,
)
    requires
        repo_path_spec(root, raw, home, canonical, r),
        !is_absolute(expanded(raw, home)),
        forall|i: int|
            0 <= i < components(expanded(raw, home)).len() ==> #[trigger] components(
                expanded(raw, home),
            )[i] != parent_comp(),
    ensures
        r matches Ok(p) && p@ == join_path(root, expanded(raw, home)),
{
    let q = expanded(raw, home);
    let full = join_path(root, q);
    let rc = components(root);
    let fc = components(full);
    if root.len() == 0 {
        assert(full == q) by {
            assert(root + q =~= q);
        }
        assert(rc =~= Seq::<Seq<char>>::empty()) by {
            assert(split_on(root, '/') == seq![Seq::<char>::empty()]);
            let e = seq![Seq::<char>::empty()];
            assert(e.drop_last() =~= Seq::<Seq<char>>::empty());
            assert(body(e) == body(e.drop_last()));
        }
        assert(!climbs_after(fc, 0)) by {
            if climbs_after(fc, 0) {
                let i = choose|i: int| 0 <= i < fc.len() && #[trigger] fc[i] == parent_comp();
                assert(components(q)[i] != parent_comp());
            }
        }
    } else {
        lemma_join_components(root, q);
        let bq = body(split_on(q, '/'));
        assert(components(q) == lead(q) + bq);
        assert(is_comp_prefix(rc, fc)) by {
            assert forall|i: int| 0 <= i < rc.len() implies #[trigger] rc[i] == fc[i] by {
                assert(fc[i] == (rc + bq)[i]);
            }
        }
        assert(!climbs_after(fc, rc.len() as int)) by {
            if climbs_after(fc, rc.len() as int) {
                let i = choose|i: int|
                    rc.len() <= i < fc.len() && #[trigger] fc[i] == parent_comp();
                assert(fc[i] == bq[i - rc.len()]);
                assert(components(q)[lead(q).len() + i - rc.len()] == bq[i - rc.len()]);
            }
        }
    }
}

/// The lowest number of components an ancestor keeps: the root stays.
pub open spec fn ancestor_floor(cs: Seq<Seq<char>>) -> int {
    if cs.len() > 0 && cs[0] == root_comp() {
        1
    } else {
        0
    }
}

/// `p`, then its parent, its parent's parent, and so on while there is
/// one (`Path::ancestors`).
pub open spec fn ancestors(p: Seq<char>) -> Seq<Seq<char>> {
    let cs = components(p);
    let lo = ancestor_floor(cs);
    seq![p] + Seq::new((cs.len() - lo) as nat, |k: int| collect(cs.take(cs.len() - 1 - k)))
}

proof fn lemma_prefix_ok(cs: Seq<Seq<char>>, m: int)
    requires
        comp_list_ok(cs),
        0 <= m <= cs.len(),
    ensures
        comp_list_ok(cs.take(m)),
        components(collect(cs.take(m))) == cs.take(m),
{
    let t = cs.take(m);
    assert forall|i: int| 0 < i < t.len() implies crate::path::comp_ok(#[trigger] t[i]) by {
        assert(t[i] == cs[i]);
    }
    if t.len() > 0 {
        assert(t[0] == cs[0]);
    }
    lemma_components_collect(t);
}

/// Each path in `ancestors(p)` is the parent of the one before it, and the
/// last one has no parent.
pub proof fn law_ancestors_are_parents(p: Seq<char>)
    ensures
        forall|i: int|
            0 <= i < ancestors(p).len() - 1 ==> parent_path(#[trigger] ancestors(p)[i]) == Some(
                ancestors(p)[i + 1],
            ),
        parent_path(ancestors(p).last()) is None,
{
    let cs = components(p);
    let lo = ancestor_floor(cs);
    let a = ancestors(p);
    lemma_components_ok(p);
    assert forall|i: int| 0 <= i < a.len() - 1 implies parent_path(#[trigger] a[i]) == Some(a[i + 1]) by {
        let m = cs.len() - i;
        lemma_prefix_ok(cs, m);
        lemma_prefix_ok(cs, m - 1);
        assert(a[i + 1] == collect(cs.take(m - 1)));
        if i == 0 {
            assert(cs.take(m) =~= cs);
        } else {
            assert(a[i] == collect(cs.take(m)));
        }
        assert(cs.take(m).drop_last() =~= cs.take(m - 1));
        assert(cs.take(m).last() == cs[m - 1]);
        if m - 1 > 0 {
            assert(crate::path::comp_ok(cs[m - 1]));
            assert(cs[m - 1][0] != '/');
        } else {
            assert(cs[0] != root_comp());
        }
    }
    let m = lo;
    lemma_prefix_ok(cs, m);
    if cs.len() - lo > 0 {
        assert(a.last() == collect(cs.take(m)));
        if lo == 0 {
            assert(cs.take(0) =~= Seq::<Seq<char>>::empty());
        } else {
            assert(cs.take(1) =~= seq![root_comp()]);
        }
    } else {
        assert(a.last() == p);
        if lo == 1 {
            assert(cs.len() == 1);
            assert(cs[0] == root_comp());
        }
    }
}

/// The places where the repository root is looked for, in order:
/// `ancestors(start)`.
pub fn git_root_candidates(start: &str) -> (v: Vec<String>)
    ensures
        v@.map_values(|s: String| s@) == ancestors(start@),
{
    let cs = components_of(&chars_of(start));
    let n = cs.len();
    let lo: usize = if n > 0 && cs[0].len() == 1 && cs[0][0] == '/' {
        assert(views(cs@)[0] =~= root_comp());
        1
    } else {
        assert(n > 0 ==> views(cs@)[0] != root_comp()) by {
            if n > 0 && views(cs@)[0] == root_comp() {
                assert(cs@[0]@.len() == 1);
                assert(cs@[0]@[0] == '/');
            }
        }
        0
    };
    let ghost a = ancestors(start@);
    let mut v: Vec<String> = Vec::new();
    v.push(String::from_str(start));
    let mut k = n;
    while k > lo
        invariant
            lo <= k <= n,
            n == cs.len(),
            views(cs@) == components(start@),
            lo == ancestor_floor(components(start@)),
            a == ancestors(start@),
            v@.map_values(|s: String| s@) == a.take(1 + n - k),
        decreases k,
    {
        k = k - 1;
        let d = collect_components(&cs, k);
        let ghost old_v = v@.map_values(|s: String| s@);
        let ds = string_of(&d);
        v.push(ds);
        assert(a[1 + n - k - 1] == collect(views(cs@).take(k as int)));
        assert(v@.map_values(|s: String| s@) =~= old_v.push(ds@));
        assert(a.take(1 + n - k) =~= a.take(n - k).push(a[n - k]));
        assert(v@.map_values(|s: String| s@) =~= a.take(1 + n - k));
    }
    assert(a.take(1 + n - lo) =~= a);
    v
}

/// The first of `cands` whose flag in `found` is set (looking no further
/// than either sequence goes); none when no such flag is set.
pub open spec fn first_marked(cands: Seq<Seq<char>>, found: Seq<bool>) -> Option<Seq<char>>
    decreases found.len(),
{
    if found.len() == 0 || cands.len() == 0 {
        None
    } else if found[0] {
        Some(cands[0])
    } else {
        first_marked(cands.drop_first(), found.drop_first())
    }
}

/// The view of an optional string.
pub open spec fn opt_string_view(r: Option<String>) -> Option<Seq<char>> {
    match r {
        Some(s) => Some(s@),
        None => None,
    }
}

/// The file whose presence marks a directory as a repository root:
/// `<dir>/.git`.
pub fn git_marker_path(dir: &str) -> (p: String)
    ensures
        p@ == join_path(dir@, ".git"@),
{
    join(dir, ".git")
}

/// The repository root, from what was found walking up from `start`:
/// `has_git[i]` tells whether `git_marker_path` of the `i`-th of
/// `ancestors(start)` (from `git_root_candidates`) exists, and the first
/// one for which it does is the root; none when none does (the caller may
/// stop looking at the first one found).
pub fn find_git_root(start: &str, has_git: &Vec<bool>) -> (r: Option<String>)
    ensures
        opt_string_view(r) == first_marked(ancestors(start@), has_git@),
        r matches Some(d) ==> ancestors(start@).contains(d@),
{
    let cands = git_root_candidates(start);
    let ghost a = ancestors(start@);
    let ghost cv = cands@.map_values(|s: String| s@);
    proof {
        lemma_first_marked_in(a, has_git@);
    }
    assert(cv.skip(0) =~= cv);
    assert(has_git@.skip(0) =~= has_git@);
    let mut i: usize = 0;
    while i < cands.len() && i < has_git.len()
        invariant
            cv == cands@.map_values(|s: String| s@),
            cv == a,
            a == ancestors(start@),
            i <= cands.len(),
            i <= has_git.len(),
            first_marked(cv.skip(i as int), has_git@.skip(i as int)) == first_marked(a, has_git@),
        decreases cands.len() - i,
    {
        assert(cv.skip(i as int)[0] == cands@[i as int]@);
        assert(has_git@.skip(i as int)[0] == has_git@[i as int]);
        if has_git[i] {
            return Some(cands[i].clone());
        }
        assert(cv.skip(i as int).drop_first() =~= cv.skip(i + 1));
        assert(has_git@.skip(i as int).drop_first() =~= has_git@.skip(i + 1));
        i = i + 1;
    }
    assert(cv.skip(i as int).len() == 0 || has_git@.skip(i as int).len() == 0);
    None
}

proof fn lemma_first_marked_in(cands: Seq<Seq<char>>, found: Seq<bool>)
    ensures
        first_marked(cands, found) matches Some(d) ==> cands.contains(d),
    decreases found.len(),
{
    if found.len() > 0 && cands.len() > 0 {
        if found[0] {
            assert(cands[0] == cands[0]);
        } else {
            lemma_first_marked_in(cands.drop_first(), found.drop_first());
            if let Some(d) = first_marked(cands.drop_first(), found.drop_first()) {
                let k = choose|k: int| 0 <= k < cands.drop_first().len() && cands.drop_first()[k] == d;
                assert(cands[k + 1] == d);
            }
        }
    }
}

/// The message given when a command that needs a repository finds none
/// from `start`.
pub fn no_repo_message(start: &str) -> (m: String)
    ensures
        m@ == "no git repository found from `"@ + start@
            + "` (use --project-dir, or link with --no-exclude in a non-git dir)"@,
{
    let mut m = String::from_str("no git repository found from `");
    m.append(start);
    m.append("` (use --project-dir, or link with --no-exclude in a non-git dir)");
    m
}

/// What is found at `<root>/.git`.
pub enum GitMarker {
    /// A directory: an ordinary repository.
    Dir,
    /// A file, with its contents: a worktree's pointer to its git directory.
    File(String),
    /// Neither.
    Other,
}

/// Why the git directory of a repository could not be resolved.
pub enum GitDirError {
    /// `.git` is a file without a `gitdir:` line.
    NoGitdirLine { git_path: String },
    /// `.git` is neither a directory nor a file.
    NotGit { git_path: String },
}

impl GitDirError {
    /// The message the error is reported with.
    pub fn message(&self) -> (m: String)
        ensures
            m@ == match self {
                GitDirError::NoGitdirLine { git_path } => git_path@
                    + " is a file but has no `gitdir:` line"@,
                GitDirError::NotGit { git_path } => git_path@
                    + " is neither a directory nor a gitfile"@,
            },
    {
        match self {
            GitDirError::NoGitdirLine { git_path } => {
                let mut m = git_path.clone();
                m.append(" is a file but has no `gitdir:` line");
                m
            },
            GitDirError::NotGit { git_path } => {
                let mut m = git_path.clone();
                m.append(" is neither a directory nor a gitfile");
                m
            },
        }
    }
}

/// The text after `gitdir:` on the first line that starts with it.
pub open spec fn first_gitdir(ls: Seq<Seq<char>>) -> Option<Seq<char>>
    decreases ls.len(),
{
    let p = "gitdir:"@;
    if ls.len() == 0 {
        None
    } else if ls[0].len() >= p.len() && ls[0].take(p.len() as int) == p {
        Some(ls[0].skip(p.len() as int))
    } else {
        first_gitdir(ls.drop_first())
    }
}

/// `s` without white space at either end (`str::trim`).
pub open spec fn trim(s: Seq<char>) -> Seq<char> {
    trim_start(trim_end(s))
}

/// The exclude file of a git directory: `<git_dir>/info/exclude`.
pub open spec fn exclude_of(git_dir: Seq<char>) -> Seq<char> {
    join_path(join_path(git_dir, "info"@), "exclude"@)
}

/// What `resolve_git_dirs` gives for `root`, what is found at its `.git`,
/// and the home directory.
pub open spec fn git_dirs_spec(
    root: Seq<char>,
    marker: GitMarker,
    home: Option<Seq<char>>,
) -> Result<(Seq<char>, Seq<char>, Seq<char>), Seq<char>> {
    let git = join_path(root, ".git"@);
    match marker {
        GitMarker::Dir => Ok((root, git, exclude_of(git))),
        GitMarker::File(content) => match first_gitdir(lines(content@)) {
            Some(raw) => {
                let g = join_path(root, expanded(trim(raw), home));
                Ok((root, g, exclude_of(g)))
            },
            None => Err(git),
        },
        GitMarker::Other => Err(git),
    }
}

fn trim_start_chars(v: &Vec<char>) -> (r: Vec<char>)
    ensures
        r@ == trim_start(v@),
{
    let mut k: usize = 0;
    assert(v@.skip(0) =~= v@);
    while k < v.len() && is_whitespace(v[k])
        invariant
            k <= v.len(),
            trim_start(v@.skip(k as int)) == trim_start(v@),
        decreases v.len() - k,
    {
        assert(v@.skip(k as int).drop_first() =~= v@.skip(k + 1));
        k = k + 1;
    }
    let mut r: Vec<char> = Vec::new();
    for i in k..v.len()
        invariant
            k <= v.len(),
            r@ == v@.subrange(k as int, i as int),
    {
        r.push(v[i]);
        assert(v@.subrange(k as int, i + 1) =~= v@.subrange(k as int, i as int).push(v@[i as int]));
    }
    assert(v@.subrange(k as int, v.len() as int) =~= v@.skip(k as int));
    r
}

/// The characters of `v` without white space at either end.
pub fn trim_chars(v: &Vec<char>) -> (r: Vec<char>)
    ensures
        r@ == trim(v@),
{
    trim_start_chars(&trim_end_chars(v))
}

fn find_gitdir(ls: &Vec<Vec<char>>) -> (r: Option<Vec<char>>)
    ensures
        match r {
            Some(v) => first_gitdir(views(ls@)) == Some(v@),
            None => first_gitdir(views(ls@)) is None,
        },
{
    let p = chars_of("gitdir:");
    let ghost all = views(ls@);
    assert(all.skip(0) =~= all);
    for i in 0..ls.len()
        invariant
            p@ == "gitdir:"@,
            all == views(ls@),
            first_gitdir(all.skip(i as int)) == first_gitdir(all),
    {
        let l = &ls[i];
        let ghost rest = all.skip(i as int);
        assert(rest[0] == l@);
        assert(rest.drop_first() =~= all.skip(i + 1));
        if l.len() >= p.len() {
            let mut head: Vec<char> = Vec::new();
            for j in 0..p.len()
                invariant
                    p.len() <= l.len(),
                    head@ == l@.take(j as int),
            {
                head.push(l[j]);
                assert(l@.take(j + 1) =~= l@.take(j as int).push(l@[j as int]));
            }
            if chars_eq(&head, &p) {
                let mut tail: Vec<char> = Vec::new();
                for j in p.len()..l.len()
                    invariant
                        p.len() <= l.len(),
                        tail@ == l@.subrange(p.len() as int, j as int),
                {
                    tail.push(l[j]);
                    assert(l@.subrange(p.len() as int, j + 1) =~= l@.subrange(
                        p.len() as int,
                        j as int,
                    ).push(l@[j as int]));
                }
                assert(tail@ =~= l@.skip(p.len() as int));
                return Some(tail);
            }
        }
    }
    assert(all.skip(ls.len() as int) =~= Seq::<Seq<char>>::empty());
    None
}

/// Resolves the git directory and exclude file of the repository at
/// `root`, from what is found at `<root>/.git`: a directory is the git
/// directory itself; a file (a worktree) names it on its first `gitdir:`
/// line, where `~` is expanded and a relative path is taken from `root`.
/// Returns `(root, git_dir, exclude_path)`.
pub fn resolve_git_dirs(root: &str, marker: &GitMarker, home: Option<&str>) -> (r: Result<
    (String, String, String),
    GitDirError,
>)
    ensures
        match (r, git_dirs_spec(root@, *marker, opt_view(home))) {
            (Ok((a, b, c)), Ok((x, y, z))) => a@ == x && b@ == y && c@ == z,
            (Err(GitDirError::NoGitdirLine { git_path }), Err(g)) => marker is File && git_path@ == g,
            (Err(GitDirError::NotGit { git_path }), Err(g)) => marker is Other && git_path@ == g,
            _ => false,
        },
        r matches Ok((a, _, _)) ==> a@ == root@,
        r matches Ok((_, g, e)) ==> e@ == exclude_of(g@),
{
    let git = join(root, ".git");
    match marker {
        GitMarker::Dir => {
            let info = join(git.as_str(), "info");
            let exclude = join(info.as_str(), "exclude");
            Ok((String::from_str(root), git, exclude))
        },
        GitMarker::File(content) => {
            let ls = lines_of(&chars_of(content.as_str()));
            match find_gitdir(&ls) {
                Some(raw) => {
                    let t = string_of(&trim_chars(&raw));
                    let e = expand_tilde(t.as_str(), home);
                    let g = join(root, e.as_str());
                    let info = join(g.as_str(), "info");
                    let exclude = join(info.as_str(), "exclude");
                    Ok((String::from_str(root), g, exclude))
                },
                None => Err(GitDirError::NoGitdirLine { git_path: git }),
            }
        },
        GitMarker::Other => Err(GitDirError::NotGit { git_path: git }),
    }
}


/// The directory a link at `path` is read from: its parent, or `root`
/// when it has none (`path.parent().unwrap_or(root)`).
pub fn parent(path: &str, root: &str) -> (r: String)
    ensures
        r@ == match parent_path(path@) {
            Some(p) => p,
            None => root@,
        },
{
    let cs = components_of(&chars_of(path));
    let n = cs.len();
    if n > 0 && !(cs[n - 1].len() == 1 && cs[n - 1][0] == '/') {
        assert(views(cs@).last() != root_comp()) by {
            if views(cs@).last() =~= root_comp() {
                assert(cs@[n - 1]@ == root_comp());
            }
        }
        let p = collect_components(&cs, n - 1);
        assert(views(cs@).take(n - 1) =~= views(cs@).drop_last());
        string_of(&p)
    } else {
        if n > 0 {
            assert(views(cs@).last() =~= root_comp());
        }
        String::from_str(root)
    }
}


/// The git directories of a repository: whatever is at `<root>/.git`, a
/// successful resolution gives back the root itself (a worktree's root is
/// the worktree, not the git directory it points to) and the exclude file
/// `info/exclude` inside the git directory found. A `.git` directory is the
/// git directory; a `.git` file is followed to the directory its first
/// `gitdir:` line names, and without such a line, or for anything else at
/// `.git`, resolution fails, naming `<root>/.git`.
pub proof fn law_git_dirs_keep_the_root(
    root: Seq<char>,
    marker: GitMarker,
    home: Option<Seq<char>>,
)
    ensures
        git_dirs_spec(root, marker, home) matches Ok((a, g, e)) ==> a == root && e == join_path(
            join_path(g, "info"@),
            "exclude"@,
        ),
        marker is Dir ==> (git_dirs_spec(root, marker, home) matches Ok((_, g, _)) && g
            == join_path(root, ".git"@)),
        marker matches GitMarker::File(c) ==> (git_dirs_spec(root, marker, home) is Ok
            <==> first_gitdir(lines(c@)) is Some),
        match marker {
            GitMarker::File(c) => match first_gitdir(lines(c@)) {
                Some(raw) => git_dirs_spec(root, marker, home) == Ok::<
                    (Seq<char>, Seq<char>, Seq<char>),
                    Seq<char>,
                >(
                    (
                        root,
                        join_path(root, expanded(trim(raw), home)),
                        exclude_of(join_path(root, expanded(trim(raw), home))),
                    ),
                ),
                None => true,
            },
            _ => true,
        },
        marker is Other ==> git_dirs_spec(root, marker, home) == Err::<
            (Seq<char>, Seq<char>, Seq<char>),
            Seq<char>,
        >(join_path(root, ".git"@)),
{
}

} // verus!
