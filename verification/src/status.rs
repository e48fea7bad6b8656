//! The state of a repository path: what is there, where a link points, and
//! whether the exclude file covers it.

use vstd::prelude::*;
use crate::exclude::{
    appended, entry_covered, entry_line, entry_state, has_line, law_add_then_present, marker_line,
    plain_rel,
};
use crate::link::{law_target_is_normal, link_target, link_target_abs, managed_rel_spec, Entry};
use crate::path::{is_absolute, join_path, lexical_normal, parent_path};
use crate::project::expanded;
use crate::text::{chars_of, push_char};

verus! {

/// The state of one repository path.
pub struct PathStatus {
    /// The path as given.
    pub path: String,
    /// `symlink`, `dangling`, `real_dir`, `real_file` or `missing`.
    pub kind: String,
    /// Where a link points, absolute and normalized.
    pub target: Option<String>,
    /// The exclude file holds the path's pattern.
    pub excluded: bool,
    /// The exclude file holds the path's marker comment.
    pub exclude_marked: bool,
    /// A remark on the state.
    pub note: Option<String>,
}

/// What was found at a repository path, with a link's target resolved.
pub enum Observed {
    /// A link pointing to `target`; `exists` tells whether anything is there.
    Link { target: String, exists: bool },
    /// A real directory.
    Dir,
    /// A real file.
    File,
    /// Nothing.
    Missing,
}

/// The state reported for `rel` given what was observed and what the
/// exclude file holds.
pub open spec fn status_spec(
    rel: Seq<char>,
    excluded: bool,
    marked: bool,
    obs: Observed,
    st: PathStatus,
) -> bool {
    &&& st.path@ == rel
    &&& st.excluded == excluded
    &&& st.exclude_marked == marked
    &&& match obs {
        Observed::Link { target, exists } => {
            &&& st.target matches Some(t) && t@ == target@
            &&& if exists {
                &&& st.kind@ == "symlink"@
                &&& st.note is None
            } else {
                &&& st.kind@ == "dangling"@
                &&& st.note matches Some(n) && n@ == "target does not exist (dangling)"@
            }
        },
        Observed::Dir => {
            &&& st.kind@ == "real_dir"@
            &&& st.target is None
            &&& st.note matches Some(n) && n@ == "not a symlink; bridgent will not touch it"@
        },
        Observed::File => {
            &&& st.kind@ == "real_file"@
            &&& st.target is None
            &&& st.note matches Some(n) && n@ == "not a symlink; bridgent will not touch it"@
        },
        Observed::Missing => {
            &&& st.kind@ == "missing"@
            &&& st.target is None
            &&& if excluded {
                st.note matches Some(n) && n@ == "excluded but missing (link broken?)"@
            } else {
                st.note is None
            }
        },
    }
}

/// Describes the state of `rel` from what was observed there and what the
/// exclude file holds.
pub fn describe_status(rel: &str, excluded: bool, marked: bool, obs: &Observed) -> (st: PathStatus)
    ensures
        status_spec(rel@, excluded, marked, *obs, st),
{
    let (kind, target, note) = match obs {
        Observed::Link { target, exists } => {
            if *exists {
                (String::from_str("symlink"), Some(target.clone()), None)
            } else {
                (
                    String::from_str("dangling"),
                    Some(target.clone()),
                    Some(String::from_str("target does not exist (dangling)")),
                )
            }
        },
        Observed::Dir => (
            String::from_str("real_dir"),
            None,
            Some(String::from_str("not a symlink; bridgent will not touch it")),
        ),
        Observed::File => (
            String::from_str("real_file"),
            None,
            Some(String::from_str("not a symlink; bridgent will not touch it")),
        ),
        Observed::Missing => (
            String::from_str("missing"),
            None,
            if excluded {
                Some(String::from_str("excluded but missing (link broken?)"))
            } else {
                None
            },
        ),
    };
    PathStatus { path: String::from_str(rel), kind, target, excluded, exclude_marked: marked, note }
}

/// What `path_status` reports for the repository path `rel`, resolved to
/// `path` in the repository at `root`, with `entry` found there and
/// `content` in the exclude file. The exclude file is read for `rel` as it
/// was given; a link's target is where the link points (`link_target`),
/// and `target_exists` tells whether anything is there.
pub open spec fn path_status_spec(
    root: Seq<char>,
    path: Seq<char>,
    rel: Seq<char>,
    content: Seq<char>,
    entry: Entry,
    target_exists: bool,
    st: PathStatus,
) -> bool {
    let excluded = has_line(content, entry_line(rel));
    let marked = has_line(content, marker_line(rel));
    match entry {
        Entry::Symlink(text) => st.target is Some && st.target->0@ == link_target_abs(
            path,
            root,
            text@,
        ) && status_spec(
            rel,
            excluded,
            marked,
            Observed::Link { target: st.target->0, exists: target_exists },
            st,
        ),
        Entry::Dir => status_spec(rel, excluded, marked, Observed::Dir, st),
        Entry::File => status_spec(rel, excluded, marked, Observed::File, st),
        Entry::Missing => status_spec(rel, excluded, marked, Observed::Missing, st),
    }
}

/// The name of what is found at a path: a link (`dangling` when nothing is
/// at its target), a real directory, a real file, or nothing.
pub open spec fn kind_of(entry: Entry, target_exists: bool) -> Seq<char> {
    match entry {
        Entry::Symlink(_) => if target_exists {
            "symlink"@
        } else {
            "dangling"@
        },
        Entry::Dir => "real_dir"@,
        Entry::File => "real_file"@,
        Entry::Missing => "missing"@,
    }
}

/// The state of the repository path `rel`, resolved to `path` in the
/// repository at `root`, from what is at `path` and the contents of the
/// exclude file. For a link, `target_exists` is whether anything is found
/// at its target (`link_target(path, root, text)`), as the caller read it
/// from the file system; it is not used for other entries.
pub fn path_status(
    root: &str,
    path: &str,
    rel: &str,
    exclude_content: &str,
    entry: &Entry,
    target_exists: bool,
) -> (st: PathStatus)
    ensures
        path_status_spec(root@, path@, rel@, exclude_content@, *entry, target_exists, st),
        st.kind@ == kind_of(*entry, target_exists),
{
    let (excluded, marked) = entry_state(exclude_content, rel);
    let obs = match entry {
        Entry::Symlink(text) => {
            let t = link_target(path, root, text.as_str());
            Observed::Link { target: t, exists: target_exists }
        },
        Entry::Dir => Observed::Dir,
        Entry::File => Observed::File,
        Entry::Missing => Observed::Missing,
    };
    let st = describe_status(rel, excluded, marked, &obs);
    proof {
        if let Observed::Link { target, exists } = obs {
            assert(status_spec(rel@, excluded, marked, Observed::Link { target: st.target->0, exists }, st));
        }
    }
    st
}

/// What `link` leaves, `status` reports: for a path written the way the
/// exclude file holds it (no leading `./` or `/`), after a link to the
/// target that `resolve_target` gives for `raw` (from an absolute root)
/// and the exclude entry that `add_entry` writes for the path (when no
/// pattern for it was there, or the plain `/<rel>` one was), the path's
/// state shows the link's target and that the path is excluded, by
/// bridgent's own entry when it wrote one.
pub proof fn law_status_after_link(
    root: Seq<char>,
    path: Seq<char>,
    rel: Seq<char>,
    raw: Seq<char>,
    home: Option<Seq<char>>,
    content: Seq<char>,
    entry: Entry,
    target_exists: bool,
    st: PathStatus,
)
    requires
        is_absolute(root),
        managed_rel_spec(rel) == rel,
        plain_rel(rel),
        !has_line(content, entry_line(rel).push('/')),
        entry matches Entry::Symlink(text) && text@ == lexical_normal(
            join_path(root, expanded(raw, home)),
        ),
        path_status_spec(
            root,
            path,
            rel,
            if entry_covered(content, rel) {
                content
            } else {
                appended(content, rel)
            },
            entry,
            target_exists,
            st,
        ),
    ensures
        st.target matches Some(t) && t@ == lexical_normal(join_path(root, expanded(raw, home))),
        st.excluded,
        !entry_covered(content, rel) ==> st.exclude_marked,
        st.kind@ == (if target_exists {
            "symlink"@
        } else {
            "dangling"@
        }),
{
    let target = lexical_normal(join_path(root, expanded(raw, home)));
    law_target_is_normal(root, raw, home);
    let base = match parent_path(path) {
        Some(p) => p,
        None => root,
    };
    assert(join_path(base, target) == target);
    if !entry_covered(content, rel) {
        law_add_then_present(content, rel);
    }
}

/// `s` padded with spaces on the right to `width` characters (`{:<width}`).
pub open spec fn pad_right(s: Seq<char>, width: nat) -> Seq<char> {
    if s.len() >= width {
        s
    } else {
        s + Seq::new((width - s.len()) as nat, |i: int| ' ')
    }
}

/// How the exclude file covers the path.
pub open spec fn exclusion_label(excluded: bool, marked: bool) -> Seq<char> {
    if excluded {
        if marked {
            "excluded (bridgent)"@
        } else {
            "excluded (manual)"@
        }
    } else {
        "NOT excluded"@
    }
}

/// The line that shows a path's state in the text report.
pub open spec fn status_line_spec(st: PathStatus) -> Seq<char> {
    let target = match st.target {
        Some(t) => t@,
        None => "-"@,
    };
    let note = match st.note {
        Some(n) => n@,
        None => Seq::empty(),
    };
    pad_right(st.path@, 10) + " "@ + pad_right(st.kind@, 10) + " -> "@ + pad_right(target, 40)
        + " "@ + exclusion_label(st.excluded, st.exclude_marked) + " "@ + note
}

fn append_padded(out: &mut String, s: &str, width: usize)
    ensures
        final(out)@ == old(out)@ + pad_right(s@, width as nat),
{
    out.append(s);
    let n = chars_of(s).len();
    let ghost base = out@;
    if n < width {
        let mut i: usize = n;
        while i < width
            invariant
                n <= i <= width,
                n == s@.len(),
                out@ == base + Seq::new((i - n) as nat, |k: int| ' '),
            decreases width - i,
        {
            push_char(out, ' ');
            assert(out@ =~= base + Seq::new((i + 1 - n) as nat, |k: int| ' '));
            i = i + 1;
        }
    } else {
        assert(out@ =~= old(out)@ + s@);
    }
    assert(out@ =~= old(out)@ + pad_right(s@, width as nat));
}

/// The line that shows a path's state in the text report.
pub fn status_line(st: &PathStatus) -> (l: String)
    ensures
        l@ == status_line_spec(*st),
{
    let mut l = String::new();
    append_padded(&mut l, st.path.as_str(), 10);
    l.append(" ");
    append_padded(&mut l, st.kind.as_str(), 10);
    l.append(" -> ");
    match &st.target {
        Some(t) => append_padded(&mut l, t.as_str(), 40),
        None => append_padded(&mut l, "-", 40),
    }
    l.append(" ");
    if st.excluded {
        if st.exclude_marked {
            l.append("excluded (bridgent)");
        } else {
            l.append("excluded (manual)");
        }
    } else {
        l.append("NOT excluded");
    }
    l.append(" ");
    let ghost before = l@;
    match &st.note {
        Some(n) => l.append(n.as_str()),
        None => {
            assert(l@ =~= before + Seq::<char>::empty());
        },
    }
    l
}


/// `status` names what it finds: the path as given, the kind of object
/// there (a real file is a `real_file`, a real directory a `real_dir`,
/// nothing is `missing`, a link is a `symlink` or, with nothing at its
/// target, `dangling`), a target exactly for a link (where it points), the
/// exclusion exactly as the exclude file holds the pattern and marker, and
/// a note exactly for a dangling link, a real object, or an excluded path
/// that is missing.
pub proof fn law_status_names_what_is_there(
    root: Seq<char>,
    path: Seq<char>,
    rel: Seq<char>,
    content: Seq<char>,
    entry: Entry,
    target_exists: bool,
    st: PathStatus,
)
    requires
        path_status_spec(root, path, rel, content, entry, target_exists, st),
    ensures
        st.path@ == rel,
        entry is File ==> st.kind@ == "real_file"@,
        entry is Dir ==> st.kind@ == "real_dir"@,
        entry is Missing ==> st.kind@ == "missing"@,
        entry is Symlink ==> (st.kind@ == "symlink"@ <==> target_exists) && (st.kind@
            == "dangling"@ <==> !target_exists),
        st.target is Some <==> entry is Symlink,
        entry matches Entry::Symlink(text) ==> st.target->0@ == link_target_abs(path, root, text@),
        st.excluded <==> has_line(content, entry_line(rel)),
        st.exclude_marked <==> has_line(content, marker_line(rel)),
        st.note is Some <==> match entry {
            Entry::Symlink(_) => !target_exists,
            Entry::Dir => true,
            Entry::File => true,
            Entry::Missing => st.excluded,
        },
{
    reveal_strlit("symlink");
    reveal_strlit("dangling");
    assert("symlink"@.len() != "dangling"@.len());
}

} // verus!
