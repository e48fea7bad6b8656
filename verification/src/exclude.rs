//! Bookkeeping of the entries written to `.git/info/exclude`.
//!
//! Each managed entry is a pair of lines: a marker comment
//! `# bridgent: <rel>` followed by the pattern `/<rel>`. The functions here
//! compute on the file's contents; reading and writing the file is left to
//! the caller.

use vstd::prelude::*;
use crate::text::{
    append_chars, chars_eq, string_of, chars_of, lemma_lines_append, lemma_lines_one,
    lemma_lines_no_newline, lemma_lines_of_joined, lemma_rejoin_lines, lemma_trim_strip_cr, no_crlf,
    split_on, strip_cr, is_ws, join, lines, lines_of, push_char, strip_leading,
    trim_end, trim_end_chars, views,
};

verus! {

/// The prefix of a marker comment: `# bridgent: `.
pub open spec fn marker_prefix() -> Seq<char> {
    seq!['#', ' ', 'b', 'r', 'i', 'd', 'g', 'e', 'n', 't', ':', ' ']
}

/// The exclude pattern for `rel`: `/` followed by `rel` without its leading
/// slashes.
pub open spec fn entry_line(rel: Seq<char>) -> Seq<char> {
    seq!['/'] + strip_leading(rel, '/')
}

/// The marker comment written above the pattern for `rel`.
pub open spec fn marker_line(rel: Seq<char>) -> Seq<char> {
    marker_prefix() + rel
}

/// Some line of `content`, without its trailing white space, equals `x`.
pub open spec fn has_line(content: Seq<char>, x: Seq<char>) -> bool {
    exists|i: int| 0 <= i < lines(content).len() && #[trigger] trim_end(lines(content)[i]) == x
}

/// The pattern for `rel` is already there, as `/<rel>` or as `/<rel>/`.
pub open spec fn entry_covered(content: Seq<char>, rel: Seq<char>) -> bool {
    has_line(content, entry_line(rel)) || has_line(content, entry_line(rel).push('/'))
}

/// `content` with the marker and the pattern for `rel` appended, after a
/// line break if the content does not end with one.
pub open spec fn appended(content: Seq<char>, rel: Seq<char>) -> Seq<char> {
    let base = if content.len() > 0 && content.last() != '\n' {
        content.push('\n')
    } else {
        content
    };
    base + marker_line(rel) + seq!['\n'] + entry_line(rel) + seq!['\n']
}

/// The lines of `ls` whose trimmed text is neither `a` nor `b`.
pub open spec fn keep_lines(ls: Seq<Seq<char>>, a: Seq<char>, b: Seq<char>) -> Seq<Seq<char>>
    decreases ls.len(),
{
    if ls.len() == 0 {
        Seq::empty()
    } else {
        let r = keep_lines(ls.drop_last(), a, b);
        if trim_end(ls.last()) != a && trim_end(ls.last()) != b {
            r.push(ls.last())
        } else {
            r
        }
    }
}

/// `content` without the marker and pattern lines of `rel`: the other lines
/// joined with `\n`, and a final `\n` unless nothing is left.
pub open spec fn removed(content: Seq<char>, rel: Seq<char>) -> Seq<char> {
    let j = join(
        keep_lines(lines(content), marker_line(rel), entry_line(rel)),
        seq!['\n'],
    );
    if j.len() > 0 {
        j.push('\n')
    } else {
        j
    }
}

/// Both the marker and the pattern of `rel` are in `content`.
pub open spec fn has_managed_entry(content: Seq<char>, rel: Seq<char>) -> bool {
    has_line(content, marker_line(rel)) && has_line(content, entry_line(rel))
}

/// The characters of `s` without its leading `c`s.
pub fn strip_leading_chars(s: &Vec<char>, c: char) -> (r: Vec<char>)
    ensures
        r@ == strip_leading(s@, c),
{
    let mut k: usize = 0;
    assert(s@.skip(0) =~= s@);
    while k < s.len() && s[k] == c
        invariant
            k <= s.len(),
            strip_leading(s@.skip(k as int), c) == strip_leading(s@, c),
        decreases s.len() - k,
    {
        assert(s@.skip(k as int).drop_first() =~= s@.skip(k + 1));
        k = k + 1;
    }
    let mut r: Vec<char> = Vec::new();
    for i in k..s.len()
        invariant
            k <= s.len(),
            r@ == s@.subrange(k as int, i as int),
    {
        r.push(s[i]);
        assert(s@.subrange(k as int, i + 1) =~= s@.subrange(k as int, i as int).push(s@[i as int]));
    }
    assert(s@.subrange(k as int, s.len() as int) =~= s@.skip(k as int));
    r
}

fn entry_chars(rel: &Vec<char>) -> (e: Vec<char>)
    ensures
        e@ == entry_line(rel@),
{
    let mut e: Vec<char> = Vec::new();
    e.push('/');
    let rest = strip_leading_chars(rel, '/');
    let mut i: usize = 0;
    while i < rest.len()
        invariant
            i <= rest.len(),
            e@ == seq!['/'] + rest@.take(i as int),
        decreases rest.len() - i,
    {
        e.push(rest[i]);
        assert(rest@.take(i + 1) =~= rest@.take(i as int).push(rest@[i as int]));
        i = i + 1;
    }
    assert(rest@.take(rest.len() as int) =~= rest@);
    e
}

fn marker_chars(rel: &Vec<char>) -> (m: Vec<char>)
    ensures
        m@ == marker_line(rel@),
{
    let prefix = "# bridgent: ";
    proof {
        reveal_strlit("# bridgent: ");
    }
    let mut m = chars_of(prefix);
    assert(m@ =~= marker_prefix());
    let mut i: usize = 0;
    while i < rel.len()
        invariant
            i <= rel.len(),
            m@ == marker_prefix() + rel@.take(i as int),
        decreases rel.len() - i,
    {
        m.push(rel[i]);
        assert(rel@.take(i + 1) =~= rel@.take(i as int).push(rel@[i as int]));
        i = i + 1;
    }
    assert(rel@.take(rel.len() as int) =~= rel@);
    m
}

/// Whether some line of `ls`, without trailing white space, equals `x`.
fn any_line_is(ls: &Vec<Vec<char>>, x: &Vec<char>) -> (b: bool)
    ensures
        b == exists|i: int| 0 <= i < ls@.len() && #[trigger] trim_end(views(ls@)[i]) == x@,
{
    for i in 0..ls.len()
        invariant
            forall|j: int| 0 <= j < i ==> #[trigger] trim_end(views(ls@)[j]) != x@,
    {
        let t = trim_end_chars(&ls[i]);
        if chars_eq(&t, x) {
            assert(trim_end(views(ls@)[i as int]) == x@);
            return true;
        }
    }
    false
}

/// Ensures the exclude pattern `/<rel>` is present, preceded by its marker
/// comment. Returns the new contents when something has to be appended, and
/// `None` when a pattern for `rel` (`/<rel>` or `/<rel>/`, with or without
/// marker) is already there. Existing content is kept byte for byte.
pub fn add_entry(content: &str, rel: &str) -> (r: Option<String>)
    ensures
        r is None <==> entry_covered(content@, rel@),
        r matches Some(s) ==> s@ == appended(content@, rel@),
{
    let text = chars_of(content);
    let relc = chars_of(rel);
    let ls = lines_of(&text);
    let entry = entry_chars(&relc);
    let mut entry_dir = entry_chars(&relc);
    entry_dir.push('/');
    if any_line_is(&ls, &entry) || any_line_is(&ls, &entry_dir) {
        return None;
    }
    let mut out = String::from_str(content);
    if text.len() > 0 && text[text.len() - 1] != '\n' {
        push_char(&mut out, '\n');
    }
    let marker = marker_chars(&relc);
    append_chars(&mut out, &marker);
    push_char(&mut out, '\n');
    append_chars(&mut out, &entry);
    push_char(&mut out, '\n');
    Some(out)
}

/// The pieces of `ls` joined with `\n`.
fn join_lines(ls: &Vec<Vec<char>>) -> (out: Vec<char>)
    ensures
        out@ == join(views(ls@), seq!['\n']),
{
    let mut out: Vec<char> = Vec::new();
    assert(views(ls@).take(0) =~= Seq::<Seq<char>>::empty());
    for i in 0..ls.len()
        invariant
            out@ == join(views(ls@).take(i as int), seq!['\n']),
    {
        let ghost prev = views(ls@).take(i as int);
        let ghost next = views(ls@).take(i + 1);
        assert(next.drop_last() =~= prev);
        assert(next.last() == ls@[i as int]@);
        if i > 0 {
            out.push('\n');
        }
        let l = &ls[i];
        let mut k: usize = 0;
        let ghost base = out@;
        while k < l.len()
            invariant
                k <= l.len(),
                out@ == base + l@.take(k as int),
            decreases l.len() - k,
        {
            out.push(l[k]);
            assert(l@.take(k + 1) =~= l@.take(k as int).push(l@[k as int]));
            k = k + 1;
        }
        assert(l@.take(l.len() as int) =~= l@);
        assert(out@ =~= join(next, seq!['\n']));
    }
    assert(views(ls@).take(ls.len() as int) =~= views(ls@));
    out
}

/// Removes the marker comment and the pattern of `rel` when both are
/// there: every line that, without its trailing white space, equals either
/// of them. A pattern without its marker was written by the user and is
/// never removed. Returns the new contents, or `None` when nothing is to be
/// removed (and nothing is to be written).
pub fn remove_entry(content: &str, rel: &str) -> (r: Option<String>)
    ensures
        r is None <==> !has_managed_entry(content@, rel@),
        r matches Some(s) ==> s@ == removed(content@, rel@),
{
    let text = chars_of(content);
    let relc = chars_of(rel);
    let ls = lines_of(&text);
    let entry = entry_chars(&relc);
    let marker = marker_chars(&relc);
    let ghost lv = lines(content@);
    let mut kept: Vec<Vec<char>> = Vec::new();
    let mut saw_marker = false;
    let mut saw_entry = false;
    assert(lv.take(0) =~= Seq::<Seq<char>>::empty());
    for i in 0..ls.len()
        invariant
            views(ls@) == lv,
            marker@ == marker_line(rel@),
            entry@ == entry_line(rel@),
            views(kept@) == keep_lines(lv.take(i as int), marker@, entry@),
            saw_marker == exists|j: int| 0 <= j < i && #[trigger] trim_end(lv[j]) == marker@,
            saw_entry == exists|j: int| 0 <= j < i && #[trigger] trim_end(lv[j]) == entry@,
    {
        assert(lv.take(i + 1).drop_last() =~= lv.take(i as int));
        let t = trim_end_chars(&ls[i]);
        assert(t@ == trim_end(lv[i as int]));
        let is_marker = chars_eq(&t, &marker);
        let is_entry = chars_eq(&t, &entry);
        if is_marker {
            saw_marker = true;
        }
        if is_entry {
            saw_entry = true;
        }
        if !is_marker && !is_entry {
            let ghost old_k = views(kept@);
            let l = ls[i].clone();
            kept.push(l);
            assert(views(kept@) =~= old_k.push(lv[i as int]));
        }
    }
    assert(lv.take(ls.len() as int) =~= lv);
    if !(saw_marker && saw_entry) {
        return None;
    }
    let joined = join_lines(&kept);
    let mut out = string_of(&joined);
    if joined.len() > 0 {
        push_char(&mut out, '\n');
    }
    Some(out)
}

/// Reports `(present, marked)`: whether the pattern `/<rel>` is a line of
/// `content`, and whether its marker comment is.
pub fn entry_state(content: &str, rel: &str) -> (r: (bool, bool))
    ensures
        r.0 == has_line(content@, entry_line(rel@)),
        r.1 == has_line(content@, marker_line(rel@)),
{
    let text = chars_of(content);
    let relc = chars_of(rel);
    let ls = lines_of(&text);
    let entry = entry_chars(&relc);
    let marker = marker_chars(&relc);
    (any_line_is(&ls, &entry), any_line_is(&ls, &marker))
}


/// A relative path that can stand on one line of the exclude file and be
/// read back from it: not empty, no line break, and no white space at its
/// end (which reading a line back ignores).
pub open spec fn plain_rel(rel: Seq<char>) -> bool {
    &&& rel.len() > 0
    &&& !is_ws(rel.last())
    &&& forall|i: int| 0 <= i < rel.len() ==> rel[i] != '\n'
}

proof fn lemma_strip_leading_suffix(s: Seq<char>, c: char)
    ensures
        strip_leading(s, c).len() <= s.len(),
        forall|j: int|
            0 <= j < strip_leading(s, c).len() ==> #[trigger] strip_leading(s, c)[j] == s[j + s.len()
                - strip_leading(s, c).len()],
    decreases s.len(),
{
    if s.len() > 0 && s[0] == c {
        lemma_strip_leading_suffix(s.drop_first(), c);
    }
}

/// What the marker and pattern lines of a plain path look like once read
/// back.
proof fn lemma_managed_lines(rel: Seq<char>)
    requires
        plain_rel(rel),
    ensures
        trim_end(marker_line(rel)) == marker_line(rel),
        trim_end(entry_line(rel)) == entry_line(rel),
        strip_cr(marker_line(rel)) == marker_line(rel),
        strip_cr(entry_line(rel)) == entry_line(rel),
        forall|i: int| 0 <= i < marker_line(rel).len() ==> marker_line(rel)[i] != '\n',
        forall|i: int| 0 <= i < entry_line(rel).len() ==> entry_line(rel)[i] != '\n',
        marker_line(rel) != entry_line(rel),
{
    let m = marker_line(rel);
    let e = entry_line(rel);
    let t = strip_leading(rel, '/');
    lemma_strip_leading_suffix(rel, '/');
    assert(m.last() == rel.last());
    if t.len() > 0 {
        assert(e.last() == t[t.len() - 1]);
        assert(e.last() == rel.last());
    } else {
        assert(e.last() == '/');
    }
    assert(!is_ws('/'));
    assert(forall|i: int| 0 <= i < m.len() ==> m[i] != '\n') by {
        assert forall|i: int| 0 <= i < m.len() implies m[i] != '\n' by {
            if i >= marker_prefix().len() {
                assert(m[i] == rel[i - marker_prefix().len()]);
            }
        }
    }
    assert(forall|i: int| 0 <= i < e.len() ==> e[i] != '\n') by {
        assert forall|i: int| 0 <= i < e.len() implies e[i] != '\n' by {
            if i >= 1 {
                assert(e[i] == t[i - 1]);
            }
        }
    }
    assert(m[0] != e[0]);
}

/// The lines of `appended(content, rel)`: those of the content, then the
/// marker, then the pattern.
proof fn lemma_appended_lines(content: Seq<char>, rel: Seq<char>)
    requires
        plain_rel(rel),
    ensures
        ({
            let base = if content.len() > 0 && content.last() != '\n' {
                content.push('\n')
            } else {
                content
            };
            lines(appended(content, rel)) == lines(base).push(marker_line(rel)).push(
                entry_line(rel),
            )
        }),
{
    let base = if content.len() > 0 && content.last() != '\n' {
        content.push('\n')
    } else {
        content
    };
    let m = marker_line(rel);
    let e = entry_line(rel);
    lemma_managed_lines(rel);
    assert(appended(content, rel) =~= base + (m.push('\n') + e.push('\n')));
    lemma_lines_append(base, m.push('\n') + e.push('\n'));
    lemma_lines_append(m.push('\n'), e.push('\n'));
    lemma_lines_one(m);
    lemma_lines_one(e);
    assert(lines(appended(content, rel)) =~= lines(base).push(m).push(e));
}

/// Adding keeps the existing content as it is, and leaves a file in which
/// the pattern and its marker are found: a second `add_entry` for the same
/// path appends nothing, and `entry_state` reports `(true, true)`.
pub proof fn law_add_then_present(content: Seq<char>, rel: Seq<char>)
    requires
        plain_rel(rel),
    ensures
        appended(content, rel).take(content.len() as int) == content,
        entry_covered(appended(content, rel), rel),
        has_line(appended(content, rel), entry_line(rel)),
        has_line(appended(content, rel), marker_line(rel)),
{
    lemma_appended_lines(content, rel);
    lemma_managed_lines(rel);
    let ls = lines(appended(content, rel));
    let n = ls.len();
    assert(trim_end(ls[n - 1]) == entry_line(rel));
    assert(trim_end(ls[n - 2]) == marker_line(rel));
    assert(appended(content, rel).take(content.len() as int) =~= content);
}

/// The empty path: adding writes the marker `# bridgent: ` and the
/// pattern `/`, and the pattern is read back.
proof fn lemma_add_empty_covered(content: Seq<char>)
    ensures
        appended(content, Seq::empty()).take(content.len() as int) == content,
        has_line(appended(content, Seq::empty()), entry_line(Seq::empty())),
{
    let rel = Seq::<char>::empty();
    let base = if content.len() > 0 && content.last() != '\n' {
        content.push('\n')
    } else {
        content
    };
    let m = marker_line(rel);
    let e = entry_line(rel);
    assert(strip_leading(rel, '/') =~= rel);
    assert(e =~= seq!['/']);
    assert(m =~= marker_prefix());
    assert(appended(content, rel) =~= base + (m.push('\n') + e.push('\n')));
    lemma_lines_append(base, m.push('\n') + e.push('\n'));
    lemma_lines_append(m.push('\n'), e.push('\n'));
    lemma_lines_one(m);
    lemma_lines_one(e);
    let ls = lines(appended(content, rel));
    assert(ls =~= lines(base).push(strip_cr(m)).push(strip_cr(e)));
    assert(strip_cr(e) == e);
    assert(!is_ws('/'));
    assert(e.drop_last() =~= Seq::<char>::empty());
    assert(trim_end(e) == e);
    assert(trim_end(ls[ls.len() - 1]) == e);
    assert(appended(content, rel).take(content.len() as int) =~= content);
}

/// Adding an entry twice writes it once: after `add_entry` appended the
/// entry for a path (the empty one included), a second `add_entry` for it
/// finds the pattern and appends nothing; the existing content is kept.
pub proof fn law_second_add_writes_nothing(content: Seq<char>, rel: Seq<char>)
    requires
        rel.len() == 0 || plain_rel(rel),
    ensures
        appended(content, rel).take(content.len() as int) == content,
        entry_covered(appended(content, rel), rel),
{
    if rel.len() == 0 {
        lemma_add_empty_covered(content);
        assert(rel =~= Seq::<char>::empty());
    } else {
        law_add_then_present(content, rel);
    }
}

proof fn lemma_keep_all(ls: Seq<Seq<char>>, a: Seq<char>, b: Seq<char>)
    requires
        forall|i: int| 0 <= i < ls.len() ==> #[trigger] trim_end(ls[i]) != a && trim_end(ls[i]) != b,
    ensures
        keep_lines(ls, a, b) == ls,
    decreases ls.len(),
{
    if ls.len() > 0 {
        lemma_keep_all(ls.drop_last(), a, b);
        assert(trim_end(ls[ls.len() - 1]) != a);
        assert(ls.drop_last().push(ls.last()) =~= ls);
    }
}

proof fn lemma_keep_props(ls: Seq<Seq<char>>, a: Seq<char>, b: Seq<char>)
    requires
        forall|i: int, j: int| 0 <= i < ls.len() && 0 <= j < ls[i].len() ==> #[trigger] ls[i][j] != '\n',
    ensures
        forall|i: int|
            0 <= i < keep_lines(ls, a, b).len() ==> trim_end(#[trigger] keep_lines(ls, a, b)[i]) != a
                && trim_end(keep_lines(ls, a, b)[i]) != b,
        forall|i: int, j: int|
            0 <= i < keep_lines(ls, a, b).len() && 0 <= j < keep_lines(ls, a, b)[i].len()
                ==> #[trigger] keep_lines(ls, a, b)[i][j] != '\n',
    decreases ls.len(),
{
    if ls.len() > 0 {
        let init = ls.drop_last();
        assert forall|i: int, j: int| 0 <= i < init.len() && 0 <= j < init[i].len() implies #[trigger] init[i][j] != '\n' by {
            assert(init[i] == ls[i]);
        }
        lemma_keep_props(init, a, b);
        assert forall|j: int| 0 <= j < ls.last().len() implies ls.last()[j] != '\n' by {
            assert(ls.last()[j] == ls[ls.len() - 1][j]);
        }
        let r = keep_lines(init, a, b);
        let k = keep_lines(ls, a, b);
        if trim_end(ls.last()) != a && trim_end(ls.last()) != b {
            assert(k == r.push(ls.last()));
            assert forall|i: int| 0 <= i < k.len() implies trim_end(#[trigger] k[i]) != a && trim_end(
                k[i],
            ) != b by {
                if i < r.len() {
                    assert(k[i] == r[i]);
                }
            }
            assert forall|i: int, j: int| 0 <= i < k.len() && 0 <= j < k[i].len() implies #[trigger] k[i][j]
                != '\n' by {
                if i < r.len() {
                    assert(k[i] == r[i]);
                    assert(r[i][j] != '\n');
                }
            }
        } else {
            assert(k == r);
        }
    }
}

/// Removing what adding wrote gives the file back as it was, for a file
/// that ends with `\n` (or is empty), holds no `\r\n`, is more than a lone
/// `\n`, and holds neither the marker nor a pattern for the path.
pub proof fn law_remove_undoes_add(content: Seq<char>, rel: Seq<char>)
    requires
        plain_rel(rel),
        content.len() == 0 || (content.last() == '\n' && content != seq!['\n'] && no_crlf(
            content,
        )),
        !entry_covered(content, rel),
        !has_line(content, marker_line(rel)),
    ensures
        has_managed_entry(appended(content, rel), rel),
        removed(appended(content, rel), rel) == content,
{
    law_add_then_present(content, rel);
    lemma_appended_lines(content, rel);
    lemma_managed_lines(rel);
    let m = marker_line(rel);
    let e = entry_line(rel);
    let lc = lines(content);
    let la = lines(appended(content, rel));
    assert(la == lc.push(m).push(e));
    assert(la.drop_last() =~= lc.push(m));
    assert(lc.push(m).drop_last() =~= lc);
    assert forall|i: int| 0 <= i < lc.len() implies #[trigger] trim_end(lc[i]) != m && trim_end(lc[i]) != e by {
        if trim_end(lc[i]) == m {
            assert(has_line(content, m));
        }
        if trim_end(lc[i]) == e {
            assert(has_line(content, e));
        }
    }
    lemma_keep_all(lc, m, e);
    assert(keep_lines(la, m, e) == keep_lines(lc.push(m), m, e));
    assert(keep_lines(lc.push(m), m, e) == keep_lines(lc, m, e));
    assert(keep_lines(la, m, e) == lc);
    if content.len() == 0 {
        assert(lc =~= Seq::<Seq<char>>::empty()) by {
            assert(split_on(content, '\n') == seq![Seq::<char>::empty()]);
        }
        assert(removed(appended(content, rel), rel) =~= content);
    } else {
        lemma_rejoin_lines(content);
    }
}

/// After a removal, neither the marker nor the pattern is left: a second
/// `remove_entry` removes nothing and `entry_state` reports `(false, false)`.
pub proof fn law_remove_clears(content: Seq<char>, rel: Seq<char>)
    ensures
        !has_line(removed(content, rel), marker_line(rel)),
        !has_line(removed(content, rel), entry_line(rel)),
        !has_managed_entry(removed(content, rel), rel),
{
    let m = marker_line(rel);
    let e = entry_line(rel);
    let lc = lines(content);
    lemma_lines_no_newline(content);
    lemma_keep_props(lc, m, e);
    let k = keep_lines(lc, m, e);
    let j = join(k, seq!['\n']);
    let r = removed(content, rel);
    if j.len() == 0 {
        assert(r.len() == 0);
        assert(split_on(r, '\n') == seq![Seq::<char>::empty()]);
        assert(lines(r) =~= Seq::<Seq<char>>::empty());
    } else {
        assert(k.len() >= 1);
        lemma_lines_of_joined(k);
        let lr = lines(r);
        assert(lr == k.map_values(|l: Seq<char>| strip_cr(l)));
        assert forall|i: int| 0 <= i < lr.len() implies #[trigger] trim_end(lr[i]) != m && trim_end(lr[i]) != e by {
            lemma_trim_strip_cr(k[i]);
            assert(lr[i] == strip_cr(k[i]));
        }
    }
}

} // verus!
