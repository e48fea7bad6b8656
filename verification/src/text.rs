//! Character-level helpers over `str` and `String`, with their models on
//! `Seq<char>`.

use vstd::prelude::*;

verus! {

/// Appends one character to a `String` (std's `String::push`).
/// Trusted: the new contents are the old ones followed by `c`.
#[verifier::external_body]
pub(crate) fn push_char(s: &mut String, c: char)
    ensures
        final(s)@ == old(s)@.push(c),
{
    s.push(c);
}

/// The characters of `s`, in order.
pub fn chars_of(s: &str) -> (v: Vec<char>)
    ensures
        v@ == s@,
{
    broadcast use vstd::string::group_string_axioms;
    let mut v: Vec<char> = Vec::new();
    let mut it = s.chars();
    loop
        invariant
            v@ + vstd::std_specs::iter::IteratorSpec::remaining(&it) == s@,
            vstd::std_specs::iter::IteratorSpec::obeys_prophetic_iter_laws(&it),
            vstd::std_specs::iter::IteratorSpec::decrease(&it) is Some,
        ensures
            v@ == s@,
        decreases vstd::std_specs::iter::IteratorSpec::decrease(&it)->0,
    {
        let ghost before = vstd::std_specs::iter::IteratorSpec::remaining(&it);
        match it.next() {
            Some(c) => {
                assert(v@.push(c) + vstd::std_specs::iter::IteratorSpec::remaining(&it) =~= v@ + before);
                v.push(c);
            },
            None => {
                assert(v@ =~= s@);
                break;
            },
        }
    }
    v
}


/// The characters that `char::is_whitespace` accepts: the Unicode
/// `White_Space` property.
pub open spec fn is_ws(c: char) -> bool {
    let u = c as int;
    ||| 0x9 <= u <= 0xd
    ||| u == 0x20
    ||| u == 0x85
    ||| u == 0xa0
    ||| u == 0x1680
    ||| 0x2000 <= u <= 0x200a
    ||| u == 0x2028
    ||| u == 0x2029
    ||| u == 0x202f
    ||| u == 0x205f
    ||| u == 0x3000
}

/// Whether `c` is white space, as `char::is_whitespace` decides it.
pub fn is_whitespace(c: char) -> (b: bool)
    ensures
        b == is_ws(c),
{
    let u = c as u32;
    (0x9 <= u && u <= 0xd) || u == 0x20 || u == 0x85 || u == 0xa0 || u == 0x1680 || (0x2000 <= u
        && u <= 0x200a) || u == 0x2028 || u == 0x2029 || u == 0x202f || u == 0x205f || u == 0x3000
}

/// `s` without its trailing white space (`str::trim_end`).
pub open spec fn trim_end(s: Seq<char>) -> Seq<char>
    decreases s.len(),
{
    if s.len() > 0 && is_ws(s.last()) {
        trim_end(s.drop_last())
    } else {
        s
    }
}

/// `s` without its leading white space (`str::trim_start`).
pub open spec fn trim_start(s: Seq<char>) -> Seq<char>
    decreases s.len(),
{
    if s.len() > 0 && is_ws(s[0]) {
        trim_start(s.drop_first())
    } else {
        s
    }
}

/// `s` with every leading `c` removed (`str::trim_start_matches` with a char).
pub open spec fn strip_leading(s: Seq<char>, c: char) -> Seq<char>
    decreases s.len(),
{
    if s.len() > 0 && s[0] == c {
        strip_leading(s.drop_first(), c)
    } else {
        s
    }
}

/// The pieces of `s` between occurrences of `sep` (`str::split` with a
/// char): always at least one piece.
pub open spec fn split_on(s: Seq<char>, sep: char) -> Seq<Seq<char>>
    decreases s.len(),
{
    if s.len() == 0 {
        seq![Seq::empty()]
    } else {
        let r = split_on(s.drop_last(), sep);
        if s.last() == sep {
            r.push(Seq::empty())
        } else {
            r.update(r.len() - 1, r.last().push(s.last()))
        }
    }
}

/// `l` without one trailing carriage return.
pub open spec fn strip_cr(l: Seq<char>) -> Seq<char> {
    if l.len() > 0 && l.last() == '\r' {
        l.drop_last()
    } else {
        l
    }
}

/// The lines of `s`, as `str::lines` yields them: split at `\n`, one `\r`
/// before a `\n` dropped, and no empty line after a final `\n`.
pub open spec fn lines(s: Seq<char>) -> Seq<Seq<char>> {
    let parts = split_on(s, '\n');
    let done = parts.take(parts.len() - 1).map_values(|l: Seq<char>| strip_cr(l));
    if parts.last().len() > 0 {
        done.push(parts.last())
    } else {
        done
    }
}

/// The pieces of `ls` joined with `sep` between them (`[&str]::join`).
pub open spec fn join(ls: Seq<Seq<char>>, sep: Seq<char>) -> Seq<char>
    decreases ls.len(),
{
    if ls.len() == 0 {
        Seq::empty()
    } else if ls.len() == 1 {
        ls[0]
    } else {
        join(ls.drop_last(), sep) + sep + ls.last()
    }
}

pub proof fn lemma_split_on_nonempty(s: Seq<char>, sep: char)
    ensures
        split_on(s, sep).len() >= 1,
    decreases s.len(),
{
    if s.len() > 0 {
        lemma_split_on_nonempty(s.drop_last(), sep);
    }
}

/// Builds a `String` from characters.
pub fn string_of(v: &Vec<char>) -> (s: String)
    ensures
        s@ == v@,
{
    let mut s = String::new();
    for i in 0..v.len()
        invariant
            s@ == v@.take(i as int),
    {
        push_char(&mut s, v[i]);
        assert(v@.take(i + 1) =~= v@.take(i as int).push(v@[i as int]));
    }
    assert(v@.take(v.len() as int) =~= v@);
    s
}

/// Appends characters to a `String`.
pub fn append_chars(s: &mut String, v: &Vec<char>)
    ensures
        final(s)@ == old(s)@ + v@,
{
    for i in 0..v.len()
        invariant
            s@ == old(s)@ + v@.take(i as int),
    {
        push_char(s, v[i]);
        assert(v@.take(i + 1) =~= v@.take(i as int).push(v@[i as int]));
    }
    assert(v@.take(v.len() as int) =~= v@);
}

/// Whether two character sequences are equal.
pub fn chars_eq(a: &Vec<char>, b: &Vec<char>) -> (r: bool)
    ensures
        r == (a@ == b@),
{
    if a.len() != b.len() {
        return false;
    }
    for i in 0..a.len()
        invariant
            a.len() == b.len(),
            forall|j: int| 0 <= j < i ==> a@[j] == b@[j],
    {
        if a[i] != b[i] {
            return false;
        }
    }
    assert(a@ =~= b@);
    true
}

/// The characters of `v` up to its trailing white space.
pub fn trim_end_chars(v: &Vec<char>) -> (r: Vec<char>)
    ensures
        r@ == trim_end(v@),
{
    let mut k = v.len();
    assert(v@.take(k as int) =~= v@);
    while k > 0 && is_whitespace(v[k - 1])
        invariant
            k <= v.len(),
            trim_end(v@.take(k as int)) == trim_end(v@),
        decreases k,
    {
        assert(v@.take(k as int).drop_last() =~= v@.take(k - 1));
        k = k - 1;
    }
    assert(trim_end(v@.take(k as int)) == v@.take(k as int));
    let mut r: Vec<char> = Vec::new();
    for i in 0..k
        invariant
            k <= v.len(),
            r@ == v@.take(i as int),
    {
        r.push(v[i]);
        assert(v@.take(i + 1) =~= v@.take(i as int).push(v@[i as int]));
    }
    r
}


/// The character sequences held by a vector of character vectors.
pub open spec fn views(ls: Seq<Vec<char>>) -> Seq<Seq<char>> {
    ls.map_values(|l: Vec<char>| l@)
}

/// The finished lines of a prefix: every piece of `split_on` but the last,
/// each without one trailing carriage return.
pub open spec fn finished_lines(s: Seq<char>) -> Seq<Seq<char>> {
    let parts = split_on(s, '\n');
    parts.take(parts.len() - 1).map_values(|l: Seq<char>| strip_cr(l))
}

/// The lines of `s` (`str::lines`).
pub fn lines_of(s: &Vec<char>) -> (ls: Vec<Vec<char>>)
    ensures
        views(ls@) == lines(s@),
{
    let mut done: Vec<Vec<char>> = Vec::new();
    let mut cur: Vec<char> = Vec::new();
    proof {
        assert(s@.take(0) =~= Seq::<char>::empty());
        assert(finished_lines(s@.take(0)) =~= Seq::<Seq<char>>::empty());
    }
    for i in 0..s.len()
        invariant
            split_on(s@.take(i as int), '\n').len() >= 1,
            views(done@) == finished_lines(s@.take(i as int)),
            cur@ == split_on(s@.take(i as int), '\n').last(),
    {
        let c = s[i];
        let ghost pre = s@.take(i as int);
        let ghost parts = split_on(pre, '\n');
        assert(s@.take(i + 1).drop_last() =~= pre);
        assert(s@.take(i + 1).last() == c);
        let ghost nparts = split_on(s@.take(i + 1), '\n');
        if c == '\n' {
            let mut l = cur;
            if l.len() > 0 && l[l.len() - 1] == '\r' {
                l.pop();
            }
            assert(l@ == strip_cr(parts.last()));
            let ghost old_dv = views(done@);
            let ghost lv = l@;
            done.push(l);
            assert(views(done@) =~= old_dv.push(lv));
            cur = Vec::new();
            assert(nparts == parts.push(Seq::empty()));
            assert(nparts.take(nparts.len() - 1) =~= parts);
            assert(parts =~= parts.take(parts.len() - 1).push(parts.last()));
            assert(views(done@) =~= finished_lines(s@.take(i + 1)));
            assert(cur@ =~= nparts.last());
        } else {
            cur.push(c);
            assert(nparts.take(nparts.len() - 1) =~= parts.take(parts.len() - 1));
            assert(views(done@) =~= finished_lines(s@.take(i + 1)));
        }
    }
    assert(s@.take(s.len() as int) =~= s@);
    if cur.len() > 0 {
        let ghost old_dv = views(done@);
        let ghost cv = cur@;
        done.push(cur);
        assert(views(done@) =~= old_dv.push(cv));
    }
    assert(views(done@) =~= lines(s@));
    done
}


/// Splitting a sequence that has no separator gives the sequence itself.
pub proof fn lemma_split_no_sep(s: Seq<char>, sep: char)
    requires
        forall|i: int| 0 <= i < s.len() ==> s[i] != sep,
    ensures
        split_on(s, sep) == seq![s],
    decreases s.len(),
{
    if s.len() > 0 {
        lemma_split_no_sep(s.drop_last(), sep);
        assert(s.drop_last().push(s.last()) =~= s);
        assert(seq![s.drop_last()].update(0, s.drop_last().push(s.last())) =~= seq![s]);
    } else {
        assert(s =~= Seq::<char>::empty());
    }
}

/// Splitting a concatenation: the last piece of `a` and the first of `b`
/// are glued together.
pub proof fn lemma_split_append(a: Seq<char>, b: Seq<char>, sep: char)
    ensures
        split_on(a + b, sep) == split_on(a, sep).drop_last() + seq![
            split_on(a, sep).last() + split_on(b, sep)[0],
        ] + split_on(b, sep).skip(1),
    decreases b.len(),
{
    lemma_split_on_nonempty(a, sep);
    lemma_split_on_nonempty(b, sep);
    let sa = split_on(a, sep);
    if b.len() == 0 {
        assert(a + b =~= a);
        assert(split_on(b, sep) =~= seq![Seq::<char>::empty()]);
        assert(sa.last() + Seq::<char>::empty() =~= sa.last());
        assert(sa.drop_last() + seq![sa.last()] =~= sa);
        assert(split_on(b, sep).skip(1) =~= Seq::<Seq<char>>::empty());
        assert(sa.drop_last() + seq![sa.last() + split_on(b, sep)[0]] + split_on(b, sep).skip(1)
            =~= sa);
    } else {
        let b1 = b.drop_last();
        let x = b.last();
        lemma_split_append(a, b1, sep);
        lemma_split_on_nonempty(b1, sep);
        assert((a + b).drop_last() =~= a + b1);
        assert((a + b).last() == x);
        let sb1 = split_on(b1, sep);
        let sb = split_on(b, sep);
        let r = split_on(a + b1, sep);
        if x == sep {
            assert(sb == sb1.push(Seq::empty()));
            assert(split_on(a + b, sep) == r.push(Seq::empty()));
            assert(sb[0] == sb1[0]);
            assert(sb.skip(1) =~= sb1.skip(1).push(Seq::empty()));
            assert(split_on(a + b, sep) =~= sa.drop_last() + seq![sa.last() + sb[0]] + sb.skip(1));
        } else {
            assert(sb == sb1.update(sb1.len() - 1, sb1.last().push(x)));
            assert(split_on(a + b, sep) == r.update(r.len() - 1, r.last().push(x)));
            if sb1.len() == 1 {
                assert(sb[0] == sb1[0].push(x));
                assert(sa.last() + sb1[0].push(x) =~= (sa.last() + sb1[0]).push(x));
                assert(sb.skip(1) =~= Seq::<Seq<char>>::empty());
                assert(split_on(a + b, sep) =~= sa.drop_last() + seq![sa.last() + sb[0]]
                    + sb.skip(1));
            } else {
                assert(sb[0] == sb1[0]);
                assert(sb.skip(1) =~= sb1.skip(1).update(sb1.len() - 2, sb1.last().push(x)));
                assert(split_on(a + b, sep) =~= sa.drop_last() + seq![sa.last() + sb[0]]
                    + sb.skip(1));
            }
        }
    }
}

/// The pieces of a split hold no separator.
pub proof fn lemma_split_parts_no_sep(s: Seq<char>, sep: char)
    ensures
        forall|i: int, j: int|
            0 <= i < split_on(s, sep).len() && 0 <= j < split_on(s, sep)[i].len() ==> #[trigger] split_on(
                s,
                sep,
            )[i][j] != sep,
    decreases s.len(),
{
    if s.len() > 0 {
        lemma_split_parts_no_sep(s.drop_last(), sep);
        lemma_split_on_nonempty(s.drop_last(), sep);
    }
}

/// Joining the pieces of a split gives back the sequence.
pub proof fn lemma_join_split(s: Seq<char>, sep: char)
    ensures
        join(split_on(s, sep), seq![sep]) == s,
    decreases s.len(),
{
    if s.len() == 0 {
        assert(join(split_on(s, sep), seq![sep]) =~= s);
    } else {
        let s1 = s.drop_last();
        lemma_join_split(s1, sep);
        lemma_split_on_nonempty(s1, sep);
        let r = split_on(s1, sep);
        if s.last() == sep {
            let n = r.push(Seq::<char>::empty());
            assert(n.drop_last() =~= r);
            assert(join(n, seq![sep]) == join(r, seq![sep]) + seq![sep] + Seq::<char>::empty());
            assert(join(n, seq![sep]) =~= s);
        } else {
            let n = r.update(r.len() - 1, r.last().push(s.last()));
            assert(s1.push(s.last()) =~= s);
            if r.len() == 1 {
                assert(join(r, seq![sep]) == r[0]);
                assert(join(n, seq![sep]) == n[0]);
                assert(join(n, seq![sep]) =~= s);
            } else {
                assert(n.drop_last() =~= r.drop_last());
                assert(join(r, seq![sep]) == join(r.drop_last(), seq![sep]) + seq![sep] + r.last());
                assert(join(n, seq![sep]) =~= s);
            }
        }
    }
}

/// Splitting pieces joined by a separator they do not hold gives back the
/// pieces.
pub proof fn lemma_split_join(ls: Seq<Seq<char>>, sep: char)
    requires
        ls.len() >= 1,
        forall|i: int, j: int| 0 <= i < ls.len() && 0 <= j < ls[i].len() ==> #[trigger] ls[i][j] != sep,
    ensures
        split_on(join(ls, seq![sep]), sep) == ls,
    decreases ls.len(),
{
    if ls.len() == 1 {
        assert(forall|j: int| 0 <= j < ls[0].len() ==> ls[0][j] != sep);
        lemma_split_no_sep(ls[0], sep);
        assert(seq![ls[0]] =~= ls);
    } else {
        let init = ls.drop_last();
        lemma_split_join(init, sep);
        let a = join(init, seq![sep]) + seq![sep];
        lemma_split_append(join(init, seq![sep]), seq![sep], sep);
        assert(seq![sep] =~= Seq::<char>::empty().push(sep));
        assert(split_on(seq![sep], sep) =~= seq![Seq::<char>::empty(), Seq::<char>::empty()]) by {
            assert(seq![sep].drop_last() =~= Seq::<char>::empty());
            assert(seq![sep].last() == sep);
            assert(split_on(Seq::<char>::empty(), sep) == seq![Seq::<char>::empty()]);
        }
        assert(split_on(a, sep) =~= init.push(Seq::empty())) by {
            assert(init.drop_last() + seq![init.last() + Seq::<char>::empty()] =~= init);
        }
        assert(forall|j: int| 0 <= j < ls.last().len() ==> ls.last()[j] != sep);
        lemma_split_no_sep(ls.last(), sep);
        lemma_split_append(a, ls.last(), sep);
        assert(join(ls, seq![sep]) == a + ls.last());
        assert(split_on(a + ls.last(), sep) =~= ls) by {
            assert(Seq::<char>::empty() + ls.last() =~= ls.last());
        }
    }
}

/// Trailing white space hides a final carriage return.
pub proof fn lemma_trim_strip_cr(l: Seq<char>)
    ensures
        trim_end(strip_cr(l)) == trim_end(l),
{
    if l.len() > 0 && l.last() == '\r' {
        assert(is_ws('\r'));
    }
}

/// The lines of a concatenation whose first part ends a line.
pub proof fn lemma_lines_append(a: Seq<char>, b: Seq<char>)
    requires
        a.len() == 0 || a.last() == '\n',
    ensures
        lines(a + b) == lines(a) + lines(b),
{
    lemma_split_append(a, b, '\n');
    lemma_split_on_nonempty(a, '\n');
    lemma_split_on_nonempty(b, '\n');
    let sa = split_on(a, '\n');
    let sb = split_on(b, '\n');
    if a.len() == 0 {
        assert(a + b =~= b);
        assert(lines(a) =~= Seq::<Seq<char>>::empty());
        assert(lines(a + b) =~= lines(a) + lines(b));
    } else {
        assert(sa == split_on(a.drop_last(), '\n').push(Seq::empty()));
        assert(sa.last() == Seq::<char>::empty());
        assert(sa.last() + sb[0] =~= sb[0]);
        let sab = split_on(a + b, '\n');
        assert(sab =~= sa.drop_last() + sb) by {
            assert(seq![sb[0]] + sb.skip(1) =~= sb);
        }
        assert(sab.last() == sb.last());
        assert(sab.take(sab.len() - 1) =~= sa.drop_last() + sb.take(sb.len() - 1));
        assert(sa.take(sa.len() - 1) =~= sa.drop_last());
        assert(lines(a + b) =~= lines(a) + lines(b));
    }
}

/// A single line ended by `\n`.
pub proof fn lemma_lines_one(x: Seq<char>)
    requires
        forall|i: int| 0 <= i < x.len() ==> x[i] != '\n',
    ensures
        lines(x.push('\n')) == seq![strip_cr(x)],
{
    lemma_split_no_sep(x, '\n');
    assert(x.push('\n').drop_last() =~= x);
    assert(split_on(x.push('\n'), '\n') == seq![x, Seq::<char>::empty()]);
    assert(lines(x.push('\n')) =~= seq![strip_cr(x)]);
}


/// No carriage return stands right before a line feed.
pub open spec fn no_crlf(s: Seq<char>) -> bool {
    forall|i: int| 0 <= i < s.len() - 1 ==> !(#[trigger] s[i] == '\r' && s[i + 1] == '\n')
}

/// Without `\r\n` in `s`, no finished piece ends with `\r`, and the last
/// piece, when it is not empty, ends with the last character of `s`.
pub proof fn lemma_split_no_cr(s: Seq<char>)
    requires
        no_crlf(s),
    ensures
        split_on(s, '\n').len() >= 1,
        split_on(s, '\n').last().len() > 0 ==> split_on(s, '\n').last().last() == s.last(),
        forall|k: int|
            0 <= k < split_on(s, '\n').len() - 1 ==> strip_cr(#[trigger] split_on(s, '\n')[k])
                == split_on(s, '\n')[k],
    decreases s.len(),
{
    lemma_split_on_nonempty(s, '\n');
    if s.len() > 0 {
        let s1 = s.drop_last();
        assert(no_crlf(s1)) by {
            assert forall|i: int| 0 <= i < s1.len() - 1 implies !(#[trigger] s1[i] == '\r' && s1[i
                + 1] == '\n') by {
                assert(s1[i] == s[i] && s1[i + 1] == s[i + 1]);
            }
        }
        lemma_split_no_cr(s1);
        let r = split_on(s1, '\n');
        if s.last() == '\n' {
            if r.last().len() > 0 {
                assert(s1.last() == s[s.len() - 2]);
                assert(s[s.len() - 2] != '\r');
            }
        }
    }
}

/// The lines of a text that ends with `\n`, holds no `\r\n` and is more
/// than a lone `\n`, joined with `\n` and ended with `\n`, give the text
/// back.
pub proof fn lemma_rejoin_lines(c: Seq<char>)
    requires
        c.len() > 0,
        c.last() == '\n',
        c != seq!['\n'],
        no_crlf(c),
    ensures
        join(lines(c), seq!['\n']).len() > 0,
        join(lines(c), seq!['\n']).push('\n') == c,
{
    lemma_split_no_cr(c);
    lemma_join_split(c, '\n');
    let c1 = c.drop_last();
    lemma_split_on_nonempty(c1, '\n');
    let p = split_on(c, '\n');
    assert(p == split_on(c1, '\n').push(Seq::empty()));
    assert(p.len() >= 2);
    let init = p.take(p.len() - 1);
    assert(init =~= split_on(c1, '\n'));
    assert(lines(c) =~= init) by {
        assert(p.last().len() == 0);
        assert(init.map_values(|l: Seq<char>| strip_cr(l)) =~= init);
    }
    assert(p.drop_last() =~= init);
    assert(join(p, seq!['\n']) == join(init, seq!['\n']) + seq!['\n'] + Seq::<char>::empty());
    assert(join(init, seq!['\n']).push('\n') =~= c);
    if join(init, seq!['\n']).len() == 0 {
        assert(c =~= seq!['\n']);
    }
}

/// The lines of a text hold no `\n`.
pub proof fn lemma_lines_no_newline(s: Seq<char>)
    ensures
        forall|i: int, j: int|
            0 <= i < lines(s).len() && 0 <= j < lines(s)[i].len() ==> #[trigger] lines(s)[i][j]
                != '\n',
{
    lemma_split_parts_no_sep(s, '\n');
    lemma_split_on_nonempty(s, '\n');
    let p = split_on(s, '\n');
    assert forall|i: int, j: int|
        0 <= i < lines(s).len() && 0 <= j < lines(s)[i].len() implies #[trigger] lines(s)[i][j]
        != '\n' by {
        if i < p.len() - 1 {
            assert(lines(s)[i] == strip_cr(p[i]));
            assert(lines(s)[i][j] == p[i][j]);
        } else {
            assert(lines(s)[i] == p.last());
            assert(lines(s)[i][j] == p[p.len() - 1][j]);
        }
    }
}

/// The lines of pieces joined and ended with `\n`.
pub proof fn lemma_lines_of_joined(ls: Seq<Seq<char>>)
    requires
        ls.len() >= 1,
        forall|i: int, j: int| 0 <= i < ls.len() && 0 <= j < ls[i].len() ==> #[trigger] ls[i][j] != '\n',
    ensures
        lines(join(ls, seq!['\n']).push('\n')) == ls.map_values(|l: Seq<char>| strip_cr(l)),
{
    let j = join(ls, seq!['\n']);
    lemma_split_join(ls, '\n');
    lemma_split_append(j, seq!['\n'], '\n');
    assert(seq!['\n'].drop_last() =~= Seq::<char>::empty());
    assert(split_on(Seq::<char>::empty(), '\n') == seq![Seq::<char>::empty()]);
    assert(split_on(seq!['\n'], '\n') =~= seq![Seq::<char>::empty(), Seq::<char>::empty()]);
    assert(j + seq!['\n'] =~= j.push('\n'));
    let p = split_on(j.push('\n'), '\n');
    assert(p =~= ls.push(Seq::empty())) by {
        assert(ls.drop_last() + seq![ls.last() + Seq::<char>::empty()] =~= ls);
    }
    assert(p.take(p.len() - 1) =~= ls);
    assert(lines(j.push('\n')) =~= ls.map_values(|l: Seq<char>| strip_cr(l)));
}

} // verus!
