//! Paths as text, read the way `std::path` reads them on Unix: components,
//! joining, parents, and lexical normalization.
//!
//! A component is written as text: `/` for the root, `.` for the current
//! directory, `..` for the parent directory, and the name otherwise (a name
//! never holds `/`).

use vstd::prelude::*;
use crate::text::{
    join, lemma_split_append, lemma_split_join, lemma_split_parts_no_sep,
    split_on, views,
};

verus! {

pub open spec fn root_comp() -> Seq<char> {
    seq!['/']
}

pub open spec fn cur_comp() -> Seq<char> {
    seq!['.']
}

pub open spec fn parent_comp() -> Seq<char> {
    seq!['.', '.']
}

/// The path starts at the root (`Path::is_absolute` on Unix).
pub open spec fn is_absolute(p: Seq<char>) -> bool {
    p.len() > 0 && p[0] == '/'
}

/// The components that stand before the body: the root, or a leading `.`.
pub open spec fn lead(p: Seq<char>) -> Seq<Seq<char>> {
    if is_absolute(p) {
        seq![root_comp()]
    } else if p.len() > 0 && p[0] == '.' && (p.len() == 1 || p[1] == '/') {
        seq![cur_comp()]
    } else {
        Seq::empty()
    }
}

/// A piece between slashes that makes a component: not empty and not `.`.
pub open spec fn is_named(seg: Seq<char>) -> bool {
    seg.len() > 0 && seg != cur_comp()
}

/// The pieces that make components, in order.
pub open spec fn body(segs: Seq<Seq<char>>) -> Seq<Seq<char>>
    decreases segs.len(),
{
    if segs.len() == 0 {
        Seq::empty()
    } else if is_named(segs.last()) {
        body(segs.drop_last()).push(segs.last())
    } else {
        body(segs.drop_last())
    }
}

/// The components of `p` (`Path::components` on Unix): the root or a
/// leading `.`, then every piece between slashes that is neither empty nor
/// `.`.
pub open spec fn components(p: Seq<char>) -> Seq<Seq<char>> {
    lead(p) + body(split_on(p, '/'))
}

/// `PathBuf::push` / `Path::join`: an absolute `q` replaces `base`;
/// otherwise `q` is appended after a `/` unless `base` is empty or already
/// ends with one.
pub open spec fn join_path(base: Seq<char>, q: Seq<char>) -> Seq<char> {
    if is_absolute(q) {
        q
    } else if base.len() > 0 && base.last() != '/' {
        base + seq!['/'] + q
    } else {
        base + q
    }
}

/// The path built by pushing each component in turn
/// (`PathBuf::from_iter`).
pub open spec fn collect(cs: Seq<Seq<char>>) -> Seq<char>
    decreases cs.len(),
{
    if cs.len() == 0 {
        Seq::empty()
    } else {
        join_path(collect(cs.drop_last()), cs.last())
    }
}

/// One step of lexical normalization: `.` is dropped; `..` right after the
/// root stays at the root (there is nothing above it), removes the
/// component before it otherwise, and is kept when that one is `..` too (or
/// there is none); every other component is kept.
pub open spec fn norm_step(out: Seq<Seq<char>>, c: Seq<char>) -> Seq<Seq<char>> {
    if c == cur_comp() {
        out
    } else if c == parent_comp() {
        if out.len() > 0 && out.last() == root_comp() {
            out
        } else if out.len() > 0 && out.last() != parent_comp() {
            out.drop_last()
        } else {
            out.push(c)
        }
    } else {
        out.push(c)
    }
}

/// Lexical normalization of a component list, left to right.
pub open spec fn normalize(cs: Seq<Seq<char>>) -> Seq<Seq<char>>
    decreases cs.len(),
{
    if cs.len() == 0 {
        Seq::empty()
    } else {
        norm_step(normalize(cs.drop_last()), cs.last())
    }
}

/// The lexical normal form of a path.
pub open spec fn lexical_normal(p: Seq<char>) -> Seq<char> {
    collect(normalize(components(p)))
}

/// The parent of `p` (`Path::parent`): the path of all components but the
/// last, when the last one is not the root; none for the root and for the
/// empty path.
pub open spec fn parent_path(p: Seq<char>) -> Option<Seq<char>> {
    let cs = components(p);
    if cs.len() > 0 && cs.last() != root_comp() {
        Some(collect(cs.drop_last()))
    } else {
        None
    }
}

fn is_cur(c: &Vec<char>) -> (b: bool)
    ensures
        b == (c@ == cur_comp()),
{
    let b = c.len() == 1 && c[0] == '.';
    if b {
        assert(c@ =~= cur_comp());
    }
    b
}

fn is_root(c: &Vec<char>) -> (b: bool)
    ensures
        b == (c@ == root_comp()),
{
    let b = c.len() == 1 && c[0] == '/';
    if b {
        assert(c@ =~= root_comp());
    }
    b
}

fn is_parent(c: &Vec<char>) -> (b: bool)
    ensures
        b == (c@ == parent_comp()),
{
    let b = c.len() == 2 && c[0] == '.' && c[1] == '.';
    if b {
        assert(c@ =~= parent_comp());
    }
    b
}

/// The components of a path.
pub fn components_of(p: &Vec<char>) -> (cs: Vec<Vec<char>>)
    ensures
        views(cs@) == components(p@),
{
    let mut out: Vec<Vec<char>> = Vec::new();
    if p.len() > 0 && p[0] == '/' {
        let mut r: Vec<char> = Vec::new();
        r.push('/');
        assert(r@ =~= root_comp());
        out.push(r);
        assert(views(out@) =~= lead(p@));
    } else if p.len() > 0 && p[0] == '.' && (p.len() == 1 || p[1] == '/') {
        let mut r: Vec<char> = Vec::new();
        r.push('.');
        assert(r@ =~= cur_comp());
        out.push(r);
        assert(views(out@) =~= lead(p@));
    } else {
        assert(views(out@) =~= lead(p@));
    }
    let mut cur: Vec<char> = Vec::new();
    assert(p@.take(0) =~= Seq::<char>::empty());
    assert(split_on(p@.take(0), '/').drop_last() =~= Seq::<Seq<char>>::empty());
    for i in 0..p.len()
        invariant
            split_on(p@.take(i as int), '/').len() >= 1,
            views(out@) == lead(p@) + body(split_on(p@.take(i as int), '/').drop_last()),
            cur@ == split_on(p@.take(i as int), '/').last(),
    {
        let c = p[i];
        let ghost pre = p@.take(i as int);
        let ghost parts = split_on(pre, '/');
        assert(p@.take(i + 1).drop_last() =~= pre);
        assert(p@.take(i + 1).last() == c);
        let ghost nparts = split_on(p@.take(i + 1), '/');
        if c == '/' {
            assert(nparts == parts.push(Seq::empty()));
            assert(nparts.drop_last() =~= parts);
            assert(parts.drop_last().push(parts.last()) =~= parts);
            if cur.len() > 0 && !is_cur(&cur) {
                let ghost old_o = views(out@);
                let ghost cv = cur@;
                out.push(cur);
                assert(views(out@) =~= old_o.push(cv));
            }
            cur = Vec::new();
            assert(views(out@) =~= lead(p@) + body(nparts.drop_last()));
        } else {
            cur.push(c);
            assert(nparts.drop_last() =~= parts.drop_last());
        }
    }
    assert(p@.take(p.len() as int) =~= p@);
    let ghost parts = split_on(p@, '/');
    assert(parts.drop_last().push(parts.last()) =~= parts);
    if cur.len() > 0 && !is_cur(&cur) {
        let ghost old_o = views(out@);
        let ghost cv = cur@;
        out.push(cur);
        assert(views(out@) =~= old_o.push(cv));
    }
    assert(views(out@) =~= components(p@));
    out
}

/// Lexical normalization of a component list.
pub fn normalize_components(cs: &Vec<Vec<char>>) -> (out: Vec<Vec<char>>)
    ensures
        views(out@) == normalize(views(cs@)),
{
    let mut out: Vec<Vec<char>> = Vec::new();
    assert(views(cs@).take(0) =~= Seq::<Seq<char>>::empty());
    for i in 0..cs.len()
        invariant
            views(out@) == normalize(views(cs@).take(i as int)),
    {
        let ghost prev = views(cs@).take(i as int);
        assert(views(cs@).take(i + 1).drop_last() =~= prev);
        assert(views(cs@).take(i + 1).last() == cs@[i as int]@);
        let ghost old_o = views(out@);
        let c = &cs[i];
        if is_cur(c) {
        } else if is_parent(c) {
            if out.len() > 0 && is_root(&out[out.len() - 1]) {
            } else if out.len() > 0 && !is_parent(&out[out.len() - 1]) {
                out.pop();
                assert(views(out@) =~= old_o.drop_last());
            } else {
                out.push(c.clone());
                assert(views(out@) =~= old_o.push(c@));
            }
        } else {
            out.push(c.clone());
            assert(views(out@) =~= old_o.push(c@));
        }
    }
    assert(views(cs@).take(cs.len() as int) =~= views(cs@));
    out
}

/// Appends `q` to `base` the way `PathBuf::push` does.
pub fn push_path(base: &mut Vec<char>, q: &Vec<char>)
    ensures
        final(base)@ == join_path(old(base)@, q@),
{
    if q.len() > 0 && q[0] == '/' {
        *base = q.clone();
        return;
    }
    if base.len() > 0 && base[base.len() - 1] != '/' {
        base.push('/');
    }
    let ghost b0 = base@;
    for i in 0..q.len()
        invariant
            base@ == b0 + q@.take(i as int),
    {
        base.push(q[i]);
        assert(q@.take(i + 1) =~= q@.take(i as int).push(q@[i as int]));
    }
    assert(q@.take(q.len() as int) =~= q@);
}

/// The path made of the first `count` of the given components.
pub fn collect_components(cs: &Vec<Vec<char>>, count: usize) -> (p: Vec<char>)
    requires
        count <= cs.len(),
    ensures
        p@ == collect(views(cs@).take(count as int)),
{
    let mut p: Vec<char> = Vec::new();
    assert(views(cs@).take(0) =~= Seq::<Seq<char>>::empty());
    for i in 0..count
        invariant
            count <= cs.len(),
            p@ == collect(views(cs@).take(i as int)),
    {
        assert(views(cs@).take(i + 1).drop_last() =~= views(cs@).take(i as int));
        assert(views(cs@).take(i + 1).last() == cs@[i as int]@);
        push_path(&mut p, &cs[i]);
    }
    p
}


/// A component after the first: a name or `..` (not empty, not `.`, no
/// `/`).
pub open spec fn comp_ok(c: Seq<char>) -> bool {
    &&& c.len() > 0
    &&& c != cur_comp()
    &&& forall|j: int| 0 <= j < c.len() ==> c[j] != '/'
}

/// The shape of a component list that `components` gives: the root or `.`
/// may stand first; every other component is a name or `..`.
pub open spec fn comp_list_ok(xs: Seq<Seq<char>>) -> bool {
    &&& forall|i: int| 0 < i < xs.len() ==> comp_ok(#[trigger] xs[i])
    &&& xs.len() > 0 ==> (xs[0] == root_comp() || xs[0] == cur_comp() || comp_ok(xs[0]))
}

/// A normalized component list: no `.`, the root only first, and no `..`
/// after anything but `..`.
pub open spec fn normal_form(xs: Seq<Seq<char>>) -> bool {
    &&& forall|i: int| 0 <= i < xs.len() ==> #[trigger] xs[i] != cur_comp()
    &&& forall|i: int| 0 < i < xs.len() ==> #[trigger] xs[i] != root_comp()
    &&& forall|i: int, j: int|
        0 <= i < j < xs.len() && #[trigger] xs[j] == parent_comp() ==> #[trigger] xs[i]
            == parent_comp()
}

proof fn lemma_body_append(a: Seq<Seq<char>>, b: Seq<Seq<char>>)
    ensures
        body(a + b) == body(a) + body(b),
    decreases b.len(),
{
    if b.len() == 0 {
        assert(a + b =~= a);
        assert(body(a) + body(b) =~= body(a));
    } else {
        lemma_body_append(a, b.drop_last());
        assert((a + b).drop_last() =~= a + b.drop_last());
        assert((a + b).last() == b.last());
        if is_named(b.last()) {
            assert(body(a + b) =~= body(a) + body(b));
        } else {
            assert(body(a + b) =~= body(a) + body(b));
        }
    }
}

proof fn lemma_body_single_unnamed(e: Seq<char>)
    requires
        !is_named(e),
    ensures
        body(seq![e]) == Seq::<Seq<char>>::empty(),
{
    assert(seq![e].last() == e);
    assert(seq![e].drop_last() =~= Seq::<Seq<char>>::empty());
    assert(body(Seq::<Seq<char>>::empty()) == Seq::<Seq<char>>::empty());
    assert(body(seq![e]) == body(seq![e].drop_last()));
}

proof fn lemma_body_all_named(xs: Seq<Seq<char>>)
    requires
        forall|i: int| 0 <= i < xs.len() ==> comp_ok(#[trigger] xs[i]),
    ensures
        body(xs) == xs,
    decreases xs.len(),
{
    if xs.len() > 0 {
        lemma_body_all_named(xs.drop_last());
        assert(comp_ok(xs[xs.len() - 1]));
        assert(xs.drop_last().push(xs.last()) =~= xs);
    }
}

/// The components of any path have the shape `comp_list_ok` describes.
pub proof fn lemma_components_ok(p: Seq<char>)
    ensures
        comp_list_ok(components(p)),
{
    let segs = split_on(p, '/');
    lemma_split_parts_no_sep(p, '/');
    lemma_body_ok(segs);
    let b = body(segs);
    let cs = components(p);
    assert forall|i: int| 0 < i < cs.len() implies comp_ok(#[trigger] cs[i]) by {
        let k = i - lead(p).len();
        assert(cs[i] == b[k]);
    }
    if cs.len() > 0 && lead(p).len() == 0 {
        assert(cs[0] == b[0]);
    }
}

proof fn lemma_body_ok(segs: Seq<Seq<char>>)
    requires
        forall|i: int, j: int| 0 <= i < segs.len() && 0 <= j < segs[i].len() ==> #[trigger] segs[i][j] != '/',
    ensures
        forall|i: int| 0 <= i < body(segs).len() ==> comp_ok(#[trigger] body(segs)[i]),
    decreases segs.len(),
{
    if segs.len() > 0 {
        let init = segs.drop_last();
        assert forall|i: int, j: int| 0 <= i < init.len() && 0 <= j < init[i].len() implies #[trigger] init[i][j] != '/' by {
            assert(init[i] == segs[i]);
        }
        lemma_body_ok(init);
        if is_named(segs.last()) {
            let b = body(segs);
            assert forall|i: int| 0 <= i < b.len() implies comp_ok(#[trigger] b[i]) by {
                if i < b.len() - 1 {
                    assert(b[i] == body(init)[i]);
                } else {
                    assert(b[i] == segs[segs.len() - 1]);
                    assert forall|j: int| 0 <= j < b[i].len() implies b[i][j] != '/' by {
                        assert(segs[segs.len() - 1][j] != '/');
                    }
                }
            }
        }
    }
}

proof fn lemma_collect_names(ys: Seq<Seq<char>>)
    requires
        forall|i: int| 0 <= i < ys.len() ==> comp_ok(#[trigger] ys[i]),
    ensures
        collect(ys) == join(ys, seq!['/']),
        ys.len() > 0 ==> collect(ys).len() > 0 && collect(ys).last() != '/' && collect(ys)[0]
            == ys[0][0],
    decreases ys.len(),
{
    if ys.len() > 0 {
        let init = ys.drop_last();
        lemma_collect_names(init);
        let y = ys.last();
        assert(comp_ok(ys[ys.len() - 1]));
        assert(y[0] != '/');
        assert(y.last() == y[y.len() - 1]);
        assert(y.last() != '/');
        if init.len() == 0 {
            assert(collect(init) =~= Seq::<char>::empty());
            assert(collect(ys) =~= y);
        } else {
            assert(collect(ys) == collect(init) + seq!['/'] + y);
            assert(init[0] == ys[0]);
        }
    }
}

proof fn lemma_collect_head(h: Seq<char>, ys: Seq<Seq<char>>)
    requires
        forall|i: int| 0 <= i < ys.len() ==> comp_ok(#[trigger] ys[i]),
    ensures
        collect(seq![h] + ys) == if ys.len() == 0 {
            collect(seq![h])
        } else {
            join_path(collect(seq![h]), join(ys, seq!['/']))
        },
    decreases ys.len(),
{
    lemma_collect_names(ys);
    if ys.len() > 0 {
        let init = ys.drop_last();
        lemma_collect_head(h, init);
        lemma_collect_names(init);
        let y = ys.last();
        assert(comp_ok(ys[ys.len() - 1]));
        assert(y[0] != '/');
        assert((seq![h] + ys).drop_last() =~= seq![h] + init);
        assert((seq![h] + ys).last() == y);
        let c = collect(seq![h]);
        if init.len() == 0 {
            assert(seq![h] + init =~= seq![h]);
            assert(join(ys, seq!['/']) =~= y);
        } else {
            let j = join(init, seq!['/']);
            assert(j.len() > 0 && j.last() != '/' && j[0] != '/');
            assert(join(ys, seq!['/']) == j + seq!['/'] + y);
            let jp = join_path(c, j);
            assert(jp.len() > 0 && jp.last() == j.last());
            assert(join_path(jp, y) =~= join_path(c, j + seq!['/'] + y));
        }
    }
}

proof fn lemma_split_slash()
    ensures
        split_on(seq!['/'], '/') == seq![Seq::<char>::empty(), Seq::<char>::empty()],
{
    assert(seq!['/'].drop_last() =~= Seq::<char>::empty());
    assert(split_on(Seq::<char>::empty(), '/') == seq![Seq::<char>::empty()]);
    assert(split_on(seq!['/'], '/') =~= seq![Seq::<char>::empty(), Seq::<char>::empty()]);
}

/// Writing out a component list of the `comp_list_ok` shape and reading its
/// components back gives the list again.
pub proof fn lemma_components_collect(xs: Seq<Seq<char>>)
    requires
        comp_list_ok(xs),
    ensures
        components(collect(xs)) == xs,
{
    if xs.len() == 0 {
        assert(collect(xs) =~= Seq::<char>::empty());
        assert(split_on(Seq::<char>::empty(), '/') == seq![Seq::<char>::empty()]);
        lemma_body_single_unnamed(Seq::<char>::empty());
        assert(components(collect(xs)) =~= xs);
    } else {
        let h = xs[0];
        let rest = xs.skip(1);
        assert(forall|i: int| 0 <= i < rest.len() ==> comp_ok(#[trigger] rest[i])) by {
            assert forall|i: int| 0 <= i < rest.len() implies comp_ok(#[trigger] rest[i]) by {
                assert(rest[i] == xs[i + 1]);
            }
        }
        assert(xs =~= seq![h] + rest);
        lemma_collect_head(h, rest);
        lemma_collect_names(rest);
        assert(seq![h].drop_last() =~= Seq::<Seq<char>>::empty());
        assert(collect(Seq::<Seq<char>>::empty()) =~= Seq::<char>::empty());
        assert(collect(seq![h]) == join_path(Seq::empty(), h));
        if h[0] == '/' {
            assert(collect(seq![h]) == h);
        } else {
            assert(collect(seq![h]) =~= h);
        }
        let j = join(rest, seq!['/']);
        if rest.len() > 0 {
            assert forall|i: int, k: int| 0 <= i < rest.len() && 0 <= k < rest[i].len() implies #[trigger] rest[i][k] != '/' by {
                assert(comp_ok(rest[i]));
            }
            lemma_split_join(rest, '/');
            lemma_body_all_named(rest);
        }
        if h == root_comp() {
            lemma_split_slash();
            if rest.len() == 0 {
                lemma_body_single_unnamed(Seq::<char>::empty());
                lemma_body_append(seq![Seq::<char>::empty()], seq![Seq::<char>::empty()]);
                assert(seq![Seq::<char>::empty()] + seq![Seq::<char>::empty()] =~= seq![Seq::<char>::empty(), Seq::<char>::empty()]);
                assert(components(collect(xs)) =~= xs);
            } else {
                let t = seq!['/'] + j;
                assert(collect(xs) == t);
                lemma_split_append(seq!['/'], j, '/');
                assert(split_on(t, '/') =~= seq![Seq::<char>::empty()] + rest) by {
                    assert(Seq::<char>::empty() + rest[0] =~= rest[0]);
                    assert(seq![Seq::<char>::empty()] + seq![rest[0]] + rest.skip(1) =~= seq![Seq::<char>::empty()] + rest);
                }
                lemma_body_append(seq![Seq::<char>::empty()], rest);
                lemma_body_single_unnamed(Seq::<char>::empty());
                assert(components(collect(xs)) =~= xs);
            }
        } else if h == cur_comp() {
            assert(split_on(Seq::<char>::empty(), '/') == seq![Seq::<char>::empty()]);
            assert(seq!['.'].drop_last() =~= Seq::<char>::empty());
            assert(split_on(seq!['.'], '/') =~= seq![seq!['.']]);
            lemma_body_single_unnamed(cur_comp());
            if rest.len() == 0 {
                assert(components(collect(xs)) =~= xs);
            } else {
                let t = seq!['.', '/'] + j;
                assert(collect(xs) =~= t);
                lemma_split_append(seq!['.'], seq!['/'] + j, '/');
                lemma_split_append(seq!['/'], j, '/');
                lemma_split_slash();
                assert(seq!['.'] + (seq!['/'] + j) =~= t);
                assert(split_on(seq!['/'] + j, '/') =~= seq![Seq::<char>::empty()] + rest) by {
                    assert(Seq::<char>::empty() + rest[0] =~= rest[0]);
                    assert(seq![Seq::<char>::empty()] + seq![rest[0]] + rest.skip(1) =~= seq![Seq::<char>::empty()] + rest);
                }
                assert(split_on(t, '/') =~= seq![cur_comp()] + rest) by {
                    assert(seq!['.'] + Seq::<char>::empty() =~= seq!['.']);
                }
                lemma_body_append(seq![cur_comp()], rest);
                assert(components(collect(xs)) =~= xs);
            }
        } else {
            assert(comp_ok(h));
            lemma_collect_names(xs);
            assert forall|i: int| 0 <= i < xs.len() implies comp_ok(#[trigger] xs[i]) by {
                if i == 0 {
                }
            }
            assert forall|i: int, k: int| 0 <= i < xs.len() && 0 <= k < xs[i].len() implies #[trigger] xs[i][k] != '/' by {
                assert(comp_ok(xs[i]));
            }
            lemma_split_join(xs, '/');
            lemma_body_all_named(xs);
            let t = collect(xs);
            assert(t[0] == h[0]);
            if h[0] == '.' {
                if h.len() == 1 {
                    assert(h =~= cur_comp());
                }
                assert(t == join(xs, seq!['/']));
                lemma_join_prefix(xs);
                assert(t[1] == h[1]);
            }
            assert(lead(t) =~= Seq::<Seq<char>>::empty());
            assert(components(collect(xs)) =~= xs);
        }
    }
}

proof fn lemma_join_prefix(xs: Seq<Seq<char>>)
    requires
        xs.len() > 0,
    ensures
        join(xs, seq!['/']).len() >= xs[0].len(),
        forall|k: int| 0 <= k < xs[0].len() ==> #[trigger] join(xs, seq!['/'])[k] == xs[0][k],
    decreases xs.len(),
{
    if xs.len() > 1 {
        lemma_join_prefix(xs.drop_last());
        assert(xs.drop_last()[0] == xs[0]);
    }
}

/// Normalizing a list of the `comp_list_ok` shape gives a list in normal
/// form of the same shape.
pub proof fn lemma_normalize_shape(cs: Seq<Seq<char>>)
    requires
        comp_list_ok(cs),
    ensures
        comp_list_ok(normalize(cs)),
        normal_form(normalize(cs)),
    decreases cs.len(),
{
    if cs.len() > 0 {
        let init = cs.drop_last();
        assert(comp_list_ok(init)) by {
            assert forall|i: int| 0 < i < init.len() implies comp_ok(#[trigger] init[i]) by {
                assert(init[i] == cs[i]);
            }
        }
        lemma_normalize_shape(init);
        let out = normalize(init);
        let c = cs.last();
        let n = normalize(cs);
        assert(n == norm_step(out, c));
        if c == cur_comp() {
        } else if c == parent_comp() {
            if out.len() > 0 && out.last() == root_comp() {
                assert(n == out);
            } else if out.len() > 0 && out.last() != parent_comp() {
                assert(n =~= out.drop_last());
                assert forall|i: int, j: int| 0 <= i < j < n.len() && #[trigger] n[j] == parent_comp() implies #[trigger] n[i] == parent_comp() by {
                    assert(n[j] == out[j] && n[i] == out[i]);
                }
            } else {
                assert(n =~= out.push(c));
                assert forall|i: int, j: int| 0 <= i < j < n.len() && #[trigger] n[j] == parent_comp() implies #[trigger] n[i] == parent_comp() by {
                    if j == n.len() - 1 {
                        assert(n[i] == out[i]);
                        if out[out.len() - 1] != parent_comp() {
                        } else if i < out.len() - 1 {
                            assert(out[out.len() - 1] == parent_comp());
                        }
                    } else {
                        assert(n[j] == out[j] && n[i] == out[i]);
                    }
                }
                assert(comp_ok(c)) by {
                    assert(forall|k: int| 0 <= k < c.len() ==> c[k] == '.');
                }
                assert forall|i: int| 0 < i < n.len() implies comp_ok(#[trigger] n[i]) by {
                    if i < out.len() {
                        assert(n[i] == out[i]);
                    }
                }
                assert forall|i: int| 0 < i < n.len() implies #[trigger] n[i] != root_comp() by {
                    if i < out.len() {
                        assert(n[i] == out[i]);
                    }
                }
                if n.len() > 0 && out.len() > 0 {
                    assert(n[0] == out[0]);
                }
            }
        } else {
            assert(n =~= out.push(c));
            if cs.len() > 1 {
                assert(comp_ok(cs[cs.len() - 1]));
            }
            if out.len() > 0 {
                // an earlier component survived, so `c` is not the first one
                lemma_normalize_len(init);
                assert(cs.len() > 1);
                assert(comp_ok(cs[cs.len() - 1]));
                assert(c[0] != '/');
                assert(root_comp()[0] == '/');
                assert(c != root_comp());
            }
            assert forall|i: int, j: int| 0 <= i < j < n.len() && #[trigger] n[j] == parent_comp() implies #[trigger] n[i] == parent_comp() by {
                assert(n[j] == out[j] && n[i] == out[i]);
            }
            assert forall|i: int| 0 < i < n.len() implies comp_ok(#[trigger] n[i]) by {
                if i < out.len() {
                    assert(n[i] == out[i]);
                } else {
                    assert(comp_ok(cs[cs.len() - 1]));
                }
            }
            assert forall|i: int| 0 < i < n.len() implies #[trigger] n[i] != root_comp() by {
                if i < out.len() {
                    assert(n[i] == out[i]);
                }
            }
            assert forall|i: int| 0 <= i < n.len() implies #[trigger] n[i] != cur_comp() by {
                if i < out.len() {
                    assert(n[i] == out[i]);
                }
            }
            if out.len() > 0 {
                assert(n[0] == out[0]);
            }
        }
    }
}

proof fn lemma_normalize_len(cs: Seq<Seq<char>>)
    ensures
        normalize(cs).len() <= cs.len(),
    decreases cs.len(),
{
    if cs.len() > 0 {
        lemma_normalize_len(cs.drop_last());
    }
}

/// A list in normal form is left as it is by normalization.
pub proof fn lemma_normalize_fixed(xs: Seq<Seq<char>>)
    requires
        normal_form(xs),
    ensures
        normalize(xs) == xs,
    decreases xs.len(),
{
    if xs.len() > 0 {
        let init = xs.drop_last();
        assert(normal_form(init)) by {
            assert forall|i: int, j: int| 0 <= i < j < init.len() && #[trigger] init[j] == parent_comp() implies #[trigger] init[i] == parent_comp() by {
                assert(init[j] == xs[j] && init[i] == xs[i]);
            }
            assert forall|i: int| 0 <= i < init.len() implies #[trigger] init[i] != cur_comp() by {
                assert(init[i] == xs[i]);
            }
            assert forall|i: int| 0 < i < init.len() implies #[trigger] init[i] != root_comp() by {
                assert(init[i] == xs[i]);
            }
        }
        lemma_normalize_fixed(init);
        let c = xs.last();
        assert(xs[xs.len() - 1] != cur_comp());
        if c == parent_comp() && init.len() > 0 {
            assert(xs[xs.len() - 1] == parent_comp());
            assert(xs[init.len() - 1] == parent_comp());
            assert(init.last() == parent_comp());
        }
        assert(init.push(c) =~= xs);
    }
}

/// Lexical normalization is idempotent: a normalized path is its own
/// normal form.
pub proof fn law_lexical_normal_idempotent(p: Seq<char>)
    ensures
        lexical_normal(lexical_normal(p)) == lexical_normal(p),
        normal_form(components(lexical_normal(p))),
{
    lemma_components_ok(p);
    lemma_normalize_shape(components(p));
    let n = normalize(components(p));
    lemma_components_collect(n);
    lemma_normalize_fixed(n);
}


proof fn lemma_normalize_keeps_root(cs: Seq<Seq<char>>)
    requires
        comp_list_ok(cs),
        cs.len() > 0,
        cs[0] == root_comp(),
    ensures
        normalize(cs).len() > 0,
        normalize(cs)[0] == root_comp(),
    decreases cs.len(),
{
    let init = cs.drop_last();
    if cs.len() == 1 {
        assert(init =~= Seq::<Seq<char>>::empty());
        assert(normalize(init) == Seq::<Seq<char>>::empty());
        assert(cs.last() == root_comp());
        assert(root_comp() != cur_comp() && root_comp() != parent_comp()) by {
            assert(root_comp()[0] != cur_comp()[0]);
            assert(root_comp().len() != parent_comp().len());
        }
    } else {
        assert(comp_list_ok(init)) by {
            assert forall|i: int| 0 < i < init.len() implies comp_ok(#[trigger] init[i]) by {
                assert(init[i] == cs[i]);
            }
        }
        assert(init[0] == cs[0]);
        lemma_normalize_keeps_root(init);
        let out = normalize(init);
        if out.len() == 1 {
            assert(out.last() == root_comp());
        }
    }
}

/// An absolute path stays absolute under lexical normalization: `..` does
/// not climb above the root.
pub proof fn law_absolute_stays_absolute(p: Seq<char>)
    requires
        is_absolute(p),
    ensures
        is_absolute(lexical_normal(p)),
        forall|i: int|
            0 <= i < components(lexical_normal(p)).len() ==> #[trigger] components(lexical_normal(p))[i]
                != parent_comp(),
{
    lemma_components_ok(p);
    let cs = components(p);
    assert(cs[0] == root_comp());
    lemma_normalize_keeps_root(cs);
    lemma_normalize_shape(cs);
    let n = normalize(cs);
    let rest = n.skip(1);
    assert(n =~= seq![n[0]] + rest);
    assert forall|i: int| 0 <= i < rest.len() implies comp_ok(#[trigger] rest[i]) by {
        assert(rest[i] == n[i + 1]);
    }
    lemma_collect_head(root_comp(), rest);
    assert(seq![root_comp()].drop_last() =~= Seq::<Seq<char>>::empty());
    assert(collect(Seq::<Seq<char>>::empty()) =~= Seq::<char>::empty());
    assert(collect(seq![root_comp()]) == join_path(Seq::empty(), root_comp()));
    assert(collect(seq![root_comp()]) == root_comp());
    if rest.len() > 0 {
        lemma_collect_names(rest);
        let j = join(rest, seq!['/']);
        assert(j[0] == rest[0][0]);
        assert(comp_ok(rest[0]));
        assert(j[0] != '/');
        assert(collect(n) == seq!['/'] + j);
    }
    lemma_components_collect(n);
    assert forall|i: int| 0 <= i < n.len() implies #[trigger] n[i] != parent_comp() by {
        if n[i] == parent_comp() {
            if i > 0 {
                assert(n[0] == parent_comp());
            }
            assert(root_comp().len() != parent_comp().len());
        }
    }
}

/// Two paths in normal form are the same text exactly when they have the
/// same components, so comparing normalized paths as text compares them as
/// paths.
pub proof fn law_normal_text_is_components(p: Seq<char>, q: Seq<char>)
    ensures
        (lexical_normal(p) == lexical_normal(q)) <==> (components(lexical_normal(p)) == components(
            lexical_normal(q),
        )),
{
    lemma_components_ok(p);
    lemma_components_ok(q);
    lemma_normalize_shape(components(p));
    lemma_normalize_shape(components(q));
    lemma_components_collect(normalize(components(p)));
    lemma_components_collect(normalize(components(q)));
}


/// Joining a relative path to a base adds the pieces of the relative path
/// after the components of the base (a leading `.` of the relative path is
/// dropped, except when the base is empty and the join is the path itself).
pub proof fn lemma_join_components(base: Seq<char>, q: Seq<char>)
    requires
        !is_absolute(q),
        base.len() > 0,
    ensures
        components(join_path(base, q)) == components(base) + body(split_on(q, '/')),
{
    let sb = split_on(base, '/');
    crate::text::lemma_split_on_nonempty(base, '/');
    crate::text::lemma_split_on_nonempty(q, '/');
    let sq = split_on(q, '/');
    if base.last() != '/' {
        let b1 = base + seq!['/'];
        lemma_split_append(base, seq!['/'], '/');
        lemma_split_slash();
        assert(split_on(b1, '/') =~= sb + seq![Seq::<char>::empty()]) by {
            assert(sb.last() + Seq::<char>::empty() =~= sb.last());
            assert(sb.drop_last() + seq![sb.last()] =~= sb);
        }
        lemma_split_append(b1, q, '/');
        assert(Seq::<char>::empty() + sq[0] =~= sq[0]);
        assert(split_on(b1 + q, '/') =~= sb + sq) by {
            assert((sb + seq![Seq::<char>::empty()]).drop_last() =~= sb);
            assert(seq![sq[0]] + sq.skip(1) =~= sq);
        }
        lemma_body_append(sb, sq);
        assert(join_path(base, q) == b1 + q);
        assert(lead(b1 + q) == lead(base)) by {
            assert((b1 + q)[0] == base[0]);
            if base.len() >= 2 {
                assert((b1 + q)[1] == base[1]);
            } else {
                assert((b1 + q)[1] == '/');
            }
        }
    } else {
        assert(sb.last() == Seq::<char>::empty()) by {
            assert(base.drop_last() + seq![base.last()] =~= base);
        }
        lemma_split_append(base, q, '/');
        assert(sb.last() + sq[0] =~= sq[0]);
        assert(split_on(base + q, '/') =~= sb.drop_last() + sq) by {
            assert(seq![sq[0]] + sq.skip(1) =~= sq);
        }
        lemma_body_append(sb.drop_last(), sq);
        assert(body(sb) == body(sb.drop_last())) by {
            assert(!is_named(sb.last()));
        }
        assert(join_path(base, q) == base + q);
        assert(lead(base + q) == lead(base)) by {
            assert((base + q)[0] == base[0]);
            if base.len() >= 2 {
                assert((base + q)[1] == base[1]);
            }
        }
    }
}

} // verus!
