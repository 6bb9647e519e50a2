//! Unix paths as character sequences: their components (as `std::path`
//! reads them), joining, and the confinement of archive paths to a root.
use crate::text::{is_char, lemma_pieces_nonempty, pieces, split_on_char, texts};
use vstd::prelude::*;
use vstd::slice::slice_to_vec;

verus! {

/// One component of a Unix path.
pub ghost enum PathComp {
    /// A leading `/`.
    Root,
    /// A leading `.`.
    Cur,
    /// A `..`.
    Parent,
    /// Any other name.
    Normal(Seq<char>),
}

/// Executable form of [`PathComp`].
#[derive(Debug)]
pub enum Component {
    RootDir,
    CurDir,
    ParentDir,
    Normal(Vec<char>),
}

impl View for Component {
    type V = PathComp;

    open spec fn view(&self) -> PathComp {
        match self {
            Component::RootDir => PathComp::Root,
            Component::CurDir => PathComp::Cur,
            Component::ParentDir => PathComp::Parent,
            Component::Normal(n) => PathComp::Normal(n@),
        }
    }
}

/// The views of a vector of components.
pub open spec fn comps_view(v: Seq<Component>) -> Seq<PathComp> {
    Seq::new(v.len(), |i: int| v[i]@)
}

pub open spec fn dot() -> Seq<char> {
    seq!['.']
}

pub open spec fn dotdot() -> Seq<char> {
    seq!['.', '.']
}

/// The components that the `/`-separated pieces `segs` contribute: empty
/// pieces and `.` are dropped, `..` is a parent component, the rest are names.
pub open spec fn body_comps(segs: Seq<Seq<char>>) -> Seq<PathComp>
    decreases segs.len(),
{
    if segs.len() == 0 {
        Seq::empty()
    } else {
        let prev = body_comps(segs.drop_last());
        let s = segs.last();
        if s.len() == 0 || s == dot() {
            prev
        } else if s == dotdot() {
            prev.push(PathComp::Parent)
        } else {
            prev.push(PathComp::Normal(s))
        }
    }
}

/// The components of `p`, as `Path::components` yields them on Unix.
pub open spec fn components(p: Seq<char>) -> Seq<PathComp> {
    let segs = pieces(p, is_char('/'));
    let head = if p.len() > 0 && p[0] == '/' {
        seq![PathComp::Root]
    } else if segs[0] == dot() {
        seq![PathComp::Cur]
    } else {
        Seq::empty()
    };
    head + body_comps(segs)
}

/// `PathBuf::push` on Unix: an absolute `c` replaces `buf`; otherwise `c` is
/// appended, after a `/` unless `buf` is empty or already ends with one.
pub open spec fn push_path(buf: Seq<char>, c: Seq<char>) -> Seq<char> {
    if c.len() > 0 && c[0] == '/' {
        c
    } else if buf.len() == 0 || buf.last() == '/' {
        buf + c
    } else {
        buf.push('/') + c
    }
}

/// Executable [`push_path`]: `PathBuf::push` on Unix.
pub fn push_path_exec(buf: &mut Vec<char>, c: &[char])
    requires
        old(buf)@.len() + c@.len() + 1 <= usize::MAX,
    ensures
        final(buf)@ == push_path(old(buf)@, c@),
{
    if c.len() > 0 && c[0] == '/' {
        buf.clear();
    } else if buf.len() > 0 && buf[buf.len() - 1] != '/' {
        buf.push('/');
    }
    let ghost start = buf@;
    let mut i: usize = 0;
    while i < c.len()
        invariant
            i <= c@.len(),
            start.len() <= old(buf)@.len() + 1,
            old(buf)@.len() + c@.len() + 1 <= usize::MAX,
            buf@ == start + c@.subrange(0, i as int),
        decreases c@.len() - i,
    {
        buf.push(c[i]);
        i = i + 1;
        assert(buf@ =~= start + c@.subrange(0, i as int));
    }
    assert(c@.subrange(0, i as int) =~= c@);
    assert(start + c@ =~= push_path(old(buf)@, c@));
}

/// Joins a relative or absolute path `c` onto `base`, as `Path::join` does.
pub fn join_path(base: &[char], c: &[char]) -> (r: Vec<char>)
    requires
        base@.len() + c@.len() + 1 <= usize::MAX,
    ensures
        r@ == push_path(base@, c@),
{
    let mut out = slice_to_vec(base);
    push_path_exec(&mut out, c);
    out
}

/// `Path::new(base).join(c)`, on strings.
pub fn join_str(base: &str, c: &str) -> (r: String)
    requires
        base@.len() + c@.len() + 1 <= usize::MAX,
    ensures
        r@ == push_path(base@, c@),
{
    let b = crate::text::chars_of(base);
    let cc = crate::text::chars_of(c);
    let v = join_path(b.as_slice(), cc.as_slice());
    crate::text::string_of(v.as_slice())
}

/// Whether `s` is the one-character sequence `.`.
fn is_dot_exec(s: &[char]) -> (r: bool)
    ensures
        r == (s@ == dot()),
{
    let r = s.len() == 1 && s[0] == '.';
    proof {
        if r {
            assert(s@ =~= dot());
        }
    }
    r
}

/// Whether `s` is `..`.
fn is_dotdot_exec(s: &[char]) -> (r: bool)
    ensures
        r == (s@ == dotdot()),
{
    let r = s.len() == 2 && s[0] == '.' && s[1] == '.';
    proof {
        if r {
            assert(s@ =~= dotdot());
        }
    }
    r
}

/// The components of `p`, as `Path::components` yields them on Unix.
pub fn path_components(p: &[char]) -> (r: Vec<Component>)
    ensures
        comps_view(r@) == components(p@),
{
    let segs = split_on_char(p, '/');
    proof {
        lemma_pieces_nonempty(p@, is_char('/'));
    }
    let mut out: Vec<Component> = Vec::new();
    if p.len() > 0 && p[0] == '/' {
        out.push(Component::RootDir);
    } else if is_dot_exec(segs[0].as_slice()) {
        out.push(Component::CurDir);
    }
    let ghost head = comps_view(out@);
    let mut i: usize = 0;
    while i < segs.len()
        invariant
            i <= segs@.len(),
            texts(segs@) == pieces(p@, is_char('/')),
            comps_view(out@) == head + body_comps(texts(segs@).take(i as int)),
        decreases segs@.len() - i,
    {
        let s = segs[i].as_slice();
        let ghost before = comps_view(out@);
        proof {
            assert(texts(segs@).take(i + 1).drop_last() =~= texts(segs@).take(i as int));
            assert(texts(segs@).take(i + 1).last() == s@);
        }
        if s.len() == 0 || is_dot_exec(s) {
        } else if is_dotdot_exec(s) {
            out.push(Component::ParentDir);
            proof {
                assert(comps_view(out@) =~= before.push(PathComp::Parent));
            }
        } else {
            out.push(Component::Normal(slice_to_vec(s)));
            proof {
                assert(comps_view(out@) =~= before.push(PathComp::Normal(s@)));
            }
        }
        i = i + 1;
    }
    proof {
        assert(texts(segs@).take(i as int) =~= texts(segs@));
    }
    out
}

/// The characters that joining the names among `cs` can add to a path: each
/// name and one separator.
pub open spec fn comps_size(cs: Seq<PathComp>) -> nat
    decreases cs.len(),
{
    if cs.len() == 0 {
        0
    } else {
        comps_size(cs.drop_last()) + match cs.last() {
            PathComp::Normal(n) => n.len() + 1,
            _ => 0,
        }
    }
}

/// Each piece with one separator.
pub open spec fn pieces_size(ps: Seq<Seq<char>>) -> nat
    decreases ps.len(),
{
    if ps.len() == 0 {
        0
    } else {
        pieces_size(ps.drop_last()) + ps.last().len() + 1
    }
}

proof fn lemma_pieces_size(s: Seq<char>)
    ensures
        pieces_size(pieces(s, is_char('/'))) == s.len() + 1,
    decreases s.len(),
{
    lemma_pieces_nonempty(s, is_char('/'));
    if s.len() == 0 {
        let one = seq![Seq::<char>::empty()];
        assert(one.drop_last() =~= Seq::<Seq<char>>::empty());
        assert(one.last().len() == 0);
        assert(pieces_size(Seq::<Seq<char>>::empty()) == 0);
        assert(pieces_size(one) == pieces_size(one.drop_last()) + one.last().len() + 1);
    } else {
        assert(is_char('/')(s.last()) == (s.last() == '/'));
        lemma_pieces_size(s.drop_last());
        let prev = pieces(s.drop_last(), is_char('/'));
        lemma_pieces_nonempty(s.drop_last(), is_char('/'));
        if s.last() != '/' {
            let next = prev.update(prev.len() - 1, prev.last().push(s.last()));
            assert(next.drop_last() =~= prev.drop_last());
            assert(pieces_size(prev) == pieces_size(prev.drop_last()) + prev.last().len() + 1);
            assert(pieces_size(next) == pieces_size(next.drop_last()) + next.last().len() + 1);
            assert(pieces(s, is_char('/')) == next);
        } else {
            let next = prev.push(Seq::<char>::empty());
            assert(next.drop_last() =~= prev);
            assert(pieces_size(next) == pieces_size(prev) + 1);
            assert(pieces(s, is_char('/')) == next);
        }
    }
}

proof fn lemma_body_comps_size(segs: Seq<Seq<char>>)
    ensures
        comps_size(body_comps(segs)) <= pieces_size(segs),
    decreases segs.len(),
{
    if segs.len() > 0 {
        lemma_body_comps_size(segs.drop_last());
        let prev = body_comps(segs.drop_last());
        assert(prev.push(PathComp::Parent).drop_last() =~= prev);
        assert(prev.push(PathComp::Normal(segs.last())).drop_last() =~= prev);
    }
}

/// Joining the components of `p` adds at most `p.len() + 1` characters.
pub proof fn lemma_components_size(p: Seq<char>)
    ensures
        comps_size(components(p)) <= p.len() + 1,
{
    let segs = pieces(p, is_char('/'));
    lemma_pieces_size(p);
    lemma_body_comps_size(segs);
    let head = if p.len() > 0 && p[0] == '/' {
        seq![PathComp::Root]
    } else if segs[0] == dot() {
        seq![PathComp::Cur]
    } else {
        Seq::<PathComp>::empty()
    };
    lemma_comps_size_concat(head, body_comps(segs));
    if head.len() == 1 {
        assert(head.drop_last().len() == 0);
        assert(comps_size(head) == comps_size(head.drop_last()));
    }
    assert(components(p) == head + body_comps(segs));
}

proof fn lemma_comps_size_concat(a: Seq<PathComp>, b: Seq<PathComp>)
    ensures
        comps_size(a + b) == comps_size(a) + comps_size(b),
    decreases b.len(),
{
    if b.len() > 0 {
        lemma_comps_size_concat(a, b.drop_last());
        assert((a + b).drop_last() =~= a + b.drop_last());
    } else {
        assert(a + b =~= a);
    }
}

/// Joins `cs` onto `base` as a tar path is joined onto a root that it must
/// not leave: names are pushed, `.` is skipped, and a root or `..` component
/// refuses the whole path.
pub open spec fn join_comps(base: Seq<char>, cs: Seq<PathComp>) -> Option<Seq<char>>
    decreases cs.len(),
{
    if cs.len() == 0 {
        Some(base)
    } else {
        match join_comps(base, cs.drop_last()) {
            None => None,
            Some(b) => match cs.last() {
                PathComp::Normal(n) => Some(push_path(b, n)),
                PathComp::Cur => Some(b),
                _ => None,
            },
        }
    }
}

/// Executable [`join_comps`].
pub fn join_components(base: &[char], cs: &[Component]) -> (r: Option<Vec<char>>)
    requires
        base@.len() + comps_size(comps_view(cs@)) <= usize::MAX,
    ensures
        match r {
            Some(v) => join_comps(base@, comps_view(cs@)) == Some(v@) && v@.len() <= base@.len()
                + comps_size(comps_view(cs@)),
            None => join_comps(base@, comps_view(cs@)) is None,
        },
{
    let mut out = slice_to_vec(base);
    let mut i: usize = 0;
    while i < cs.len()
        invariant
            i <= cs@.len(),
            base@.len() + comps_size(comps_view(cs@)) <= usize::MAX,
            out@.len() <= base@.len() + comps_size(comps_view(cs@).take(i as int)),
            join_comps(base@, comps_view(cs@).take(i as int)) == Some(out@),
        decreases cs@.len() - i,
    {
        let ghost pre = comps_view(cs@).take(i as int);
        let ghost next = comps_view(cs@).take(i + 1);
        proof {
            assert(next.drop_last() =~= pre);
            assert(next.last() == cs@[i as int]@);
            lemma_comps_size_prefix(comps_view(cs@), i + 1);
        }
        match &cs[i] {
            Component::Normal(n) => {
                push_path_exec(&mut out, n.as_slice());
            },
            Component::CurDir => {},
            _ => {
                proof {
                    lemma_join_comps_refused(base@, comps_view(cs@), i as int);
                }
                return None;
            },
        }
        i = i + 1;
    }
    proof {
        assert(comps_view(cs@).take(i as int) =~= comps_view(cs@));
    }
    Some(out)
}

pub proof fn lemma_comps_size_prefix(cs: Seq<PathComp>, k: int)
    requires
        0 <= k <= cs.len(),
    ensures
        comps_size(cs.take(k)) <= comps_size(cs),
    decreases cs.len(),
{
    if k < cs.len() {
        lemma_comps_size_prefix(cs.drop_last(), k);
        assert(cs.drop_last().take(k) =~= cs.take(k));
    } else {
        assert(cs.take(k) =~= cs);
    }
}

/// Once a prefix of `cs` is refused, so is all of `cs`.
proof fn lemma_join_comps_refused(base: Seq<char>, cs: Seq<PathComp>, k: int)
    requires
        0 <= k < cs.len(),
        join_comps(base, cs.take(k + 1)) is None,
    ensures
        join_comps(base, cs) is None,
    decreases cs.len(),
{
    if k + 1 < cs.len() {
        assert(cs.drop_last().take(k + 1) =~= cs.take(k + 1));
        lemma_join_comps_refused(base, cs.drop_last(), k);
    } else {
        assert(cs.take(k + 1) =~= cs);
    }
}

/// Whether `a` and `b` hold the same characters.
pub fn chars_eq(a: &[char], b: &[char]) -> (r: bool)
    ensures
        r == (a@ == b@),
{
    if a.len() != b.len() {
        return false;
    }
    let mut i: usize = 0;
    while i < a.len()
        invariant
            i <= a@.len(),
            a@.len() == b@.len(),
            a@.subrange(0, i as int) == b@.subrange(0, i as int),
        decreases a@.len() - i,
    {
        if a[i] != b[i] {
            assert(a@[i as int] != b@[i as int]);
            return false;
        }
        i = i + 1;
        assert(a@.subrange(0, i as int) =~= a@.subrange(0, i - 1).push(a@[i - 1]));
        assert(b@.subrange(0, i as int) =~= b@.subrange(0, i - 1).push(b@[i - 1]));
    }
    assert(a@.subrange(0, i as int) =~= a@);
    assert(b@.subrange(0, i as int) =~= b@);
    true
}

/// Whether `a` begins with `prefix`.
pub fn chars_start_with(a: &[char], prefix: &[char]) -> (r: bool)
    ensures
        r == (a@.len() >= prefix@.len() && a@.take(prefix@.len() as int) == prefix@),
{
    if a.len() < prefix.len() {
        return false;
    }
    let head = vstd::slice::slice_subrange(a, 0, prefix.len());
    chars_eq(head, prefix)
}

/// Whether two components are the same.
pub fn component_eq(a: &Component, b: &Component) -> (r: bool)
    ensures
        r == (a@ == b@),
{
    match (a, b) {
        (Component::RootDir, Component::RootDir) => true,
        (Component::CurDir, Component::CurDir) => true,
        (Component::ParentDir, Component::ParentDir) => true,
        (Component::Normal(x), Component::Normal(y)) => chars_eq(x.as_slice(), y.as_slice()),
        _ => false,
    }
}

/// `Path::starts_with`: whether the components of `base` begin those of `p`.
pub open spec fn path_starts_with(p: Seq<char>, base: Seq<char>) -> bool {
    let pc = components(p);
    let bc = components(base);
    bc.len() <= pc.len() && pc.take(bc.len() as int) == bc
}

/// Executable [`path_starts_with`].
pub fn components_start_with(pc: &[Component], bc: &[Component]) -> (r: bool)
    ensures
        r == (bc@.len() <= pc@.len() && comps_view(pc@).take(bc@.len() as int) == comps_view(
            bc@,
        )),
{
    if bc.len() > pc.len() {
        return false;
    }
    let mut i: usize = 0;
    while i < bc.len()
        invariant
            i <= bc@.len(),
            bc@.len() <= pc@.len(),
            comps_view(pc@).take(i as int) == comps_view(bc@).take(i as int),
        decreases bc@.len() - i,
    {
        if !component_eq(&pc[i], &bc[i]) {
            assert(comps_view(pc@).take(bc@.len() as int)[i as int] != comps_view(bc@)[i as int]);
            return false;
        }
        i = i + 1;
        assert(comps_view(pc@).take(i as int) =~= comps_view(pc@).take(i - 1).push(pc@[i - 1]@));
        assert(comps_view(bc@).take(i as int) =~= comps_view(bc@).take(i - 1).push(bc@[i - 1]@));
    }
    assert(comps_view(bc@).take(i as int) =~= comps_view(bc@));
    true
}

/// A name that a path can hold as one `Normal` component.
pub open spec fn is_plain_name(n: Seq<char>) -> bool {
    &&& n.len() > 0
    &&& n != dot()
    &&& n != dotdot()
    &&& forall|i: int| 0 <= i < n.len() ==> n[i] != '/'
}

/// Appending separator-free text to `a` extends its last piece.
proof fn lemma_pieces_extend(a: Seq<char>, c: Seq<char>)
    requires
        forall|i: int| 0 <= i < c.len() ==> c[i] != '/',
    ensures
        pieces(a + c, is_char('/')) == pieces(a, is_char('/')).update(
            pieces(a, is_char('/')).len() - 1,
            pieces(a, is_char('/')).last() + c,
        ),
    decreases c.len(),
{
    lemma_pieces_nonempty(a, is_char('/'));
    let pa = pieces(a, is_char('/'));
    if c.len() == 0 {
        assert(a + c =~= a);
        assert(pa.last() + c =~= pa.last());
        assert(pa.update(pa.len() - 1, pa.last()) =~= pa);
    } else {
        let c0 = c.drop_last();
        lemma_pieces_extend(a, c0);
        assert((a + c).drop_last() =~= a + c0);
        assert((a + c).last() == c.last());
        assert(is_char('/')(c.last()) == false);
        let prev = pa.update(pa.len() - 1, pa.last() + c0);
        assert(prev.last() == pa.last() + c0);
        assert(prev.last().push(c.last()) =~= pa.last() + c);
        assert(prev.update(prev.len() - 1, prev.last().push(c.last())) =~= pa.update(
            pa.len() - 1,
            pa.last() + c,
        ));
    }
}

/// The pieces of `s` hold no separator.
pub proof fn lemma_pieces_have_no_sep(s: Seq<char>, k: int)
    requires
        0 <= k < pieces(s, is_char('/')).len(),
    ensures
        forall|i: int|
            0 <= i < pieces(s, is_char('/'))[k].len() ==> pieces(s, is_char('/'))[k][i] != '/',
    decreases s.len(),
{
    lemma_pieces_nonempty(s, is_char('/'));
    if s.len() > 0 {
        let prev = pieces(s.drop_last(), is_char('/'));
        lemma_pieces_nonempty(s.drop_last(), is_char('/'));
        assert(is_char('/')(s.last()) == (s.last() == '/'));
        if k < prev.len() {
            lemma_pieces_have_no_sep(s.drop_last(), k);
        }
        if s.last() != '/' && k == prev.len() - 1 {
            let w = prev.last().push(s.last());
            assert forall|i: int| 0 <= i < w.len() implies w[i] != '/' by {
                if i < prev.last().len() {
                    lemma_pieces_have_no_sep(s.drop_last(), k);
                }
            }
        }
    }
}

/// Every name among the components of a path is a plain name.
pub proof fn lemma_components_plain(p: Seq<char>)
    ensures
        forall|i: int|
            0 <= i < components(p).len() && (#[trigger] components(p)[i]) is Normal
                ==> is_plain_name(components(p)[i]->Normal_0),
{
    let segs = pieces(p, is_char('/'));
    lemma_pieces_nonempty(p, is_char('/'));
    assert forall|k: int| 0 <= k < segs.len() implies forall|i: int|
        0 <= i < #[trigger] segs[k].len() ==> segs[k][i] != '/' by {
        lemma_pieces_have_no_sep(p, k);
    }
    lemma_body_comps_plain(segs);
    let head = if p.len() > 0 && p[0] == '/' {
        seq![PathComp::Root]
    } else if segs[0] == dot() {
        seq![PathComp::Cur]
    } else {
        Seq::<PathComp>::empty()
    };
    assert(components(p) == head + body_comps(segs));
}

proof fn lemma_body_comps_plain(segs: Seq<Seq<char>>)
    requires
        forall|k: int|
            0 <= k < segs.len() ==> forall|i: int|
                0 <= i < #[trigger] segs[k].len() ==> segs[k][i] != '/',
    ensures
        forall|i: int|
            0 <= i < body_comps(segs).len() && (#[trigger] body_comps(segs)[i]) is Normal
                ==> is_plain_name(body_comps(segs)[i]->Normal_0),
    decreases segs.len(),
{
    if segs.len() > 0 {
        lemma_body_comps_plain(segs.drop_last());
        assert(segs.last() == segs[segs.len() - 1]);
    }
}

/// Pushing a plain name onto a path adds exactly that name to its
/// components.
pub proof fn lemma_push_plain_name(b: Seq<char>, n: Seq<char>)
    requires
        is_plain_name(n),
    ensures
        components(push_path(b, n)) == components(b).push(PathComp::Normal(n)),
{
    let r = push_path(b, n);
    let pb = pieces(b, is_char('/'));
    lemma_pieces_nonempty(b, is_char('/'));
    if b.len() == 0 {
        assert(r =~= n);
        assert(pieces(Seq::<char>::empty(), is_char('/')) == seq![Seq::<char>::empty()]);
        lemma_pieces_extend(Seq::<char>::empty(), n);
        assert(pieces(n, is_char('/')) =~= seq![n]);
        assert(seq![n].drop_last() =~= Seq::<Seq<char>>::empty());
        assert(seq![Seq::<char>::empty()].drop_last() =~= Seq::<Seq<char>>::empty());
        assert(seq![n].last() == n);
        assert(body_comps(Seq::<Seq<char>>::empty()) =~= Seq::<PathComp>::empty());
        assert(body_comps(seq![n]) == body_comps(Seq::<Seq<char>>::empty()).push(
            PathComp::Normal(n),
        ));
        assert(body_comps(seq![n]) =~= seq![PathComp::Normal(n)]);
        assert(n[0] != '/');
        assert(components(r) =~= seq![PathComp::Normal(n)]);
        assert(components(b) =~= Seq::<PathComp>::empty());
    } else if b.last() == '/' {
        assert(r == b + n);
        lemma_pieces_extend(b, n);
        // b ends with a separator, so its last piece is empty
        assert(b.drop_last() + seq!['/'] =~= b);
        assert(is_char('/')(b.last()));
        let pbd = pieces(b.drop_last(), is_char('/'));
        assert(pb == pbd.push(Seq::<char>::empty()));
        let pr = pieces(r, is_char('/'));
        assert(pr =~= pbd.push(n));
        assert(pr.drop_last() =~= pbd);
        assert(pb.drop_last() =~= pbd);
        assert(body_comps(pb) == body_comps(pbd));
        assert(body_comps(pr) == body_comps(pbd).push(PathComp::Normal(n)));
        lemma_pieces_nonempty(b.drop_last(), is_char('/'));
        assert(pr[0] == pb[0]);
        assert(r[0] == b[0]);
        assert(components(r) =~= components(b).push(PathComp::Normal(n)));
    } else {
        let bs = b.push('/');
        assert(r == bs + n);
        lemma_pieces_extend(bs, n);
        assert(bs.drop_last() =~= b);
        assert(is_char('/')(bs.last()));
        let pbs = pieces(bs, is_char('/'));
        assert(pbs == pb.push(Seq::<char>::empty()));
        let pr = pieces(r, is_char('/'));
        assert(pr =~= pb.push(n));
        assert(pr.drop_last() =~= pb);
        assert(body_comps(pr) == body_comps(pb).push(PathComp::Normal(n)));
        assert(pr[0] == pb[0]);
        assert(r[0] == b[0]);
        assert(components(r) =~= components(b).push(PathComp::Normal(n)));
    }
}

/// What joining `cs` onto a base adds to the base's components: only names,
/// and only plain ones.
pub proof fn lemma_join_comps_adds_names(base: Seq<char>, cs: Seq<PathComp>)
    requires
        forall|i: int|
            0 <= i < cs.len() && (#[trigger] cs[i]) is Normal ==> is_plain_name(cs[i]->Normal_0),
    ensures
        join_comps(base, cs) matches Some(r) ==> {
            let bc = components(base);
            let rc = components(r);
            &&& bc.len() <= rc.len()
            &&& rc.take(bc.len() as int) == bc
            &&& forall|i: int|
                bc.len() <= i < rc.len() ==> (#[trigger] rc[i]) is Normal && is_plain_name(
                    rc[i]->Normal_0,
                )
        },
    decreases cs.len(),
{
    if cs.len() > 0 {
        let cs0 = cs.drop_last();
        assert forall|i: int| 0 <= i < cs0.len() && (#[trigger] cs0[i]) is Normal implies is_plain_name(
            cs0[i]->Normal_0,
        ) by {
            assert(cs0[i] == cs[i]);
        }
        lemma_join_comps_adds_names(base, cs0);
        match join_comps(base, cs0) {
            Some(b) => {
                match cs.last() {
                    PathComp::Normal(n) => {
                        assert(cs.last() == cs[cs.len() - 1]);
                        lemma_push_plain_name(b, n);
                        let bc = components(base);
                        let prev = components(b);
                        let rc = components(push_path(b, n));
                        assert(rc == prev.push(PathComp::Normal(n)));
                        assert(rc.take(bc.len() as int) =~= prev.take(bc.len() as int));
                        assert forall|i: int| bc.len() <= i < rc.len() implies (#[trigger] rc[i]) is Normal
                            && is_plain_name(rc[i]->Normal_0) by {
                            if i < prev.len() {
                                assert(rc[i] == prev[i]);
                            }
                        }
                    },
                    _ => {},
                }
            },
            None => {},
        }
    } else {
        let bc = components(base);
        assert(bc.take(bc.len() as int) =~= bc);
    }
}

} // verus!
