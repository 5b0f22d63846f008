//! Unix paths read the way `std::path` reads them: components, parents,
//! file names and joins, and the allowlist that keeps file access inside
//! configured roots.

use crate::text::{
    append_chars, chars_eq, chars_of, copy_range, join, join_chars, split_chars, split_from, split_on,
    string_from_chars, views,
};
use vstd::prelude::*;

verus! {

/// A path component, as `std::path::Component` names them on Unix.
pub enum Comp {
    Root,
    Cur,
    Parent,
    Normal(Seq<char>),
}

/// A path component with its text held in a vector.
pub enum PathComponent {
    RootDir,
    CurDir,
    ParentDir,
    Normal(Vec<char>),
}

impl PathComponent {
    /// The component this one stands for.
    pub open spec fn comp(&self) -> Comp {
        match self {
            PathComponent::RootDir => Comp::Root,
            PathComponent::CurDir => Comp::Cur,
            PathComponent::ParentDir => Comp::Parent,
            PathComponent::Normal(v) => Comp::Normal(v@),
        }
    }
}

/// The components a vector of them stands for.
pub open spec fn comps_of(v: Seq<PathComponent>) -> Seq<Comp> {
    v.map_values(|c: PathComponent| c.comp())
}

/// Whether the path begins at the root.
pub open spec fn has_root(p: Seq<char>) -> bool {
    p.len() > 0 && p[0] == '/'
}

/// Whether a relative path begins with a `.` component, which
/// `Path::components` keeps as `CurDir`.
pub open spec fn leading_cur_dir(p: Seq<char>) -> bool {
    !has_root(p) && p.len() > 0 && p[0] == '.' && (p.len() == 1 || p[1] == '/')
}

/// Where the body of a path starts, after a root or a leading `.`.
pub open spec fn body_start(p: Seq<char>) -> int {
    if has_root(p) || leading_cur_dir(p) {
        1
    } else {
        0
    }
}

/// The body of a path split at each `/`.
pub open spec fn body_pieces(p: Seq<char>) -> Seq<Seq<char>> {
    split_on(p.subrange(body_start(p), p.len() as int), '/')
}

/// The component a body piece stands for: none for an empty piece or `.`.
pub open spec fn piece_comp(piece: Seq<char>) -> Option<Comp> {
    if piece.len() == 0 || piece == seq!['.'] {
        None
    } else if piece == seq!['.', '.'] {
        Some(Comp::Parent)
    } else {
        Some(Comp::Normal(piece))
    }
}

/// The components of the given body pieces, in order.
pub open spec fn pieces_comps(pieces: Seq<Seq<char>>) -> Seq<Comp>
    decreases pieces.len(),
{
    if pieces.len() == 0 {
        Seq::empty()
    } else {
        match piece_comp(pieces.last()) {
            Some(c) => pieces_comps(pieces.drop_last()).push(c),
            None => pieces_comps(pieces.drop_last()),
        }
    }
}

/// `Path::components` on Unix.
pub open spec fn components(p: Seq<char>) -> Seq<Comp> {
    (if has_root(p) {
        seq![Comp::Root]
    } else if leading_cur_dir(p) {
        seq![Comp::Cur]
    } else {
        Seq::empty()
    }) + pieces_comps(body_pieces(p))
}

/// The component for one body piece.
fn component_of_piece(piece: &Vec<char>) -> (r: Option<PathComponent>)
    ensures
        match r {
            Some(c) => piece_comp(piece@) == Some(c.comp()),
            None => piece_comp(piece@) is None,
        },
{
    let n: usize = piece.len();
    if n == 0 {
        None
    } else if n == 1 && piece[0] == '.' {
        assert(piece@ =~= seq!['.']);
        None
    } else if n == 2 && piece[0] == '.' && piece[1] == '.' {
        assert(piece@ =~= seq!['.', '.']);
        Some(PathComponent::ParentDir)
    } else {
        assert(piece@ != seq!['.']);
        assert(piece@ != seq!['.', '.']);
        let copy = copy_range(piece.as_slice(), 0, n);
        assert(piece@.subrange(0, n as int) =~= piece@);
        Some(PathComponent::Normal(copy))
    }
}

/// The components of a path, as `Path::components` yields them on Unix.
pub fn path_components(p: &[char]) -> (cs: Vec<PathComponent>)
    ensures
        comps_of(cs@) == components(p@),
{
    let n: usize = p.len();
    let rooted = n > 0 && p[0] == '/';
    let cur = !rooted && n > 0 && p[0] == '.' && (n == 1 || p[1] == '/');
    let mut cs: Vec<PathComponent> = Vec::new();
    let start: usize = if rooted {
        cs.push(PathComponent::RootDir);
        1
    } else if cur {
        cs.push(PathComponent::CurDir);
        1
    } else {
        0
    };
    let ghost head = comps_of(cs@);
    assert(head =~= if has_root(p@) {
        seq![Comp::Root]
    } else if leading_cur_dir(p@) {
        seq![Comp::Cur]
    } else {
        Seq::<Comp>::empty()
    });
    let body = copy_range(p, start, n);
    let pieces = split_chars(body.as_slice(), '/');
    let ghost ps = views(pieces@);
    assert(ps == body_pieces(p@));
    let mut i: usize = 0;
    assert(ps.subrange(0, 0) =~= Seq::<Seq<char>>::empty());
    while i < pieces.len()
        invariant
            ps == views(pieces@),
            i <= pieces@.len(),
            comps_of(cs@) == head + pieces_comps(ps.subrange(0, i as int)),
        decreases pieces@.len() - i,
    {
        let ghost pre = ps.subrange(0, i + 1);
        assert(pre.drop_last() =~= ps.subrange(0, i as int));
        assert(pre.last() == pieces[i as int]@);
        let ghost before = comps_of(cs@);
        match component_of_piece(&pieces[i]) {
            Some(c) => {
                cs.push(c);
                assert(comps_of(cs@) =~= before.push(c.comp()));
            },
            None => {},
        }
        i += 1;
    }
    assert(ps.subrange(0, pieces@.len() as int) =~= ps);
    cs
}

/// The state of a path being rebuilt: whether it is rooted, and its names.
pub open spec fn rebuild(cs: Seq<Comp>, rooted: bool, names: Seq<Seq<char>>) -> (bool, Seq<
    Seq<char>,
>)
    decreases cs.len(),
{
    if cs.len() == 0 {
        (rooted, names)
    } else {
        match cs[0] {
            Comp::Root => rebuild(cs.drop_first(), true, Seq::empty()),
            Comp::Cur => rebuild(cs.drop_first(), rooted, names),
            Comp::Parent => rebuild(
                cs.drop_first(),
                rooted,
                if names.len() > 0 {
                    names.drop_last()
                } else {
                    names
                },
            ),
            Comp::Normal(n) => rebuild(cs.drop_first(), rooted, names.push(n)),
        }
    }
}

/// The text of a rebuilt path: `/` when rooted, then the names joined by `/`.
pub open spec fn render(rooted: bool, names: Seq<Seq<char>>) -> Seq<char> {
    (if rooted {
        seq!['/']
    } else {
        Seq::empty()
    }) + join(names, seq!['/'])
}

/// `p` with `.` dropped and each `..` removing the name before it (never
/// above the root), written back as a path; a path that rebuilds to nothing
/// is kept as given.
pub open spec fn canonicalized(p: Seq<char>) -> Seq<char> {
    let r = rebuild(components(p), false, Seq::empty());
    if !r.0 && r.1.len() == 0 {
        p
    } else {
        render(r.0, r.1)
    }
}

/// The components of `canonicalized(p)`.
pub open spec fn canonical_components(p: Seq<char>) -> Seq<Comp> {
    let r = rebuild(components(p), false, Seq::empty());
    if !r.0 && r.1.len() == 0 {
        components(p)
    } else {
        (if r.0 {
            seq![Comp::Root]
        } else {
            Seq::empty()
        }) + r.1.map_values(|n: Seq<char>| Comp::Normal(n))
    }
}

/// Whether `path`, by components, lies inside `root`: `root` is a prefix of
/// it and no `..` follows that prefix.
pub open spec fn within(path: Seq<Comp>, root: Seq<Comp>) -> bool {
    &&& root.len() <= path.len()
    &&& path.subrange(0, root.len() as int) == root
    &&& forall|i: int| root.len() <= i < path.len() ==> path[i] != Comp::Parent
}

/// Rebuilds the names of a path from its components.
fn rebuild_names(cs: &Vec<PathComponent>) -> (r: (bool, Vec<Vec<char>>))
    ensures
        (r.0, views(r.1@)) == rebuild(comps_of(cs@), false, Seq::empty()),
{
    let ghost all = comps_of(cs@);
    let mut rooted = false;
    let mut names: Vec<Vec<char>> = Vec::new();
    let mut i: usize = 0;
    assert(all.subrange(0, all.len() as int) =~= all);
    assert(views(names@) =~= Seq::<Seq<char>>::empty());
    while i < cs.len()
        invariant
            all == comps_of(cs@),
            i <= cs@.len(),
            rebuild(all.subrange(i as int, all.len() as int), rooted, views(names@)) == rebuild(
                all,
                false,
                Seq::empty(),
            ),
        decreases cs@.len() - i,
    {
        let ghost rest = all.subrange(i as int, all.len() as int);
        assert(rest.drop_first() =~= all.subrange(i + 1, all.len() as int));
        assert(rest[0] == cs[i as int].comp());
        let ghost before = views(names@);
        match &cs[i] {
            PathComponent::RootDir => {
                rooted = true;
                names = Vec::new();
                assert(views(names@) =~= Seq::<Seq<char>>::empty());
            },
            PathComponent::CurDir => {},
            PathComponent::ParentDir => {
                if names.len() > 0 {
                    let _ = names.pop();
                    assert(views(names@) =~= before.drop_last());
                }
            },
            PathComponent::Normal(v) => {
                let copy = copy_range(v.as_slice(), 0, v.len());
                assert(v@.subrange(0, v@.len() as int) =~= v@);
                names.push(copy);
                assert(views(names@) =~= before.push(v@));
            },
        }
        i += 1;
    }
    assert(all.subrange(cs@.len() as int, all.len() as int) =~= Seq::<Comp>::empty());
    (rooted, names)
}

/// The text of a rebuilt path.
fn render_names(rooted: bool, names: &Vec<Vec<char>>) -> (out: Vec<char>)
    ensures
        out@ == render(rooted, views(names@)),
{
    let mut out: Vec<char> = Vec::new();
    if rooted {
        out.push('/');
    }
    let ghost head = out@;
    let sep = vec!['/'];
    assert(sep@ =~= seq!['/']);
    let body = join_chars(names, sep.as_slice());
    append_chars(&mut out, body.as_slice());
    assert(head =~= if rooted {
        seq!['/']
    } else {
        Seq::<char>::empty()
    });
    out
}

/// `p` rebuilt as `canonicalized` describes.
pub fn canonicalize_chars(p: &[char]) -> (out: Vec<char>)
    ensures
        out@ == canonicalized(p@),
{
    let cs = path_components(p);
    let (rooted, names) = rebuild_names(&cs);
    if !rooted && names.len() == 0 {
        copy_range(p, 0, p.len())
    } else {
        render_names(rooted, &names)
    }
}

/// The components of `canonicalized(p)`.
pub fn canonical_components_of(p: &[char]) -> (cs: Vec<PathComponent>)
    ensures
        comps_of(cs@) == canonical_components(p@),
{
    let comps = path_components(p);
    let (rooted, names) = rebuild_names(&comps);
    if !rooted && names.len() == 0 {
        return comps;
    }
    let mut cs: Vec<PathComponent> = Vec::new();
    if rooted {
        cs.push(PathComponent::RootDir);
    }
    let ghost head = comps_of(cs@);
    let mut i: usize = 0;
    while i < names.len()
        invariant
            i <= names@.len(),
            comps_of(cs@) == head + views(names@).subrange(0, i as int).map_values(
                |n: Seq<char>| Comp::Normal(n),
            ),
        decreases names@.len() - i,
    {
        let ghost before = comps_of(cs@);
        let copy = copy_range(names[i].as_slice(), 0, names[i].len());
        assert(names[i as int]@.subrange(0, names[i as int]@.len() as int) =~= names[i as int]@);
        cs.push(PathComponent::Normal(copy));
        assert(comps_of(cs@) =~= before.push(Comp::Normal(names[i as int]@)));
        assert(views(names@).subrange(0, i + 1).map_values(|n: Seq<char>| Comp::Normal(n))
            =~= views(names@).subrange(0, i as int).map_values(|n: Seq<char>| Comp::Normal(n)).push(
            Comp::Normal(names[i as int]@),
        ));
        i += 1;
    }
    assert(views(names@).subrange(0, names@.len() as int) =~= views(names@));
    assert(head =~= if rooted {
        seq![Comp::Root]
    } else {
        Seq::<Comp>::empty()
    });
    cs
}

/// Whether two components are the same.
fn comp_eq(a: &PathComponent, b: &PathComponent) -> (r: bool)
    ensures
        r == (a.comp() == b.comp()),
{
    match (a, b) {
        (PathComponent::RootDir, PathComponent::RootDir) => true,
        (PathComponent::CurDir, PathComponent::CurDir) => true,
        (PathComponent::ParentDir, PathComponent::ParentDir) => true,
        (PathComponent::Normal(x), PathComponent::Normal(y)) => chars_eq(x.as_slice(), y.as_slice()),
        _ => false,
    }
}

/// Whether the components `path` lie within the components `root`.
pub fn comps_within(path: &Vec<PathComponent>, root: &Vec<PathComponent>) -> (r: bool)
    ensures
        r == within(comps_of(path@), comps_of(root@)),
{
    let ghost p = comps_of(path@);
    let ghost q = comps_of(root@);
    if root.len() > path.len() {
        return false;
    }
    let mut i: usize = 0;
    while i < root.len()
        invariant
            p == comps_of(path@),
            q == comps_of(root@),
            root@.len() <= path@.len(),
            i <= root@.len(),
            forall|j: int| 0 <= j < i ==> p[j] == q[j],
        decreases root@.len() - i,
    {
        if !comp_eq(&path[i], &root[i]) {
            assert(p.subrange(0, q.len() as int)[i as int] != q[i as int]);
            return false;
        }
        i += 1;
    }
    assert(p.subrange(0, q.len() as int) =~= q);
    let mut k: usize = root.len();
    while k < path.len()
        invariant
            p == comps_of(path@),
            q == comps_of(root@),
            root@.len() <= k <= path@.len(),
            p.subrange(0, q.len() as int) == q,
            forall|j: int| root@.len() <= j < k ==> p[j] != Comp::Parent,
        decreases path@.len() - k,
    {
        match &path[k] {
            PathComponent::ParentDir => {
                assert(p[k as int] == Comp::Parent);
                return false;
            },
            _ => {},
        }
        k += 1;
    }
    true
}

/// Whether some root's components contain the given components.
pub open spec fn within_some(path: Seq<Comp>, roots: Seq<Seq<Comp>>) -> bool {
    exists|i: int| 0 <= i < roots.len() && within(path, #[trigger] roots[i])
}

/// The paths a user may reach through the file API.
pub struct FileAllowlist {
    pub allowed_paths: Vec<String>,
}

/// The canonical components of each allowed path.
pub open spec fn canonical_roots(paths: Seq<String>) -> Seq<Seq<Comp>> {
    paths.map_values(|s: String| canonical_components(s@))
}

/// The components of each root.
pub open spec fn plain_roots(paths: Seq<String>) -> Seq<Seq<Comp>> {
    paths.map_values(|s: String| components(s@))
}

impl FileAllowlist {
    /// Whether `path`, rebuilt with `.` and `..` resolved, lies inside one
    /// of the allowed paths rebuilt the same way.
    pub fn is_allowed(&self, path: &str) -> (b: bool)
        ensures
            b == within_some(
                canonical_components(path@),
                canonical_roots(self.allowed_paths@),
            ),
    {
        let pc = chars_of(path);
        let candidate = canonical_components_of(pc.as_slice());
        let ghost roots = canonical_roots(self.allowed_paths@);
        let mut i: usize = 0;
        while i < self.allowed_paths.len()
            invariant
                roots == canonical_roots(self.allowed_paths@),
                comps_of(candidate@) == canonical_components(path@),
                i <= self.allowed_paths@.len(),
                forall|j: int| 0 <= j < i ==> !within(comps_of(candidate@), #[trigger] roots[j]),
            decreases self.allowed_paths@.len() - i,
        {
            let ac = chars_of(self.allowed_paths[i].as_str());
            let allowed = canonical_components_of(ac.as_slice());
            if comps_within(&candidate, &allowed) {
                assert(within(comps_of(candidate@), roots[i as int]));
                return true;
            }
            i += 1;
        }
        false
    }
}

/// Whether `path` lies, by components, inside one of `roots`.
pub fn is_within_allowed_roots(path: &str, roots: &[String]) -> (b: bool)
    ensures
        b == within_some(components(path@), plain_roots(roots@)),
{
    let pc = chars_of(path);
    let candidate = path_components(pc.as_slice());
    let ghost rs = plain_roots(roots@);
    let mut i: usize = 0;
    while i < roots.len()
        invariant
            rs == plain_roots(roots@),
            comps_of(candidate@) == components(path@),
            i <= roots@.len(),
            forall|j: int| 0 <= j < i ==> !within(comps_of(candidate@), #[trigger] rs[j]),
        decreases roots@.len() - i,
    {
        let rc = chars_of(roots[i].as_str());
        let root = path_components(rc.as_slice());
        if comps_within(&candidate, &root) {
            assert(within(comps_of(candidate@), rs[i as int]));
            return true;
        }
        i += 1;
    }
    false
}

/// Whether `path` names, by components, one of `roots` itself.
pub fn is_allowed_root(path: &str, roots: &[String]) -> (b: bool)
    ensures
        b == exists|i: int| 0 <= i < roots@.len() && components(path@) == components(
            #[trigger] roots@[i]@,
        ),
{
    let pc = chars_of(path);
    let candidate = path_components(pc.as_slice());
    let mut i: usize = 0;
    while i < roots.len()
        invariant
            comps_of(candidate@) == components(path@),
            i <= roots@.len(),
            forall|j: int| 0 <= j < i ==> components(path@) != components(#[trigger] roots@[j]@),
        decreases roots@.len() - i,
    {
        let rc = chars_of(roots[i].as_str());
        let root = path_components(rc.as_slice());
        if comps_len_eq(&candidate, &root) {
            return true;
        }
        i += 1;
    }
    false
}

/// Whether two component lists are equal.
fn comps_len_eq(a: &Vec<PathComponent>, b: &Vec<PathComponent>) -> (r: bool)
    ensures
        r == (comps_of(a@) == comps_of(b@)),
{
    if a.len() != b.len() {
        assert(comps_of(a@).len() != comps_of(b@).len());
        return false;
    }
    let mut i: usize = 0;
    while i < a.len()
        invariant
            a@.len() == b@.len(),
            i <= a@.len(),
            forall|j: int| 0 <= j < i ==> comps_of(a@)[j] == comps_of(b@)[j],
        decreases a@.len() - i,
    {
        if !comp_eq(&a[i], &b[i]) {
            assert(comps_of(a@)[i as int] != comps_of(b@)[i as int]);
            return false;
        }
        i += 1;
    }
    assert(comps_of(a@) =~= comps_of(b@));
    true
}


/// Whether a body piece stands for a component.
pub open spec fn is_real(piece: Seq<char>) -> bool {
    piece_comp(piece) is Some
}

/// The last position before `k` of a piece that stands for a component.
pub open spec fn last_real_before(pieces: Seq<Seq<char>>, k: int) -> Option<int>
    decreases k,
{
    if k <= 0 {
        None
    } else if is_real(pieces[k - 1]) {
        Some(k - 1)
    } else {
        last_real_before(pieces, k - 1)
    }
}

/// `Path::parent` on Unix: the path up to and including the piece before
/// its last component (the root or a leading `.` kept), or none for a path
/// that is only a root or is empty.
pub open spec fn parent_of(p: Seq<char>) -> Option<Seq<char>> {
    let ps = body_pieces(p);
    match last_real_before(ps, ps.len() as int) {
        Some(j) => Some(
            p.subrange(0, body_start(p)) + match last_real_before(ps, j) {
                Some(m) => join(ps.subrange(0, m + 1), seq!['/']),
                None => Seq::empty(),
            },
        ),
        None => if leading_cur_dir(p) {
            Some(Seq::empty())
        } else {
            None
        },
    }
}

/// The last two pieces that stand for components, scanning up to `k`.
proof fn lemma_last_real_step(pieces: Seq<Seq<char>>, k: int)
    requires
        0 <= k < pieces.len(),
    ensures
        last_real_before(pieces, k + 1) == if is_real(pieces[k]) {
            Some(k)
        } else {
            last_real_before(pieces, k)
        },
{
}

/// The parent of a path, as `Path::parent` gives it.
pub fn parent_chars(p: &[char]) -> (r: Option<Vec<char>>)
    ensures
        match r {
            Some(v) => parent_of(p@) == Some(v@),
            None => parent_of(p@) is None,
        },
{
    let n: usize = p.len();
    let rooted = n > 0 && p[0] == '/';
    let cur = !rooted && n > 0 && p[0] == '.' && (n == 1 || p[1] == '/');
    let start: usize = if rooted || cur {
        1
    } else {
        0
    };
    let body = copy_range(p, start, n);
    let pieces = split_chars(body.as_slice(), '/');
    let ghost ps = views(pieces@);
    assert(ps == body_pieces(p@));
    let mut last: Option<usize> = None;
    let mut prev: Option<usize> = None;
    let mut i: usize = 0;
    while i < pieces.len()
        invariant
            ps == views(pieces@),
            i <= pieces@.len(),
            match last {
                Some(j) => last_real_before(ps, i as int) == Some(j as int) && j < i && match prev {
                    Some(m) => last_real_before(ps, j as int) == Some(m as int) && m < j,
                    None => last_real_before(ps, j as int) is None,
                },
                None => last_real_before(ps, i as int) is None,
            },
        decreases pieces@.len() - i,
    {
        proof {
            lemma_last_real_step(ps, i as int);
        }
        assert(ps[i as int] == pieces[i as int]@);
        let counts = match component_of_piece(&pieces[i]) {
            Some(_) => true,
            None => false,
        };
        if counts {
            prev = last;
            last = Some(i);
        }
        i += 1;
    }
    match last {
        Some(j) => {
            let mut out = copy_range(p, 0, start);
            match prev {
                Some(m) => {
                    let kept = copy_pieces(&pieces, m + 1);
                    let sep = vec!['/'];
                    assert(sep@ =~= seq!['/']);
                    let joined = join_chars(&kept, sep.as_slice());
                    append_chars(&mut out, joined.as_slice());
                },
                None => {
                    assert(out@ + Seq::<char>::empty() =~= out@);
                },
            }
            Some(out)
        },
        None => {
            if cur {
                Some(Vec::new())
            } else {
                None
            }
        },
    }
}

/// The first `k` pieces.
fn copy_pieces(pieces: &Vec<Vec<char>>, k: usize) -> (out: Vec<Vec<char>>)
    requires
        k <= pieces@.len(),
    ensures
        views(out@) == views(pieces@).subrange(0, k as int),
{
    let mut out: Vec<Vec<char>> = Vec::new();
    let mut i: usize = 0;
    while i < k
        invariant
            k <= pieces@.len(),
            i <= k,
            views(out@) == views(pieces@).subrange(0, i as int),
        decreases k - i,
    {
        let ghost before = views(out@);
        let copy = copy_range(pieces[i].as_slice(), 0, pieces[i].len());
        assert(pieces[i as int]@.subrange(0, pieces[i as int]@.len() as int) =~= pieces[i as int]@);
        out.push(copy);
        assert(views(out@) =~= before.push(pieces[i as int]@));
        assert(views(pieces@).subrange(0, i + 1) =~= views(pieces@).subrange(0, i as int).push(
            pieces[i as int]@,
        ));
        i += 1;
    }
    out
}

/// `Path::file_name`: the last component when it is a name.
pub open spec fn file_name_of(p: Seq<char>) -> Option<Seq<char>> {
    let cs = components(p);
    if cs.len() > 0 {
        match cs.last() {
            Comp::Normal(n) => Some(n),
            _ => None,
        }
    } else {
        None
    }
}

/// The last position of `c` in `s`, if any.
pub open spec fn rfind(s: Seq<char>, c: char) -> Option<int>
    decreases s.len(),
{
    if s.len() == 0 {
        None
    } else if s.last() == c {
        Some(s.len() - 1)
    } else {
        rfind(s.drop_last(), c)
    }
}

/// `Path::extension`: what follows the last `.` of the file name, unless
/// that `.` begins the name.
pub open spec fn extension_of(p: Seq<char>) -> Option<Seq<char>> {
    match file_name_of(p) {
        Some(n) => match rfind(n, '.') {
            Some(k) => if k > 0 {
                Some(n.subrange(k + 1, n.len() as int))
            } else {
                None
            },
            None => None,
        },
        None => None,
    }
}

/// The file name of a path.
pub fn file_name_chars(p: &[char]) -> (r: Option<Vec<char>>)
    ensures
        match r {
            Some(v) => file_name_of(p@) == Some(v@),
            None => file_name_of(p@) is None,
        },
{
    let cs = path_components(p);
    let n: usize = cs.len();
    if n == 0 {
        return None;
    }
    assert(comps_of(cs@).last() == cs[n - 1].comp());
    match &cs[n - 1] {
        PathComponent::Normal(v) => {
            let copy = copy_range(v.as_slice(), 0, v.len());
            assert(v@.subrange(0, v@.len() as int) =~= v@);
            Some(copy)
        },
        _ => None,
    }
}

/// The last position of `c` in `s`.
fn rfind_char(s: &[char], c: char) -> (r: Option<usize>)
    ensures
        match r {
            Some(k) => rfind(s@, c) == Some(k as int) && k < s@.len(),
            None => rfind(s@, c) is None,
        },
{
    let mut k: usize = s.len();
    assert(s@.subrange(0, k as int) =~= s@);
    while k > 0
        invariant
            k <= s@.len(),
            rfind(s@, c) == rfind(s@.subrange(0, k as int), c),
        decreases k,
    {
        let ghost pre = s@.subrange(0, k as int);
        assert(pre.drop_last() =~= s@.subrange(0, k - 1));
        if s[k - 1] == c {
            return Some(k - 1);
        }
        k -= 1;
    }
    None
}

/// The extension of a path.
pub fn extension_chars(p: &[char]) -> (r: Option<Vec<char>>)
    ensures
        match r {
            Some(v) => extension_of(p@) == Some(v@),
            None => extension_of(p@) is None,
        },
{
    match file_name_chars(p) {
        Some(n) => match rfind_char(n.as_slice(), '.') {
            Some(k) => {
                let nlen: usize = n.len();
                if k > 0 {
                    Some(copy_range(n.as_slice(), k + 1, nlen))
                } else {
                    None
                }
            },
            None => None,
        },
        None => None,
    }
}

/// `Path::join` on Unix: an absolute `name` replaces `base`; otherwise
/// `name` follows `base`, with a `/` between them unless `base` is empty or
/// already ends with one.
pub open spec fn join_path(base: Seq<char>, name: Seq<char>) -> Seq<char> {
    if has_root(name) {
        name
    } else if base.len() == 0 || base.last() == '/' {
        base + name
    } else {
        base + seq!['/'] + name
    }
}

/// The parent of `path`, as `Path::parent` gives it.
pub fn parent_path(path: &str) -> (r: Option<String>)
    ensures
        match r {
            Some(s) => parent_of(path@) == Some(s@),
            None => parent_of(path@) is None,
        },
{
    let c = chars_of(path);
    match parent_chars(c.as_slice()) {
        Some(v) => Some(string_from_chars(v.as_slice())),
        None => None,
    }
}

/// `base` joined with `name`.
pub fn join_path_str(base: &str, name: &str) -> (s: String)
    ensures
        s@ == join_path(base@, name@),
{
    let b = chars_of(base);
    let n = chars_of(name);
    if n.len() > 0 && n[0] == '/' {
        return string_from_chars(n.as_slice());
    }
    let mut out = b;
    if out.len() > 0 && out[out.len() - 1] != '/' {
        out.push('/');
    }
    append_chars(&mut out, n.as_slice());
    string_from_chars(out.as_slice())
}

/// The roots of the allowlist are themselves allowed.
pub proof fn lemma_roots_are_allowed(list: FileAllowlist, i: int)
    requires
        0 <= i < list.allowed_paths@.len(),
    ensures
        within_some(
            canonical_components(list.allowed_paths@[i]@),
            canonical_roots(list.allowed_paths@),
        ),
{
    let roots = canonical_roots(list.allowed_paths@);
    let c = canonical_components(list.allowed_paths@[i]@);
    assert(c.subrange(0, c.len() as int) =~= c);
    assert(roots[i] == c);
    assert(within(c, roots[i]));
}


/// `path` with `.` dropped and each `..` removing the name before it, as
/// the allowlist reads paths.
pub fn canonicalize_like(path: &str) -> (s: String)
    ensures
        s@ == canonicalized(path@),
{
    let p = chars_of(path);
    let c = canonicalize_chars(p.as_slice());
    string_from_chars(c.as_slice())
}

/// A name that can stand as one component: not empty, no `/`, not `.` or
/// `..`.
pub open spec fn valid_name(n: Seq<char>) -> bool {
    n.len() > 0 && !n.contains('/') && n != seq!['.'] && n != seq!['.', '.']
}

/// Whether every name component of `cs` is a valid name.
pub open spec fn valid_comps(cs: Seq<Comp>) -> bool {
    forall|i: int| 0 <= i < cs.len() ==> (#[trigger] cs[i] matches Comp::Normal(n) ==> valid_name(n))
}

proof fn lemma_split_no_sep(s: Seq<char>, c: char, cur: Seq<char>)
    requires
        !cur.contains(c),
    ensures
        forall|i: int| 0 <= i < split_from(s, c, cur).len() ==> !(#[trigger] split_from(s, c, cur)[i]).contains(c),
    decreases s.len(),
{
    if s.len() == 0 {
        assert(split_from(s, c, cur) =~= seq![cur]);
    } else {
        if s[0] == c {
            lemma_split_no_sep(s.drop_first(), c, Seq::empty());
            let rest = split_from(s.drop_first(), c, Seq::empty());
            assert forall|i: int| 0 <= i < split_from(s, c, cur).len() implies !(#[trigger] split_from(s, c, cur)[i]).contains(c) by {
                if i > 0 {
                    assert(split_from(s, c, cur)[i] == rest[i - 1]);
                }
            }
        } else {
            assert(!cur.push(s[0]).contains(c)) by {
                if cur.push(s[0]).contains(c) {
                    let k = choose|k: int| 0 <= k < cur.push(s[0]).len() && cur.push(s[0])[k] == c;
                    if k < cur.len() {
                        assert(cur.contains(c));
                    }
                }
            }
            lemma_split_no_sep(s.drop_first(), c, cur.push(s[0]));
            assert(split_from(s, c, cur) == split_from(s.drop_first(), c, cur.push(s[0])));
        }
    }
}

proof fn lemma_pieces_valid(ps: Seq<Seq<char>>)
    requires
        forall|i: int| 0 <= i < ps.len() ==> !(#[trigger] ps[i]).contains('/'),
    ensures
        valid_comps(pieces_comps(ps)),
    decreases ps.len(),
{
    if ps.len() > 0 {
        lemma_pieces_valid(ps.drop_last());
        let pre = pieces_comps(ps.drop_last());
        assert(!ps.last().contains('/'));
        match piece_comp(ps.last()) {
            Some(x) => {
                assert forall|i: int| 0 <= i < pre.push(x).len() implies (#[trigger] pre.push(x)[i] matches Comp::Normal(n) ==> valid_name(n)) by {
                    if i < pre.len() {
                        assert(pre.push(x)[i] == pre[i]);
                    }
                }
            },
            None => {},
        }
    }
}

/// The components of any path name only valid names.
proof fn lemma_components_valid(p: Seq<char>)
    ensures
        valid_comps(components(p)),
{
    let body = p.subrange(body_start(p), p.len() as int);
    lemma_split_no_sep(body, '/', Seq::empty());
    lemma_pieces_valid(body_pieces(p));
    let head = if has_root(p) {
        seq![Comp::Root]
    } else if leading_cur_dir(p) {
        seq![Comp::Cur]
    } else {
        Seq::empty()
    };
    let tail = pieces_comps(body_pieces(p));
    assert forall|i: int| 0 <= i < components(p).len() implies (#[trigger] components(p)[i] matches Comp::Normal(n) ==> valid_name(n)) by {
        if i >= head.len() {
            assert(components(p)[i] == tail[i - head.len()]);
        }
    }
}

proof fn lemma_rebuild_valid(cs: Seq<Comp>, rooted: bool, names: Seq<Seq<char>>)
    requires
        valid_comps(cs),
        forall|i: int| 0 <= i < names.len() ==> valid_name(#[trigger] names[i]),
    ensures
        forall|i: int| 0 <= i < rebuild(cs, rooted, names).1.len() ==> valid_name(#[trigger] rebuild(cs, rooted, names).1[i]),
    decreases cs.len(),
{
    if cs.len() > 0 {
        let rest = cs.drop_first();
        assert(valid_comps(rest)) by {
            assert forall|i: int| 0 <= i < rest.len() implies (#[trigger] rest[i] matches Comp::Normal(n) ==> valid_name(n)) by {
                assert(rest[i] == cs[i + 1]);
            }
        }
        match cs[0] {
            Comp::Root => {
                lemma_rebuild_valid(rest, true, Seq::empty());
                assert(rebuild(cs, rooted, names) == rebuild(rest, true, Seq::empty()));
            },
            Comp::Cur => {
                lemma_rebuild_valid(rest, rooted, names);
                assert(rebuild(cs, rooted, names) == rebuild(rest, rooted, names));
            },
            Comp::Parent => {
                let nn = if names.len() > 0 {
                    names.drop_last()
                } else {
                    names
                };
                assert forall|i: int| 0 <= i < nn.len() implies valid_name(#[trigger] nn[i]) by {
                    assert(nn[i] == names[i]);
                }
                lemma_rebuild_valid(rest, rooted, nn);
                assert(rebuild(cs, rooted, names) == rebuild(rest, rooted, nn));
            },
            Comp::Normal(n) => {
                assert(cs[0] matches Comp::Normal(m) ==> valid_name(m));
                let nn = names.push(n);
                assert forall|i: int| 0 <= i < nn.len() implies valid_name(#[trigger] nn[i]) by {
                    if i < names.len() {
                        assert(nn[i] == names[i]);
                    }
                }
                lemma_rebuild_valid(rest, rooted, nn);
                assert(rebuild(cs, rooted, names) == rebuild(rest, rooted, nn));
            },
        }
    }
}

proof fn lemma_split_append(x: Seq<char>, t: Seq<char>, c: char, cur: Seq<char>)
    ensures
        split_from(x + t, c, cur) == split_from(x, c, cur).drop_last() + split_from(
            t,
            c,
            split_from(x, c, cur).last(),
        ),
        split_from(x, c, cur).len() > 0,
    decreases x.len(),
{
    if x.len() == 0 {
        assert(x + t =~= t);
        assert(split_from(x, c, cur) == seq![cur]);
        assert(seq![cur].drop_last() + split_from(t, c, cur) =~= split_from(t, c, cur));
    } else {
        assert((x + t).drop_first() =~= x.drop_first() + t);
        if x[0] == c {
            lemma_split_append(x.drop_first(), t, c, Seq::empty());
            let r = split_from(x.drop_first(), c, Seq::empty());
            assert((seq![cur] + r).drop_last() =~= seq![cur] + r.drop_last());
            assert((seq![cur] + r).last() == r.last());
            assert(split_from(x + t, c, cur) =~= seq![cur] + split_from(x.drop_first() + t, c, Seq::empty()));
        } else {
            lemma_split_append(x.drop_first(), t, c, cur.push(x[0]));
        }
    }
}

/// Splitting text without the separator leaves it in one piece.
pub(crate) proof fn lemma_split_plain(y: Seq<char>, c: char, cur: Seq<char>)
    requires
        !y.contains(c),
    ensures
        split_from(y, c, cur) == seq![cur + y],
    decreases y.len(),
{
    if y.len() == 0 {
        assert(cur + y =~= cur);
    } else {
        assert(y[0] != c) by {
            assert(y.contains(c) ==> true);
            if y[0] == c {
                assert(y.contains(c));
            }
        }
        assert(!y.drop_first().contains(c)) by {
            if y.drop_first().contains(c) {
                let k = choose|k: int| 0 <= k < y.drop_first().len() && y.drop_first()[k] == c;
                assert(y[k + 1] == c);
            }
        }
        lemma_split_plain(y.drop_first(), c, cur.push(y[0]));
        assert(cur.push(y[0]) + y.drop_first() =~= cur + y);
    }
}

/// Splitting names joined by a separator they do not contain gives them back.
proof fn lemma_split_join(ns: Seq<Seq<char>>, c: char)
    requires
        ns.len() > 0,
        forall|i: int| 0 <= i < ns.len() ==> !(#[trigger] ns[i]).contains(c),
    ensures
        split_on(join(ns, seq![c]), c) == ns,
    decreases ns.len(),
{
    if ns.len() == 1 {
        lemma_split_plain(ns[0], c, Seq::empty());
        assert(Seq::<char>::empty() + ns[0] =~= ns[0]);
        assert(seq![ns[0]] =~= ns);
    } else {
        let pre = ns.drop_last();
        let y = ns.last();
        assert forall|i: int| 0 <= i < pre.len() implies !(#[trigger] pre[i]).contains(c) by {
            assert(pre[i] == ns[i]);
        }
        lemma_split_join(pre, c);
        let x = join(pre, seq![c]);
        assert(join(ns, seq![c]) == x + seq![c] + y);
        assert(x + seq![c] + y =~= x + (seq![c] + y));
        lemma_split_append(x, seq![c] + y, c, Seq::empty());
        let sx = split_from(x, c, Seq::empty());
        assert(sx == pre);
        assert((seq![c] + y).drop_first() =~= y);
        lemma_split_plain(y, c, Seq::empty());
        assert(Seq::<char>::empty() + y =~= y);
        assert(split_from(seq![c] + y, c, sx.last()) == seq![sx.last()] + split_from(y, c, Seq::empty()));
        assert(sx.drop_last() + (seq![sx.last()] + seq![y]) =~= ns);
    }
}

/// The first name of a join begins it.
proof fn lemma_join_prefix(ns: Seq<Seq<char>>, sep: Seq<char>)
    requires
        ns.len() > 0,
    ensures
        join(ns, sep).len() >= ns[0].len(),
        join(ns, sep).subrange(0, ns[0].len() as int) == ns[0],
    decreases ns.len(),
{
    if ns.len() == 1 {
        assert(ns[0].subrange(0, ns[0].len() as int) =~= ns[0]);
    } else {
        lemma_join_prefix(ns.drop_last(), sep);
        let x = join(ns.drop_last(), sep);
        assert(ns.drop_last()[0] == ns[0]);
        assert((x + sep + ns.last()).subrange(0, ns[0].len() as int) =~= x.subrange(0, ns[0].len() as int));
    }
}

proof fn lemma_pieces_names(ns: Seq<Seq<char>>)
    requires
        forall|i: int| 0 <= i < ns.len() ==> valid_name(#[trigger] ns[i]),
    ensures
        pieces_comps(ns) == ns.map_values(|n: Seq<char>| Comp::Normal(n)),
    decreases ns.len(),
{
    if ns.len() > 0 {
        let pre = ns.drop_last();
        assert forall|i: int| 0 <= i < pre.len() implies valid_name(#[trigger] pre[i]) by {
            assert(pre[i] == ns[i]);
        }
        lemma_pieces_names(pre);
        assert(valid_name(ns.last()));
        assert(ns.map_values(|n: Seq<char>| Comp::Normal(n)) =~= pre.map_values(
            |n: Seq<char>| Comp::Normal(n),
        ).push(Comp::Normal(ns.last())));
    }
}

/// The path a rebuild writes reads back as the rebuilt components.
proof fn lemma_render_components(rooted: bool, ns: Seq<Seq<char>>)
    requires
        rooted || ns.len() > 0,
        forall|i: int| 0 <= i < ns.len() ==> valid_name(#[trigger] ns[i]),
    ensures
        components(render(rooted, ns)) == (if rooted {
            seq![Comp::Root]
        } else {
            Seq::<Comp>::empty()
        }) + ns.map_values(|n: Seq<char>| Comp::Normal(n)),
{
    let j = join(ns, seq!['/']);
    let p = render(rooted, ns);
    assert forall|i: int| 0 <= i < ns.len() implies !(#[trigger] ns[i]).contains('/') by {
        assert(valid_name(ns[i]));
    }
    lemma_pieces_names(ns);
    if rooted {
        assert(p =~= seq!['/'] + j);
        assert(has_root(p));
        assert(p.subrange(1, p.len() as int) =~= j);
        if ns.len() > 0 {
            lemma_split_join(ns, '/');
        } else {
            assert(j =~= Seq::<char>::empty());
            assert(split_on(j, '/') =~= seq![Seq::<char>::empty()]);
            let one = seq![Seq::<char>::empty()];
            assert(one.drop_last() =~= Seq::<Seq<char>>::empty());
            assert(one.last() =~= Seq::<char>::empty());
            assert(piece_comp(one.last()) is None);
            assert(pieces_comps(Seq::<Seq<char>>::empty()) =~= Seq::<Comp>::empty());
            assert(pieces_comps(one) == pieces_comps(one.drop_last()));
            assert(pieces_comps(one) =~= Seq::<Comp>::empty());
            assert(ns.map_values(|n: Seq<char>| Comp::Normal(n)) =~= Seq::<Comp>::empty());
        }
    } else {
        assert(p =~= j);
        lemma_join_prefix(ns, seq!['/']);
        let first = ns[0];
        assert(valid_name(first));
        assert(p[0] == first[0]);
        assert(first[0] != '/') by {
            assert(first.contains(first[0]));
        }
        assert(!leading_cur_dir(p)) by {
            if p[0] == '.' {
                if first.len() == 1 {
                    assert(first =~= seq!['.']);
                } else {
                    assert(p[1] == first[1]);
                    assert(first.contains(first[1]));
                }
            }
        }
        assert(p.subrange(0, p.len() as int) =~= p);
        lemma_split_join(ns, '/');
        assert(Seq::<Comp>::empty() + ns.map_values(|n: Seq<char>| Comp::Normal(n)) =~= ns.map_values(|n: Seq<char>| Comp::Normal(n)));
    }
}

/// The allowlist checks a path by the components of its rebuilt text:
/// reading `canonicalized(p)` back as a path gives `canonical_components(p)`.
pub proof fn lemma_canonical_components(p: Seq<char>)
    ensures
        components(canonicalized(p)) == canonical_components(p),
{
    let r = rebuild(components(p), false, Seq::empty());
    if r.0 || r.1.len() > 0 {
        lemma_components_valid(p);
        lemma_rebuild_valid(components(p), false, Seq::empty());
        lemma_render_components(r.0, r.1);
    }
}

} // verus!

verus! {

/// A single empty piece stands for no component.
proof fn lemma_empty_piece()
    ensures
        pieces_comps(seq![Seq::<char>::empty()]) == Seq::<Comp>::empty(),
{
    let e = seq![Seq::<char>::empty()];
    assert(e.drop_last() =~= Seq::<Seq<char>>::empty());
    assert(e.last() =~= Seq::<char>::empty());
    assert(piece_comp(e.last()) is None);
    assert(pieces_comps(e) == pieces_comps(e.drop_last()));
    assert(pieces_comps(Seq::<Seq<char>>::empty()) =~= Seq::<Comp>::empty());
}

/// The components of pieces read one after another are those of each part.
proof fn lemma_pieces_comps_append(a: Seq<Seq<char>>, b: Seq<Seq<char>>)
    ensures
        pieces_comps(a + b) == pieces_comps(a) + pieces_comps(b),
    decreases b.len(),
{
    if b.len() == 0 {
        assert(a + b =~= a);
        assert(pieces_comps(a) + pieces_comps(b) =~= pieces_comps(a));
    } else {
        lemma_pieces_comps_append(a, b.drop_last());
        assert((a + b).drop_last() =~= a + b.drop_last());
        assert((a + b).last() == b.last());
        match piece_comp(b.last()) {
            Some(c) => {
                assert(pieces_comps(a) + pieces_comps(b) =~= (pieces_comps(a) + pieces_comps(
                    b.drop_last(),
                )).push(c));
            },
            None => {},
        }
    }
}

/// Splitting text that ends in the separator gives a last, empty piece.
proof fn lemma_split_trailing_sep(x: Seq<char>, c: char)
    ensures
        split_on(x + seq![c], c) == split_on(x, c) + seq![Seq::<char>::empty()],
{
    lemma_split_append(x, seq![c], c, Seq::empty());
    let sx = split_from(x, c, Seq::empty());
    assert(seq![c].drop_first() =~= Seq::<char>::empty());
    assert(split_from(seq![c], c, sx.last()) == seq![sx.last()] + split_from(
        Seq::<char>::empty(),
        c,
        Seq::empty(),
    ));
    assert(sx.drop_last() + (seq![sx.last()] + seq![Seq::<char>::empty()]) =~= sx + seq![
        Seq::<char>::empty(),
    ]);
}

/// The components of `y`, a `/`, then `name` (whose one component is a
/// name): those of `y` and that name.
proof fn lemma_split_then_name(y: Seq<char>, name: Seq<char>, n: Seq<char>)
    requires
        !has_root(name),
        !leading_cur_dir(name),
        components(name) == seq![Comp::Normal(n)],
    ensures
        pieces_comps(split_on(y + seq!['/'] + name, '/')) == pieces_comps(split_on(y, '/')).push(
            Comp::Normal(n),
        ),
{
    let x = y + seq!['/'];
    lemma_split_append(x, name, '/', Seq::empty());
    lemma_split_trailing_sep(y, '/');
    let sx = split_from(x, '/', Seq::empty());
    assert(sx.drop_last() =~= split_on(y, '/'));
    assert(sx.last() =~= Seq::<char>::empty());
    assert(name.subrange(0, name.len() as int) =~= name);
    assert(pieces_comps(split_on(name, '/')) == components(name));
    lemma_pieces_comps_append(split_on(y, '/'), split_on(name, '/'));
}

/// Joining a name whose one component is a plain name `n` to `base` gives
/// the components of `base` followed by `n`.
pub proof fn lemma_join_component(base: Seq<char>, name: Seq<char>, n: Seq<char>)
    requires
        components(name) == seq![Comp::Normal(n)],
    ensures
        components(join_path(base, name)) == components(base).push(Comp::Normal(n)),
{
    let j = join_path(base, name);
    assert(!has_root(name)) by {
        if has_root(name) {
            assert(components(name)[0] == Comp::Root);
        }
    }
    assert(!leading_cur_dir(name)) by {
        if leading_cur_dir(name) {
            assert(components(name)[0] == Comp::Cur);
        }
    }
    assert(body_pieces(name) == split_on(name, '/')) by {
        assert(name.subrange(0, name.len() as int) =~= name);
    }
    if base.len() == 0 {
        assert(j =~= name);
        assert(split_on(base, '/') =~= seq![Seq::<char>::empty()]) by {
            assert(base.subrange(0, 0) =~= base);
        }
        assert(body_pieces(base) =~= seq![Seq::<char>::empty()]);
        lemma_empty_piece();
        assert(components(base) =~= Seq::<Comp>::empty());
    } else {
        let s = body_start(base);
        let body = base.subrange(s, base.len() as int);
        let head = if has_root(base) {
            seq![Comp::Root]
        } else if leading_cur_dir(base) {
            seq![Comp::Cur]
        } else {
            Seq::<Comp>::empty()
        };
        if base.last() == '/' {
            assert(j =~= base + name);
            assert(has_root(j) == has_root(base));
            assert(leading_cur_dir(j) == leading_cur_dir(base));
            assert(body_start(j) == s);
            if body.len() == 0 {
                assert(j.subrange(s, j.len() as int) =~= name);
                assert(split_on(body, '/') =~= seq![Seq::<char>::empty()]) by {
                    assert(body.subrange(0, 0) =~= body);
                }
                lemma_empty_piece();
                assert(components(j) =~= head + components(name));
                assert(components(base) =~= head);
            } else {
                let y = body.drop_last();
                assert(body =~= y + seq!['/']);
                assert(j.subrange(s, j.len() as int) =~= y + seq!['/'] + name);
                lemma_split_then_name(y, name, n);
                lemma_split_trailing_sep(y, '/');
                let e = seq![Seq::<char>::empty()];
                lemma_pieces_comps_append(split_on(y, '/'), e);
                lemma_empty_piece();
                assert(pieces_comps(split_on(y, '/')) + pieces_comps(e) =~= pieces_comps(
                    split_on(y, '/'),
                ));
                assert(components(j) =~= head + pieces_comps(split_on(y, '/')).push(
                    Comp::Normal(n),
                ));
                assert(components(base) =~= head + pieces_comps(split_on(y, '/')));
            }
        } else {
            assert(j =~= base + seq!['/'] + name);
            assert(has_root(j) == has_root(base));
            assert(leading_cur_dir(j) == leading_cur_dir(base)) by {
                if base.len() == 1 {
                    assert(j[1] == '/');
                } else {
                    assert(j[1] == base[1]);
                }
            }
            assert(body_start(j) == s);
            assert(j.subrange(s, j.len() as int) =~= body + seq!['/'] + name);
            lemma_split_then_name(body, name, n);
            assert(components(j) =~= head + pieces_comps(split_on(body, '/')).push(
                Comp::Normal(n),
            ));
            assert(components(base) =~= head + pieces_comps(split_on(body, '/')));
        }
    }
}


/// Rebuilding plain names appends them to the names kept so far.
proof fn lemma_rebuild_names(ns: Seq<Seq<char>>, rooted: bool, acc: Seq<Seq<char>>)
    ensures
        rebuild(ns.map_values(|n: Seq<char>| Comp::Normal(n)), rooted, acc) == (rooted, acc + ns),
    decreases ns.len(),
{
    let cs = ns.map_values(|n: Seq<char>| Comp::Normal(n));
    if ns.len() == 0 {
        assert(acc + ns =~= acc);
    } else {
        assert(cs.drop_first() =~= ns.drop_first().map_values(|n: Seq<char>| Comp::Normal(n)));
        lemma_rebuild_names(ns.drop_first(), rooted, acc.push(ns[0]));
        assert(acc.push(ns[0]) + ns.drop_first() =~= acc + ns);
    }
}

/// Rebuilding the canonical components of a path gives what rebuilding the
/// path gave.
proof fn lemma_rebuild_canonical(p: Seq<char>)
    ensures
        rebuild(canonical_components(p), false, Seq::empty()) == rebuild(
            components(p),
            false,
            Seq::empty(),
        ),
{
    let r = rebuild(components(p), false, Seq::empty());
    if r.0 || r.1.len() > 0 {
        let names = r.1.map_values(|n: Seq<char>| Comp::Normal(n));
        if r.0 {
            let cs = seq![Comp::Root] + names;
            assert(cs.drop_first() =~= names);
            lemma_rebuild_names(r.1, true, Seq::empty());
            assert(Seq::<Seq<char>>::empty() + r.1 =~= r.1);
        } else {
            assert(Seq::<Comp>::empty() + names =~= names);
            lemma_rebuild_names(r.1, false, Seq::empty());
            assert(Seq::<Seq<char>>::empty() + r.1 =~= r.1);
        }
    }
}

/// Canonicalizing a path a second time changes nothing.
pub proof fn lemma_canonicalized_idempotent(p: Seq<char>)
    ensures
        canonicalized(canonicalized(p)) == canonicalized(p),
        canonical_components(canonicalized(p)) == canonical_components(p),
{
    let r = rebuild(components(p), false, Seq::empty());
    if r.0 || r.1.len() > 0 {
        lemma_canonical_components(p);
        lemma_rebuild_canonical(p);
    }
}

} // verus!
