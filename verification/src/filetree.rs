//! The directory tree beside the workspaces: which subdirectories a node lists, how a
//! path splits into components, its depth and label, the chain of directories to open
//! to reveal it, and the open/loaded state of a node.
use vstd::prelude::*;
use vstd::relations::{sorted_by, total_ordering};

verus! {

/// A node lists at most this many subdirectories.
pub const MAX_CHILDREN: usize = 200;

/// The byte `/`.
pub const SLASH: u8 = 47;

/// The byte `.`.
pub const DOT: u8 = 46;

// ---------------------------------------------------------------------------
// Byte-wise order of names
// ---------------------------------------------------------------------------

/// `a` comes before `b` or equals it, comparing bytes from the start; a prefix comes
/// first. This is how directory names, and so the paths of the children of one
/// directory, are ordered.
pub open spec fn lex_le(a: Seq<u8>, b: Seq<u8>) -> bool
    decreases a.len(),
{
    if a.len() == 0 {
        true
    } else if b.len() == 0 {
        false
    } else if a[0] != b[0] {
        a[0] < b[0]
    } else {
        lex_le(a.drop_first(), b.drop_first())
    }
}

/// `lex_le` as a relation.
pub open spec fn byte_order() -> spec_fn(Seq<u8>, Seq<u8>) -> bool {
    |a: Seq<u8>, b: Seq<u8>| lex_le(a, b)
}

proof fn lemma_lex_refl(a: Seq<u8>)
    ensures
        lex_le(a, a),
    decreases a.len(),
{
    if a.len() > 0 {
        lemma_lex_refl(a.drop_first());
    }
}

proof fn lemma_lex_total(a: Seq<u8>, b: Seq<u8>)
    ensures
        lex_le(a, b) || lex_le(b, a),
    decreases a.len(),
{
    if a.len() > 0 && b.len() > 0 && a[0] == b[0] {
        lemma_lex_total(a.drop_first(), b.drop_first());
    }
}

proof fn lemma_lex_antisym(a: Seq<u8>, b: Seq<u8>)
    requires
        lex_le(a, b),
        lex_le(b, a),
    ensures
        a == b,
    decreases a.len(),
{
    if a.len() == 0 {
        assert(b.len() == 0);
        assert(a =~= b);
    } else {
        lemma_lex_antisym(a.drop_first(), b.drop_first());
        assert(a =~= seq![a[0]] + a.drop_first());
        assert(b =~= seq![b[0]] + b.drop_first());
    }
}

proof fn lemma_lex_trans(a: Seq<u8>, b: Seq<u8>, c: Seq<u8>)
    requires
        lex_le(a, b),
        lex_le(b, c),
    ensures
        lex_le(a, c),
    decreases a.len(),
{
    if a.len() > 0 && a[0] == b[0] && b[0] == c[0] {
        lemma_lex_trans(a.drop_first(), b.drop_first(), c.drop_first());
    }
}

/// Byte order is a total order.
pub proof fn lemma_byte_order_total()
    ensures
        total_ordering(byte_order()),
{
    let r = byte_order();
    assert forall|x: Seq<u8>| #[trigger] r(x, x) by {
        lemma_lex_refl(x);
    }
    assert forall|x: Seq<u8>, y: Seq<u8>| #[trigger] r(x, y) && #[trigger] r(y, x) implies x == y by {
        lemma_lex_antisym(x, y);
    }
    assert forall|x: Seq<u8>, y: Seq<u8>, z: Seq<u8>| #[trigger] r(x, y) && #[trigger] r(y, z) implies r(x, z) by {
        lemma_lex_trans(x, y, z);
    }
    assert forall|x: Seq<u8>, y: Seq<u8>| #[trigger] r(x, y) || #[trigger] r(y, x) by {
        lemma_lex_total(x, y);
    }
}

/// Whether `a` comes before `b` or equals it, byte by byte.
fn bytes_le(a: &Vec<u8>, b: &Vec<u8>) -> (r: bool)
    ensures
        r == lex_le(a@, b@),
{
    let mut i: usize = 0;
    assert(a@.skip(0) =~= a@);
    assert(b@.skip(0) =~= b@);
    while i < a.len() && i < b.len()
        invariant
            i <= a@.len(),
            i <= b@.len(),
            lex_le(a@, b@) == lex_le(a@.skip(i as int), b@.skip(i as int)),
        decreases a.len() - i,
    {
        assert(a@.skip(i as int)[0] == a@[i as int]);
        assert(b@.skip(i as int)[0] == b@[i as int]);
        if a[i] != b[i] {
            return a[i] < b[i];
        }
        assert(a@.skip(i as int).drop_first() =~= a@.skip(i + 1));
        assert(b@.skip(i as int).drop_first() =~= b@.skip(i + 1));
        i = i + 1;
    }
    i == a.len()
}

// ---------------------------------------------------------------------------
// Which subdirectories a node lists
// ---------------------------------------------------------------------------

/// An entry read from a directory: its name and whether it is itself a directory.
pub struct DirEntryInfo {
    pub name: Vec<u8>,
    pub is_dir: bool,
}

/// A name is hidden when it starts with a dot.
pub open spec fn hidden_name(name: Seq<u8>) -> bool {
    name.len() > 0 && name[0] == DOT
}

/// The entry is a subdirectory that the tree shows.
pub open spec fn listed(e: DirEntryInfo, show_hidden: bool) -> bool {
    e.is_dir && (show_hidden || !hidden_name(e.name@))
}

/// The names of the shown subdirectories, in the order the entries came.
pub open spec fn listed_names(es: Seq<DirEntryInfo>, show_hidden: bool) -> Seq<Seq<u8>>
    decreases es.len(),
{
    if es.len() == 0 {
        seq![]
    } else {
        let r = listed_names(es.drop_last(), show_hidden);
        if listed(es.last(), show_hidden) {
            r.push(es.last().name@)
        } else {
            r
        }
    }
}

/// The names a node lists: its shown subdirectories in byte order, the first
/// `MAX_CHILDREN` of them.
pub open spec fn spec_child_dirs(es: Seq<DirEntryInfo>, show_hidden: bool) -> Seq<Seq<u8>> {
    let s = listed_names(es, show_hidden).sort_by(byte_order());
    s.take(if s.len() < MAX_CHILDREN { s.len() as int } else { MAX_CHILDREN as int })
}

/// The contents of a list of names.
pub open spec fn names_of(v: Seq<Vec<u8>>) -> Seq<Seq<u8>> {
    v.map_values(|n: Vec<u8>| n@)
}

fn copy_bytes(v: &Vec<u8>) -> (r: Vec<u8>)
    ensures
        r@ == v@,
{
    let mut r: Vec<u8> = Vec::new();
    let mut i: usize = 0;
    while i < v.len()
        invariant
            i <= v@.len(),
            r@ == v@.take(i as int),
        decreases v.len() - i,
    {
        r.push(v[i]);
        i = i + 1;
        assert(r@ =~= v@.take(i as int));
    }
    assert(v@.take(v@.len() as int) =~= v@);
    r
}

/// Puts `x` into the sorted list `out` after every name not greater than it.
fn insert_sorted(out: &mut Vec<Vec<u8>>, x: Vec<u8>)
    requires
        sorted_by(names_of(old(out)@), byte_order()),
    ensures
        sorted_by(names_of(final(out)@), byte_order()),
        names_of(final(out)@).to_multiset() == names_of(old(out)@).to_multiset().insert(x@),
{
    let ghost s = names_of(out@);
    let mut p: usize = 0;
    let mut go = p < out.len() && bytes_le(&out[p], &x);
    while go
        invariant
            s == names_of(out@),
            p <= out@.len(),
            forall|k: int| 0 <= k < p ==> lex_le(#[trigger] s[k], x@),
            go == (p < out@.len() && lex_le(s[p as int], x@)),
        decreases out.len() - p,
    {
        p = p + 1;
        go = p < out.len() && bytes_le(&out[p], &x);
    }
    proof {
        lemma_byte_order_total();
        if p < s.len() {
            lemma_lex_total(s[p as int], x@);
        }
        vstd::seq_lib::to_multiset_insert(s, p as int, x@);
    }
    out.insert(p, x);
    proof {
        let t = names_of(out@);
        let r = byte_order();
        assert(t =~= s.insert(p as int, x@));
        assert forall|i: int, j: int| 0 <= i < j < t.len() implies #[trigger] r(t[i], t[j]) by {
            if j == p {
                assert(lex_le(s[i], x@));
            } else if i == p {
                assert(lex_le(x@, s[p as int]));
                if j - 1 > p {
                    assert(r(s[p as int], s[j - 1]));
                    lemma_lex_trans(x@, s[p as int], s[j - 1]);
                }
            } else if i < p && j > p {
                assert(lex_le(s[i], x@));
                assert(lex_le(x@, s[p as int]));
                if j - 1 > p {
                    assert(r(s[p as int], s[j - 1]));
                    lemma_lex_trans(x@, s[p as int], s[j - 1]);
                }
                lemma_lex_trans(s[i], x@, s[j - 1]);
            } else if i < p && j < p {
                assert(r(s[i], s[j]));
            } else {
                assert(r(s[i - 1], s[j - 1]));
            }
        }
    }
}

/// The subdirectory names a node lists, from the entries read from its directory (in
/// any order): directories only, hidden ones only when `show_hidden`, sorted byte-wise,
/// at most `MAX_CHILDREN`.
pub fn child_dirs(entries: &Vec<DirEntryInfo>, show_hidden: bool) -> (r: Vec<Vec<u8>>)
    ensures
        names_of(r@) == spec_child_dirs(entries@, show_hidden),
{
    let mut out: Vec<Vec<u8>> = Vec::new();
    let mut i: usize = 0;
    assert(entries@.take(0) =~= Seq::<DirEntryInfo>::empty());
    assert(names_of(out@) =~= listed_names(entries@.take(0), show_hidden));
    while i < entries.len()
        invariant
            i <= entries@.len(),
            sorted_by(names_of(out@), byte_order()),
            names_of(out@).to_multiset() == listed_names(entries@.take(i as int), show_hidden).to_multiset(),
        decreases entries.len() - i,
    {
        let e = &entries[i];
        let ghost pre = entries@.take(i as int);
        let ghost post = entries@.take(i + 1);
        assert(post.drop_last() =~= pre);
        assert(post.last() == entries@[i as int]);
        let hidden = e.name.len() > 0 && e.name[0] == DOT;
        if e.is_dir && (show_hidden || !hidden) {
            let name = copy_bytes(&e.name);
            insert_sorted(&mut out, name);
            proof {
                vstd::seq_lib::to_multiset_build(listed_names(pre, show_hidden), e.name@);
            }
        }
        i = i + 1;
    }
    proof {
        let l = listed_names(entries@, show_hidden);
        assert(entries@.take(entries@.len() as int) =~= entries@);
        lemma_byte_order_total();
        l.lemma_sort_by_ensures(byte_order());
        vstd::seq_lib::lemma_sorted_unique(names_of(out@), l.sort_by(byte_order()), byte_order());
    }
    if out.len() > MAX_CHILDREN {
        out.truncate(MAX_CHILDREN);
    }
    proof {
        let l = listed_names(entries@, show_hidden).sort_by(byte_order());
        assert(names_of(out@) =~= l.take(if l.len() < MAX_CHILDREN { l.len() as int } else { MAX_CHILDREN as int }));
    }
    out
}

/// The listing does not depend on the order in which the directory handed out its
/// entries: two readings with the same entries list the same names.
pub proof fn lemma_child_dirs_ignore_entry_order(a: Seq<DirEntryInfo>, b: Seq<DirEntryInfo>, show_hidden: bool)
    requires
        listed_names(a, show_hidden).to_multiset() == listed_names(b, show_hidden).to_multiset(),
    ensures
        spec_child_dirs(a, show_hidden) == spec_child_dirs(b, show_hidden),
{
    let la = listed_names(a, show_hidden);
    let lb = listed_names(b, show_hidden);
    lemma_byte_order_total();
    la.lemma_sort_by_ensures(byte_order());
    lb.lemma_sort_by_ensures(byte_order());
    vstd::seq_lib::lemma_sorted_unique(la.sort_by(byte_order()), lb.sort_by(byte_order()), byte_order());
}

// ---------------------------------------------------------------------------
// Paths as components
// ---------------------------------------------------------------------------

/// The root component, written `/`.
pub open spec fn root_comp() -> Seq<u8> {
    seq![SLASH]
}

/// The current-directory component `.`.
pub open spec fn cur_comp() -> Seq<u8> {
    seq![DOT]
}

/// The parent-directory component `..`.
pub open spec fn parent_comp() -> Seq<u8> {
    seq![DOT, DOT]
}

/// A component that names an entry (not the root, `.` or `..`).
pub open spec fn is_normal(c: Seq<u8>) -> bool {
    c != root_comp() && c != cur_comp() && c != parent_comp()
}

/// The pieces of `p` between slashes, empty ones included.
pub open spec fn segments(p: Seq<u8>) -> Seq<Seq<u8>>
    decreases p.len(),
{
    if p.len() == 0 {
        seq![Seq::<u8>::empty()]
    } else {
        let s = segments(p.drop_last());
        if p.last() == SLASH {
            s.push(Seq::<u8>::empty())
        } else {
            s.update(s.len() - 1, s.last().push(p.last()))
        }
    }
}

proof fn lemma_segments_len(p: Seq<u8>)
    ensures
        segments(p).len() >= 1,
    decreases p.len(),
{
    if p.len() > 0 {
        lemma_segments_len(p.drop_last());
    }
}

/// Piece number `i` of a path is a component: it is not empty, and it is not `.`
/// unless it begins the path.
pub open spec fn kept(seg: Seq<u8>, i: int) -> bool {
    seg.len() > 0 && (seg != cur_comp() || i == 0)
}

/// The pieces that are components, in order.
pub open spec fn kept_segments(segs: Seq<Seq<u8>>) -> Seq<Seq<u8>>
    decreases segs.len(),
{
    if segs.len() == 0 {
        seq![]
    } else {
        let r = kept_segments(segs.drop_last());
        if kept(segs.last(), segs.len() - 1) {
            r.push(segs.last())
        } else {
            r
        }
    }
}

/// The components of path `p`: the root when it starts with a slash, then its
/// non-empty pieces, where repeated and trailing slashes and `.` (but at the very
/// start) are dropped.
pub open spec fn components(p: Seq<u8>) -> Seq<Seq<u8>> {
    (if p.len() > 0 && p[0] == SLASH {
        seq![root_comp()]
    } else {
        seq![]
    }) + kept_segments(segments(p))
}

fn is_kept(seg: &Vec<u8>, i: usize) -> (r: bool)
    ensures
        r == kept(seg@, i as int),
{
    if seg.len() == 0 {
        return false;
    }
    let dot = seg.len() == 1 && seg[0] == DOT;
    proof {
        if seg@.len() == 1 && seg@[0] == DOT {
            assert(seg@ =~= cur_comp());
        } else if seg@ == cur_comp() {
            assert(seg@[0] == DOT);
        }
    }
    !dot || i == 0
}

/// The components of `path`; see `components`.
pub fn path_components(path: &[u8]) -> (r: Vec<Vec<u8>>)
    ensures
        names_of(r@) == components(path@),
{
    let mut out: Vec<Vec<u8>> = Vec::new();
    let absolute = path.len() > 0 && path[0] == SLASH;
    if absolute {
        let mut root: Vec<u8> = Vec::new();
        root.push(SLASH);
        out.push(root);
    }
    let ghost head = if absolute { seq![root_comp()] } else { Seq::<Seq<u8>>::empty() };
    assert(names_of(out@) =~= head);
    let mut cur: Vec<u8> = Vec::new();
    let mut seg: usize = 0;
    let mut i: usize = 0;
    assert(path@.take(0) =~= Seq::<u8>::empty());
    while i < path.len()
        invariant
            i <= path@.len(),
            head == (if path@.len() > 0 && path@[0] == SLASH { seq![root_comp()] } else { Seq::<Seq<u8>>::empty() }),
            segments(path@.take(i as int)).len() == seg + 1,
            seg <= i,
            cur@ == segments(path@.take(i as int)).last(),
            names_of(out@) == head + kept_segments(segments(path@.take(i as int)).drop_last()),
        decreases path.len() - i,
    {
        let ghost pre = path@.take(i as int);
        let ghost post = path@.take(i + 1);
        let ghost segs = segments(pre);
        assert(post.drop_last() =~= pre);
        assert(post.last() == path@[i as int]);
        if path[i] == SLASH {
            let keep = is_kept(&cur, seg);
            let mut done: Vec<u8> = Vec::new();
            std::mem::swap(&mut done, &mut cur);
            let ghost names0 = names_of(out@);
            if keep {
                out.push(done);
                assert(names_of(out@) =~= names0.push(done@));
            }
            proof {
                assert(segments(post) == segs.push(Seq::<u8>::empty()));
                assert(segments(post).drop_last() =~= segs);
                assert(segs =~= segs.drop_last().push(segs.last()));
                assert(names_of(out@) =~= head + kept_segments(segs));
            }
            seg = seg + 1;
        } else {
            cur.push(path[i]);
            proof {
                assert(segments(post) == segs.update(segs.len() - 1, segs.last().push(path@[i as int])));
                assert(segments(post).drop_last() =~= segs.drop_last());
            }
        }
        i = i + 1;
    }
    assert(path@.take(path@.len() as int) =~= path@);
    proof {
        lemma_segments_len(path@);
    }
    let keep = is_kept(&cur, seg);
    let ghost names0 = names_of(out@);
    let ghost last = cur@;
    if keep {
        out.push(cur);
        assert(names_of(out@) =~= names0.push(last));
    }
    proof {
        let segs = segments(path@);
        assert(segs =~= segs.drop_last().push(segs.last()));
        assert(names_of(out@) =~= head + kept_segments(segs));
    }
    out
}

/// How deep `path` lies below the root: one less than its number of components (counted
/// in 32 bits), and 0 for the root itself or an empty path.
pub open spec fn spec_path_depth(path: Seq<u8>) -> u32 {
    let c = components(path).len() as u32;
    if c == 0 {
        0
    } else {
        (c - 1) as u32
    }
}

/// How deep `path` lies below the root, which sets a tree row's indentation.
pub fn path_depth(path: &[u8]) -> (r: u32)
    ensures
        r == spec_path_depth(path@),
{
    let comps = path_components(path);
    assert(names_of(comps@).len() == comps@.len());
    #[verifier::truncate]
    let c = comps.len() as u32;
    if c == 0 {
        0
    } else {
        c - 1
    }
}

/// What a tree row for `path` says: `/` for the root, else the last component when it
/// names an entry, else nothing.
pub open spec fn spec_node_label(path: Seq<u8>) -> Seq<u8> {
    let cs = components(path);
    if cs == seq![root_comp()] {
        root_comp()
    } else if cs.len() > 0 && is_normal(cs.last()) {
        cs.last()
    } else {
        seq![]
    }
}

fn same_bytes(a: &Vec<u8>, b: &Vec<u8>) -> (r: bool)
    ensures
        r == (a@ == b@),
{
    if a.len() != b.len() {
        return false;
    }
    let mut i: usize = 0;
    while i < a.len()
        invariant
            a@.len() == b@.len(),
            i <= a@.len(),
            forall|k: int| 0 <= k < i ==> a@[k] == b@[k],
        decreases a.len() - i,
    {
        if a[i] != b[i] {
            return false;
        }
        i = i + 1;
    }
    assert(a@ =~= b@);
    true
}

/// The name shown on the tree row of `path`.
pub fn node_label(path: &[u8]) -> (r: Vec<u8>)
    ensures
        r@ == spec_node_label(path@),
{
    let comps = path_components(path);
    let ghost cs = components(path@);
    let n = comps.len();
    if n == 0 {
        return Vec::new();
    }
    assert(comps@[n - 1]@ == cs[n - 1]);
    let mut root: Vec<u8> = Vec::new();
    root.push(SLASH);
    let mut dot: Vec<u8> = Vec::new();
    dot.push(DOT);
    let mut dotdot: Vec<u8> = Vec::new();
    dotdot.push(DOT);
    dotdot.push(DOT);
    assert(root@ =~= root_comp());
    assert(dot@ =~= cur_comp());
    assert(dotdot@ =~= parent_comp());
    let last_is_root = same_bytes(&comps[n - 1], &root);
    if n == 1 && last_is_root {
        assert(cs =~= seq![root_comp()]);
        return root;
    }
    proof {
        if cs == seq![root_comp()] {
            assert(cs.len() == 1);
        }
    }
    let special = last_is_root || same_bytes(&comps[n - 1], &dot) || same_bytes(&comps[n - 1], &dotdot);
    if special {
        Vec::new()
    } else {
        copy_bytes(&comps[n - 1])
    }
}

/// `cs` written back as a path: components joined by slashes, the root as a leading
/// slash.
pub open spec fn join_path(cs: Seq<Seq<u8>>) -> Seq<u8> {
    if cs.len() > 0 && cs[0] == root_comp() {
        root_comp() + join_relative(cs.drop_first())
    } else {
        join_relative(cs)
    }
}

/// Components joined by slashes.
pub open spec fn join_relative(cs: Seq<Seq<u8>>) -> Seq<u8>
    decreases cs.len(),
{
    if cs.len() == 0 {
        seq![]
    } else if cs.len() == 1 {
        cs[0]
    } else {
        join_relative(cs.drop_last()) + seq![SLASH] + cs.last()
    }
}

/// The directories to open, root first, to reveal `path`: every path made of the first
/// components of `path`, from the root (or, for a relative path, the empty path) down
/// to `path` itself.
pub open spec fn spec_ancestor_paths(path: Seq<u8>) -> Seq<Seq<u8>> {
    let cs = components(path);
    let k: int = if cs.len() > 0 && cs[0] == root_comp() { 1 } else { 0 };
    Seq::new((cs.len() - k + 1) as nat, |j: int| join_path(cs.take(k + j)))
}

/// Appends `b`'s bytes to `a`.
fn append_bytes(a: &mut Vec<u8>, b: &Vec<u8>)
    ensures
        final(a)@ == old(a)@ + b@,
{
    let mut i: usize = 0;
    while i < b.len()
        invariant
            i <= b@.len(),
            a@ == old(a)@ + b@.take(i as int),
        decreases b.len() - i,
    {
        a.push(b[i]);
        i = i + 1;
        assert(a@ =~= old(a)@ + b@.take(i as int));
    }
    assert(b@.take(b@.len() as int) =~= b@);
}

/// The directories to open, root first, to reveal `path`; see `spec_ancestor_paths`.
pub fn ancestor_paths(path: &[u8]) -> (r: Vec<Vec<u8>>)
    ensures
        names_of(r@) == spec_ancestor_paths(path@),
{
    let comps = path_components(path);
    let ghost cs = components(path@);
    let n = comps.len();
    let mut root: Vec<u8> = Vec::new();
    root.push(SLASH);
    assert(root@ =~= root_comp());
    let absolute = n > 0 && same_bytes(&comps[0], &root);
    proof {
        if n > 0 {
            assert(comps@[0]@ == cs[0]);
        }
    }
    let k: usize = if absolute { 1 } else { 0 };
    let ghost kk: int = k as int;
    let mut cur: Vec<u8> = if absolute { root } else { Vec::new() };
    proof {
        if absolute {
            assert(cs.take(1) =~= seq![root_comp()]);
            assert(cs.take(1).drop_first() =~= Seq::<Seq<u8>>::empty());
            assert(cur@ =~= join_path(cs.take(1)));
        } else {
            assert(cs.take(0) =~= Seq::<Seq<u8>>::empty());
        }
    }
    let mut out: Vec<Vec<u8>> = Vec::new();
    out.push(copy_bytes(&cur));
    assert(names_of(out@) =~= seq![join_path(cs.take(kk))]);
    let mut m: usize = k;
    while m < n
        invariant
            n == cs.len(),
            names_of(comps@) == cs,
            kk == k as int,
            kk == (if cs.len() > 0 && cs[0] == root_comp() { 1int } else { 0int }),
            k <= m <= n,
            cur@ == join_path(cs.take(m as int)),
            names_of(out@) == Seq::new((m - k + 1) as nat, |j: int| join_path(cs.take(kk + j))),
        decreases n - m,
    {
        assert(comps@[m as int]@ == cs[m as int]);
        let ghost before = cs.take(m as int);
        let ghost after = cs.take(m + 1);
        if m > k {
            cur.push(SLASH);
        }
        append_bytes(&mut cur, &comps[m]);
        proof {
            assert(after.drop_last() =~= before);
            assert(after.last() == cs[m as int]);
            if kk == 1 {
                assert(after[0] == root_comp());
                assert(before[0] == root_comp());
                let ra = after.drop_first();
                let rb = before.drop_first();
                assert(ra.drop_last() =~= rb);
                assert(ra.last() == cs[m as int]);
                if m > k {
                    assert(ra.len() >= 2);
                } else {
                    assert(rb =~= Seq::<Seq<u8>>::empty());
                    assert(ra =~= seq![cs[m as int]]);
                }
            } else {
                if m > k {
                    assert(after.len() >= 2);
                    if after.len() > 0 && after[0] == root_comp() {
                        assert(cs[0] == root_comp());
                    }
                    if before.len() > 0 && before[0] == root_comp() {
                        assert(cs[0] == root_comp());
                    }
                } else {
                    assert(before =~= Seq::<Seq<u8>>::empty());
                    assert(after =~= seq![cs[0]]);
                    if cs[0] == root_comp() {
                        assert(false);
                    }
                }
            }
            assert(cur@ =~= join_path(after));
        }
        let ghost names0 = names_of(out@);
        let piece = copy_bytes(&cur);
        out.push(piece);
        m = m + 1;
        assert(names_of(out@) =~= names0.push(cur@));
        assert(names_of(out@) =~= Seq::new((m - k + 1) as nat, |j: int| join_path(cs.take(kk + j))));
    }
    out
}

// ---------------------------------------------------------------------------
// The open/loaded state of a node
// ---------------------------------------------------------------------------

/// Whether a tree node shows its children, and whether they were read already.
#[derive(Debug, Clone, Copy, PartialEq, Eq, Structural)]
pub struct NodeFlags {
    pub expanded: bool,
    pub loaded: bool,
}

impl NodeFlags {
    /// An open node has had its children read.
    pub open spec fn valid(self) -> bool {
        self.expanded ==> self.loaded
    }
}

/// Opening a node: the new flags, and whether its children must be read now (on the
/// first opening only). An open node stays as it is.
pub open spec fn spec_expand(f: NodeFlags) -> (NodeFlags, bool) {
    if f.expanded {
        (f, false)
    } else {
        (NodeFlags { expanded: true, loaded: true }, !f.loaded)
    }
}

/// Closing a node: its children stay read.
pub open spec fn spec_collapse(f: NodeFlags) -> NodeFlags {
    NodeFlags { expanded: false, ..f }
}

impl NodeFlags {
    /// A new node: closed, children not read.
    pub fn new() -> (r: NodeFlags)
        ensures
            r == (NodeFlags { expanded: false, loaded: false }),
            r.valid(),
    {
        NodeFlags { expanded: false, loaded: false }
    }

    /// Opens the node; see `spec_expand`. Returns whether its children must be read.
    pub fn expand(&mut self) -> (load: bool)
        ensures
            (*final(self), load) == spec_expand(*old(self)),
            old(self).valid() ==> final(self).valid(),
    {
        if self.expanded {
            return false;
        }
        let load = !self.loaded;
        self.loaded = true;
        self.expanded = true;
        load
    }

    /// Closes the node; see `spec_collapse`.
    pub fn collapse(&mut self)
        ensures
            *final(self) == spec_collapse(*old(self)),
            final(self).valid(),
    {
        self.expanded = false;
    }

    /// The node's arrow was clicked: an open node closes, a closed one opens. Returns
    /// whether its children must be read now.
    pub fn toggle(&mut self) -> (load: bool)
        ensures
            old(self).expanded ==> !load && *final(self) == spec_collapse(*old(self)),
            !old(self).expanded ==> (*final(self), load) == spec_expand(*old(self)),
            old(self).valid() ==> final(self).valid(),
    {
        if self.expanded {
            self.collapse();
            false
        } else {
            self.expand()
        }
    }
}

/// A node's children are read at most once: once a node has been opened, closing and
/// opening it again reads nothing, and opening an open node reads nothing.
pub proof fn lemma_children_read_once(f: NodeFlags)
    requires
        f.valid(),
    ensures
        !spec_expand(spec_collapse(spec_expand(f).0)).1,
        !spec_expand(spec_expand(f).0).1,
{
}

} // verus!
