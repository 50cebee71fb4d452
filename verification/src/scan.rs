use vstd::prelude::*;
use vstd::relations::{sorted_by, total_ordering};
use crate::git::{FileEntry, GitStatus};
use crate::manager::GitStatusManager;
use crate::text::{
    chars_of, chars_eq, replace_char, replace_char_exec, string_of, trim_start_char,
    trim_start_char_exec,
};

verus! {

broadcast use vstd::seq_lib::group_to_multiset_ensures;

/// One entry of a directory listing: its name and whether it is a directory.
pub struct DirItem {
    pub name: String,
    pub is_dir: bool,
}

/// An entry the tree scan keeps: its name in the directory, its tree entry, and
/// whether the scan goes on into it.
pub struct ScanChild {
    pub name: String,
    pub entry: FileEntry,
    pub descend: bool,
}

/// Lexicographic order of names by character code (the byte order of UTF-8).
pub open spec fn lex_le(a: Seq<char>, b: Seq<char>) -> bool
    decreases a.len(),
{
    if a.len() == 0 {
        true
    } else if b.len() == 0 {
        false
    } else if a[0] != b[0] {
        (a[0] as u32) < (b[0] as u32)
    } else {
        lex_le(a.drop_first(), b.drop_first())
    }
}

/// Listing order: directories before files, then by name.
pub open spec fn item_le(a: (bool, Seq<char>), b: (bool, Seq<char>)) -> bool {
    (a.0 && !b.0) || (a.0 == b.0 && lex_le(a.1, b.1))
}

/// A listing entry as (is directory, name).
pub open spec fn item_view(i: DirItem) -> (bool, Seq<char>) {
    (i.is_dir, i.name@)
}

pub open spec fn items_view(v: Seq<DirItem>) -> Seq<(bool, Seq<char>)> {
    v.map_values(|i: DirItem| item_view(i))
}

/// The name `.git`.
pub open spec fn git_dir_name() -> Seq<char> {
    seq!['.', 'g', 'i', 't']
}

/// Path of `name` inside the directory at `parent` (relative to the working
/// directory), with `/` separators and no leading `/`.
pub open spec fn child_rel(parent: Seq<char>, name: Seq<char>) -> Seq<char> {
    let joined = if parent.len() == 0 {
        name
    } else {
        parent + seq!['/'] + name
    };
    trim_start_char(replace_char(joined, '\\', '/'), '/')
}

/// The children the scan keeps from a sorted listing, as (name, path, is
/// directory, descend): `.git` is skipped, as is an entry whose path comes out
/// empty; the scan descends into a directory at depth 0 or into one that was
/// expanded.
pub open spec fn scan_spec(
    s: Seq<(bool, Seq<char>)>,
    parent: Seq<char>,
    depth: usize,
    expanded: Set<Seq<char>>,
) -> Seq<(Seq<char>, Seq<char>, bool, bool)>
    decreases s.len(),
{
    if s.len() == 0 {
        seq![]
    } else {
        let prev = scan_spec(s.drop_last(), parent, depth, expanded);
        let (d, name) = s.last();
        let rel = child_rel(parent, name);
        if name == git_dir_name() || rel.len() == 0 {
            prev
        } else {
            prev.push((name, rel, d, d && (depth == 0 || expanded.contains(rel))))
        }
    }
}

/// A kept child as (name, path, is directory, descend).
pub open spec fn child_view(c: ScanChild) -> (Seq<char>, Seq<char>, bool, bool) {
    (c.name@, c.entry.path@, c.entry.is_dir, c.descend)
}

// ---------------------------------------------------------------------------
// Order lemmas
// ---------------------------------------------------------------------------

proof fn lemma_lex_refl(a: Seq<char>)
    ensures
        lex_le(a, a),
    decreases a.len(),
{
    if a.len() > 0 {
        lemma_lex_refl(a.drop_first());
    }
}

proof fn lemma_lex_antisym(a: Seq<char>, b: Seq<char>)
    requires
        lex_le(a, b),
        lex_le(b, a),
    ensures
        a == b,
    decreases a.len(),
{
    if a.len() > 0 && b.len() > 0 {
        lemma_lex_antisym(a.drop_first(), b.drop_first());
        assert(a =~= seq![a[0]] + a.drop_first());
        assert(b =~= seq![b[0]] + b.drop_first());
    }
}

proof fn lemma_lex_trans(a: Seq<char>, b: Seq<char>, c: Seq<char>)
    requires
        lex_le(a, b),
        lex_le(b, c),
    ensures
        lex_le(a, c),
    decreases a.len(),
{
    if a.len() > 0 && b.len() > 0 && c.len() > 0 {
        if a[0] == b[0] && b[0] == c[0] {
            lemma_lex_trans(a.drop_first(), b.drop_first(), c.drop_first());
        }
    }
}

proof fn lemma_lex_total(a: Seq<char>, b: Seq<char>)
    ensures
        lex_le(a, b) || lex_le(b, a),
    decreases a.len(),
{
    if a.len() > 0 && b.len() > 0 {
        if a[0] == b[0] {
            lemma_lex_total(a.drop_first(), b.drop_first());
        } else {
            vstd::utf8::char_u32_cast(a[0], a[0] as u32);
            vstd::utf8::char_u32_cast(b[0], b[0] as u32);
        }
    }
}

/// Listing order is a total order.
pub proof fn lemma_item_order()
    ensures
        total_ordering(|a: (bool, Seq<char>), b: (bool, Seq<char>)| item_le(a, b)),
{
    let r = |a: (bool, Seq<char>), b: (bool, Seq<char>)| item_le(a, b);
    assert forall|a: (bool, Seq<char>)| #[trigger] r(a, a) by {
        lemma_lex_refl(a.1);
    }
    assert forall|a: (bool, Seq<char>), b: (bool, Seq<char>)| #[trigger] r(a, b) && #[trigger] r(b, a) implies a == b by {
        lemma_lex_antisym(a.1, b.1);
    }
    assert forall|a: (bool, Seq<char>), b: (bool, Seq<char>), c: (bool, Seq<char>)| #[trigger] r(a, b) && #[trigger] r(b, c) implies r(a, c) by {
        if a.0 == b.0 && b.0 == c.0 {
            lemma_lex_trans(a.1, b.1, c.1);
        }
    }
    assert forall|a: (bool, Seq<char>), b: (bool, Seq<char>)| #[trigger] r(a, b) || #[trigger] r(b, a) by {
        lemma_lex_total(a.1, b.1);
    }
    assert(vstd::relations::reflexive(r));
    assert(vstd::relations::antisymmetric(r));
    assert(vstd::relations::transitive(r));
    assert(vstd::relations::strongly_connected(r));
}

// ---------------------------------------------------------------------------
// Executable parts
// ---------------------------------------------------------------------------

/// `a` comes before `b` or equals it, by character code.
fn lex_le_exec(a: &[char], b: &[char]) -> (r: bool)
    ensures
        r == lex_le(a@, b@),
{
    let mut i: usize = 0;
    proof {
        assert(a@.skip(0) =~= a@);
        assert(b@.skip(0) =~= b@);
    }
    loop
        invariant
            i <= a@.len(),
            i <= b@.len(),
            lex_le(a@, b@) == lex_le(a@.skip(i as int), b@.skip(i as int)),
        decreases a@.len() - i,
    {
        let ghost sa = a@.skip(i as int);
        let ghost sb = b@.skip(i as int);
        if i == a.len() {
            return true;
        }
        if i == b.len() {
            return false;
        }
        proof {
            assert(sa[0] == a@[i as int]);
            assert(sb[0] == b@[i as int]);
            assert(sa.drop_first() =~= a@.skip(i + 1));
            assert(sb.drop_first() =~= b@.skip(i + 1));
        }
        if a[i] != b[i] {
            return (a[i] as u32) < (b[i] as u32);
        }
        i += 1;
    }
}

/// The listing in listing order: directories first, each group by name.
pub fn sort_listing(listing: Vec<DirItem>) -> (r: Vec<DirItem>)
    ensures
        items_view(r@) == items_view(listing@).sort_by(
            |a: (bool, Seq<char>), b: (bool, Seq<char>)| item_le(a, b),
        ),
{
    let ghost leq = |a: (bool, Seq<char>), b: (bool, Seq<char>)| item_le(a, b);
    proof {
        lemma_item_order();
    }
    let ghost src = items_view(listing@);
    let mut out: Vec<DirItem> = Vec::new();
    let mut keys: Vec<Vec<char>> = Vec::new();
    let mut rest = listing;
    let mut taken: usize = 0;
    // Items are taken from the front of `listing`: reverse once so that `pop`
    // hands them out in order.
    let mut rev: Vec<DirItem> = Vec::new();
    while rest.len() > 0
        invariant
            items_view(rev@) + items_view(rest@).reverse() == src.reverse(),
        decreases rest@.len(),
    {
        let ghost before_rest = rest@;
        let x = rest.pop().unwrap();
        proof {
            assert(before_rest =~= rest@.push(x));
            assert(items_view(before_rest) =~= items_view(rest@).push(item_view(x)));
            assert(items_view(before_rest).reverse() =~= seq![item_view(x)] + items_view(rest@).reverse());
            assert(items_view(rev@.push(x)) =~= items_view(rev@).push(item_view(x)));
        }
        rev.push(x);
        proof {
            assert(items_view(rev@) + items_view(rest@).reverse() =~= src.reverse());
        }
    }
    proof {
        assert(items_view(rest@).reverse() =~= Seq::<(bool, Seq<char>)>::empty());
        assert(items_view(rev@) =~= src.reverse());
    }
    while rev.len() > 0
        invariant
            total_ordering(leq),
            leq == (|a: (bool, Seq<char>), b: (bool, Seq<char>)| item_le(a, b)),
            src.len() == out@.len() + rev@.len(),
            items_view(rev@) == src.reverse().take(rev@.len() as int),
            keys@.len() == out@.len(),
            forall|k: int| 0 <= k < keys@.len() ==> (#[trigger] keys@[k])@ == out@[k].name@,
            sorted_by(items_view(out@), leq),
            items_view(out@).to_multiset() == src.take(out@.len() as int).to_multiset(),
        decreases rev@.len(),
    {
        let ghost done = out@.len();
        let x = rev.pop().unwrap();
        proof {
            assert(item_view(x) == src[done as int]) by {
                assert(src.reverse().take((rev@.len() + 1) as int)[rev@.len() as int] == item_view(x));
            }
            assert(items_view(rev@) =~= src.reverse().take(rev@.len() as int));
        }
        let xk = chars_of(x.name.as_str());
        // Position: after every item that is not greater than `x`.
        let mut p: usize = 0;
        while p < out.len() && item_le_exec(out[p].is_dir, keys[p].as_slice(), x.is_dir, xk.as_slice())
            invariant
                p <= out@.len(),
                keys@.len() == out@.len(),
                forall|k: int| 0 <= k < keys@.len() ==> (#[trigger] keys@[k])@ == out@[k].name@,
                forall|k: int| 0 <= k < p ==> leq(#[trigger] items_view(out@)[k], item_view(x)),
                xk@ == x.name@,
                leq == (|a: (bool, Seq<char>), b: (bool, Seq<char>)| item_le(a, b)),
            decreases out@.len() - p,
        {
            proof {
                assert(items_view(out@)[p as int] == item_view(out@[p as int]));
                assert(keys@[p as int]@ == out@[p as int].name@);
            }
            p += 1;
        }
        let ghost ov = items_view(out@);
        proof {
            if p < out@.len() {
                assert(ov[p as int] == item_view(out@[p as int]));
                assert(!leq(ov[p as int], item_view(x)));
            }
        }
        out.insert(p, x);
        keys.insert(p, xk);
        proof {
            let nv = items_view(out@);
            assert(nv =~= ov.insert(p as int, item_view(x)));
            assert forall|i: int, j: int| 0 <= i < j < nv.len() implies #[trigger] leq(nv[i], nv[j]) by {
                if j < p {
                    assert(nv[i] == ov[i] && nv[j] == ov[j]);
                } else if j == p {
                    assert(nv[i] == ov[i]);
                } else if i < p {
                    assert(nv[i] == ov[i] && nv[j] == ov[j - 1]);
                    assert(leq(ov[i], item_view(x)));
                    assert(leq(item_view(x), ov[p as int]));
                    if p < j - 1 {
                        assert(leq(ov[p as int], ov[j - 1]));
                    }
                } else if i == p {
                    assert(nv[j] == ov[j - 1]);
                    assert(leq(item_view(x), ov[p as int]));
                    if p < j - 1 {
                        assert(leq(ov[p as int], ov[j - 1]));
                    }
                } else {
                    assert(nv[i] == ov[i - 1] && nv[j] == ov[j - 1]);
                }
            }
            vstd::seq_lib::to_multiset_insert(ov, p as int, item_view(x));
            assert(src.take((done + 1) as int) =~= src.take(done as int).push(src[done as int]));
            vstd::seq_lib::to_multiset_build(src.take(done as int), src[done as int]);
            assert forall|k: int| 0 <= k < keys@.len() implies (#[trigger] keys@[k])@ == out@[k].name@ by {
                if k < p {
                } else if k == p {
                } else {
                }
            }
        }
    }
    proof {
        assert(src.take(src.len() as int) =~= src);
        src.lemma_sort_by_ensures(leq);
        vstd::seq_lib::lemma_sorted_unique(items_view(out@), src.sort_by(leq), leq);
    }
    out
}

/// `item_le` on (is directory, name) pairs.
fn item_le_exec(ad: bool, an: &[char], bd: bool, bn: &[char]) -> (r: bool)
    ensures
        r == item_le((ad, an@), (bd, bn@)),
{
    (ad && !bd) || (ad == bd && lex_le_exec(an, bn))
}

impl GitStatusManager {
    /// What the tree scan keeps of one directory's listing. `dir_name` is the
    /// directory's own name (nothing is kept inside `.git`), `parent_rel` its path
    /// relative to the working directory and `depth` the depth of its children.
    /// Children come in listing order (directories first, then by name).
    pub fn scan_directory(&self, dir_name: &str, parent_rel: &str, depth: usize, listing: Vec<DirItem>) -> (r: Vec<ScanChild>)
        ensures
            dir_name@ == git_dir_name() ==> r@.len() == 0,
            dir_name@ != git_dir_name() ==> r@.map_values(|c: ScanChild| child_view(c)) == scan_spec(
                items_view(listing@).sort_by(|a: (bool, Seq<char>), b: (bool, Seq<char>)| item_le(a, b)),
                parent_rel@,
                depth,
                self.expanded(),
            ),
            forall|i: int| 0 <= i < r@.len() ==> (#[trigger] r@[i]).entry.status == GitStatus::Clean
                && r@[i].entry.depth == depth,
    {
        let git_name: Vec<char> = vec!['.', 'g', 'i', 't'];
        proof {
            assert(git_name@ =~= git_dir_name());
        }
        let dn = chars_of(dir_name);
        let mut out: Vec<ScanChild> = Vec::new();
        if chars_eq(dn.as_slice(), git_name.as_slice()) {
            return out;
        }
        let sorted = sort_listing(listing);
        let ghost s = items_view(sorted@);
        let parent = chars_of(parent_rel);
        let mut i: usize = 0;
        while i < sorted.len()
            invariant
                i <= sorted@.len(),
                s == items_view(sorted@),
                parent@ == parent_rel@,
                git_name@ == git_dir_name(),
                out@.map_values(|c: ScanChild| child_view(c)) == scan_spec(s.take(i as int), parent_rel@, depth, self.expanded()),
                forall|k: int| 0 <= k < out@.len() ==> (#[trigger] out@[k]).entry.status == GitStatus::Clean
                    && out@[k].entry.depth == depth,
            decreases sorted@.len() - i,
        {
            let ghost before = out@.map_values(|c: ScanChild| child_view(c));
            proof {
                assert(s.take(i + 1).drop_last() =~= s.take(i as int));
                assert(s.take(i + 1).last() == s[i as int]);
                assert(s[i as int] == item_view(sorted@[i as int]));
            }
            let name = chars_of(sorted[i].name.as_str());
            let is_dir = sorted[i].is_dir;
            // path of the child relative to the working directory
            let mut joined: Vec<char> = Vec::new();
            let mut k: usize = 0;
            while k < parent.len()
                invariant
                    k <= parent@.len(),
                    joined@ == parent@.take(k as int),
                decreases parent@.len() - k,
            {
                joined.push(parent[k]);
                k += 1;
                proof {
                    assert(joined@ =~= parent@.take(k as int));
                }
            }
            if parent.len() > 0 {
                joined.push('/');
            }
            let ghost jbase = joined@;
            let mut k: usize = 0;
            while k < name.len()
                invariant
                    k <= name@.len(),
                    joined@ == jbase + name@.take(k as int),
                decreases name@.len() - k,
            {
                joined.push(name[k]);
                k += 1;
                proof {
                    assert(joined@ =~= jbase + name@.take(k as int));
                }
            }
            proof {
                assert(parent@.take(parent@.len() as int) =~= parent@);
                assert(name@.take(name@.len() as int) =~= name@);
                if parent@.len() == 0 {
                    assert(joined@ =~= name@);
                } else {
                    assert(joined@ =~= parent@ + seq!['/'] + name@);
                }
            }
            let replaced = replace_char_exec(joined.as_slice(), '\\', '/');
            let rel = trim_start_char_exec(replaced.as_slice(), '/');
            if !chars_eq(name.as_slice(), git_name.as_slice()) && rel.len() > 0 {
                let rel_s = string_of(rel.as_slice(), 0, rel.len());
                proof {
                    assert(rel@.subrange(0, rel@.len() as int) =~= rel@);
                }
                let descend = is_dir && (depth == 0 || self.is_expanded(rel_s.as_str()));
                let child = ScanChild {
                    name: sorted[i].name.clone(),
                    entry: FileEntry { path: rel_s, status: GitStatus::Clean, is_dir, depth },
                    descend,
                };
                out.push(child);
                proof {
                    assert(out@.map_values(|c: ScanChild| child_view(c)) =~= before.push(child_view(child)));
                }
            }
            i += 1;
        }
        proof {
            assert(s.take(i as int) =~= s);
        }
        out
    }
}

// ---------------------------------------------------------------------------
// The whole walk
// ---------------------------------------------------------------------------

/// A directory as it was read: its listing, and the trees read for some of its
/// subdirectories (by name; a subdirectory that was not read counts as empty).
pub struct DirTree {
    pub items: Vec<DirItem>,
    pub subdirs: Vec<SubTree>,
}

/// The tree read for the subdirectory `name`.
pub struct SubTree {
    pub name: String,
    pub tree: DirTree,
}

/// A tree entry as (path, is directory, depth).
pub open spec fn entry_view(e: FileEntry) -> (Seq<char>, bool, usize) {
    (e.path@, e.is_dir, e.depth)
}

pub open spec fn entry_views(v: Seq<FileEntry>) -> Seq<(Seq<char>, bool, usize)> {
    v.map_values(|e: FileEntry| entry_view(e))
}

/// Index of the first subdirectory tree of `t` named `name`, among the first `n`.
pub open spec fn find_subtree(t: DirTree, name: Seq<char>, n: int) -> Option<int>
    decreases n,
{
    if n <= 0 {
        None
    } else {
        match find_subtree(t, name, n - 1) {
            Some(j) => Some(j),
            None => if t.subdirs@[n - 1].name@ == name {
                Some(n - 1)
            } else {
                None
            },
        }
    }
}

/// The kept children of a directory read as `t` (see `scan_spec`).
pub open spec fn tree_children(
    t: DirTree,
    rel: Seq<char>,
    depth: usize,
    expanded: Set<Seq<char>>,
) -> Seq<(Seq<char>, Seq<char>, bool, bool)> {
    scan_spec(
        items_view(t.items@).sort_by(|a: (bool, Seq<char>), b: (bool, Seq<char>)| item_le(a, b)),
        rel,
        depth,
        expanded,
    )
}

/// The entries the scan lists for the directory read as `t`, named `dir_name`,
/// at path `rel`, whose children lie at `depth`: in pre-order, each kept child
/// followed by what lies under it when the scan descends into it.
pub open spec fn walk_tree(
    t: DirTree,
    dir_name: Seq<char>,
    rel: Seq<char>,
    depth: usize,
    expanded: Set<Seq<char>>,
) -> Seq<(Seq<char>, bool, usize)>
    decreases t, 1int, 0int,
{
    if dir_name == git_dir_name() {
        seq![]
    } else {
        walk_kids(t, tree_children(t, rel, depth, expanded), tree_children(t, rel, depth, expanded).len() as int, depth, expanded)
    }
}

/// The walk over the first `n` kept children `kids` of the directory read as `t`.
pub open spec fn walk_kids(
    t: DirTree,
    kids: Seq<(Seq<char>, Seq<char>, bool, bool)>,
    n: int,
    depth: usize,
    expanded: Set<Seq<char>>,
) -> Seq<(Seq<char>, bool, usize)>
    decreases t, 0int, n,
{
    if n <= 0 || n > kids.len() {
        seq![]
    } else {
        let (name, path, is_dir, descend) = kids[n - 1];
        let below = if descend {
            match find_subtree(t, name, t.subdirs@.len() as int) {
                Some(j) => if 0 <= j < t.subdirs@.len() {
                    walk_tree(t.subdirs@[j].tree, name, path, (depth + 1) as usize, expanded)
                } else {
                    seq![]
                },
                None => seq![],
            }
        } else {
            seq![]
        };
        walk_kids(t, kids, n - 1, depth, expanded) + seq![(path, is_dir, depth)] + below
    }
}

/// How many levels of subdirectory trees lie under `t`.
pub open spec fn tree_height(t: DirTree) -> nat
    decreases t, 1int, 0int,
{
    subs_height(t, t.subdirs@.len() as int)
}

/// The greatest height among the first `n` subdirectory trees of `t`, plus one.
pub open spec fn subs_height(t: DirTree, n: int) -> nat
    decreases t, 0int, n,
{
    if n <= 0 || n > t.subdirs@.len() {
        0
    } else {
        let h = 1 + tree_height(t.subdirs@[n - 1].tree);
        let rest = subs_height(t, n - 1);
        if h > rest {
            h
        } else {
            rest
        }
    }
}

/// A subdirectory tree is at least one level lower than its parent tree.
pub proof fn lemma_subs_height(t: DirTree, n: int, j: int)
    requires
        0 <= j < n <= t.subdirs@.len(),
    ensures
        subs_height(t, n) >= 1 + tree_height(t.subdirs@[j].tree),
    decreases n,
{
    if j < n - 1 {
        lemma_subs_height(t, n - 1, j);
    }
}

proof fn lemma_find_subtree(t: DirTree, name: Seq<char>, n: int)
    requires
        0 <= n <= t.subdirs@.len(),
    ensures
        find_subtree(t, name, n) matches Some(j) ==> 0 <= j < n && t.subdirs@[j].name@ == name,
    decreases n,
{
    if n > 0 {
        lemma_find_subtree(t, name, n - 1);
    }
}

/// Copies of the listing's items.
fn copy_items(v: &Vec<DirItem>) -> (r: Vec<DirItem>)
    ensures
        items_view(r@) == items_view(v@),
{
    let mut r: Vec<DirItem> = Vec::new();
    let mut i: usize = 0;
    while i < v.len()
        invariant
            i <= v@.len(),
            items_view(r@) == items_view(v@.take(i as int)),
        decreases v@.len() - i,
    {
        let ghost before = r@;
        let item = DirItem { name: v[i].name.clone(), is_dir: v[i].is_dir };
        proof {
            assert(item_view(item) == item_view(v@[i as int]));
        }
        r.push(item);
        proof {
            assert(items_view(r@) =~= items_view(before).push(item_view(item)));
            assert(v@.take(i + 1) =~= v@.take(i as int).push(v@[i as int]));
            assert(items_view(v@.take(i + 1)) =~= items_view(v@.take(i as int)).push(item_view(v@[i as int])));
        }
        i += 1;
    }
    proof {
        assert(v@.take(i as int) =~= v@);
    }
    r
}

impl DirTree {
    /// Index of the first subdirectory tree named `name`.
    fn find_subtree_exec(&self, name: &str) -> (r: Option<usize>)
        ensures
            match r {
                Some(j) => find_subtree(*self, name@, self.subdirs@.len() as int) == Some(j as int),
                None => find_subtree(*self, name@, self.subdirs@.len() as int) is None,
            },
    {
        let mut i: usize = 0;
        while i < self.subdirs.len()
            invariant
                i <= self.subdirs@.len(),
                find_subtree(*self, name@, i as int) is None,
            decreases self.subdirs@.len() - i,
        {
            if crate::text::str_eq(self.subdirs[i].name.as_str(), name) {
                proof {
                    lemma_find_subtree_from(*self, name@, i as int, self.subdirs@.len() as int);
                }
                return Some(i);
            }
            i += 1;
        }
        None
    }
}

proof fn lemma_find_subtree_from(t: DirTree, name: Seq<char>, i: int, n: int)
    requires
        0 <= i < n <= t.subdirs@.len(),
        find_subtree(t, name, i) is None,
        t.subdirs@[i].name@ == name,
    ensures
        find_subtree(t, name, n) == Some(i),
    decreases n,
{
    if n > i + 1 {
        lemma_find_subtree_from(t, name, i, n - 1);
    }
}

impl GitStatusManager {
    /// Lists, in pre-order, what the scan keeps of the directory read as `tree`
    /// (named `dir_name`, at path `rel`, its children at `depth`), appending to
    /// `entries`: each kept child, then what lies under it when the scan descends
    /// into it. Every listed entry is clean.
    pub fn collect_all_files(
        &self,
        tree: &DirTree,
        dir_name: &str,
        rel: &str,
        depth: usize,
        entries: &mut Vec<FileEntry>,
    )
        requires
            depth + tree_height(*tree) <= usize::MAX,
        ensures
            entry_views(final(entries)@) == entry_views(old(entries)@) + walk_tree(
                *tree,
                dir_name@,
                rel@,
                depth,
                self.expanded(),
            ),
            forall|i: int| 0 <= i < old(entries)@.len() ==> #[trigger] final(entries)@[i] == old(entries)@[i],
            forall|i: int|
                old(entries)@.len() <= i < final(entries)@.len() ==> (#[trigger] final(entries)@[i]).status
                    == GitStatus::Clean,
        decreases tree,
    {
        let ghost start = entries@;
        let kids = self.scan_directory(dir_name, rel, depth, copy_items(&tree.items));
        let ghost kv = kids@.map_values(|c: ScanChild| child_view(c));
        proof {
            if dir_name@ == git_dir_name() {
                assert(walk_tree(*tree, dir_name@, rel@, depth, self.expanded()) =~= Seq::<(Seq<char>, bool, usize)>::empty());
                assert(entry_views(entries@) =~= entry_views(start) + Seq::<(Seq<char>, bool, usize)>::empty());
            } else {
                assert(kv == tree_children(*tree, rel@, depth, self.expanded()));
            }
        }
        let mut i: usize = 0;
        while i < kids.len()
            invariant
                i <= kids@.len(),
                kv == kids@.map_values(|c: ScanChild| child_view(c)),
                dir_name@ != git_dir_name() ==> kv == tree_children(*tree, rel@, depth, self.expanded()),
                dir_name@ == git_dir_name() ==> kids@.len() == 0,
                forall|k: int| 0 <= k < kids@.len() ==> (#[trigger] kids@[k]).entry.status == GitStatus::Clean
                    && kids@[k].entry.depth == depth,
                depth + tree_height(*tree) <= usize::MAX,
                entry_views(entries@) == entry_views(start) + walk_kids(*tree, kv, i as int, depth, self.expanded()),
                forall|k: int| 0 <= k < start.len() ==> #[trigger] entries@[k] == start[k],
                forall|k: int| start.len() <= k < entries@.len() ==> (#[trigger] entries@[k]).status == GitStatus::Clean,
            decreases kids@.len() - i,
        {
            let ghost before = entries@;
            let c = &kids[i];
            proof {
                assert(kv[i as int] == child_view(kids@[i as int]));
            }
            entries.push(c.entry.duplicate());
            proof {
                assert(entry_views(entries@) =~= entry_views(before).push((c.entry.path@, c.entry.is_dir, depth)));
            }
            let ghost mid = entries@;
            let ghost below = if kv[i as int].3 {
                match find_subtree(*tree, kv[i as int].0, tree.subdirs@.len() as int) {
                    Some(j) => if 0 <= j < tree.subdirs@.len() {
                        walk_tree(tree.subdirs@[j].tree, kv[i as int].0, kv[i as int].1, (depth + 1) as usize, self.expanded())
                    } else {
                        seq![]
                    },
                    None => seq![],
                }
            } else {
                seq![]
            };
            proof {
                assert(walk_kids(*tree, kv, i + 1, depth, self.expanded()) == walk_kids(*tree, kv, i as int, depth, self.expanded())
                    + seq![(kv[i as int].1, kv[i as int].2, depth)] + below);
            }
            if c.descend {
                match tree.find_subtree_exec(c.name.as_str()) {
                    Some(j) => {
                        proof {
                            lemma_find_subtree(*tree, c.name@, tree.subdirs@.len() as int);
                            lemma_subs_height(*tree, tree.subdirs@.len() as int, j as int);
                            assert(decreases_to!(*tree => tree.subdirs@[j as int].tree));
                        }
                        self.collect_all_files(
                            &tree.subdirs[j].tree,
                            c.name.as_str(),
                            c.entry.path.as_str(),
                            depth + 1,
                            entries,
                        );
                        proof {
                            assert(kv[i as int].0 == c.name@);
                            assert(kv[i as int].1 == c.entry.path@);
                            assert(find_subtree(*tree, kv[i as int].0, tree.subdirs@.len() as int) == Some(j as int));
                            assert(below == walk_tree(tree.subdirs@[j as int].tree, c.name@, c.entry.path@, (depth + 1) as usize, self.expanded()));
                            assert(entry_views(entries@) == entry_views(mid) + below);
                        }
                    },
                    None => {
                        proof {
                            assert(below =~= Seq::<(Seq<char>, bool, usize)>::empty());
                            assert(entry_views(entries@) =~= entry_views(mid) + below);
                        }
                    },
                }
            } else {
                proof {
                    assert(entry_views(entries@) =~= entry_views(mid) + below);
                }
            }
            proof {
                assert(entry_views(entries@) =~= entry_views(start) + walk_kids(*tree, kv, i + 1, depth, self.expanded()));
            }
            i += 1;
        }
        proof {
            if dir_name@ != git_dir_name() {
                assert(walk_tree(*tree, dir_name@, rel@, depth, self.expanded()) == walk_kids(*tree, kv, kv.len() as int, depth, self.expanded()));
            }
        }
    }

    /// Everything the scan lists under the working directory (named `root_name`,
    /// read as `tree`), in pre-order from the top level (depth 0).
    pub fn get_all_files(&self, root_name: &str, tree: &DirTree) -> (r: Vec<FileEntry>)
        requires
            tree_height(*tree) <= usize::MAX,
        ensures
            entry_views(r@) == walk_tree(*tree, root_name@, ""@, 0, self.expanded()),
            forall|i: int| 0 <= i < r@.len() ==> (#[trigger] r@[i]).status == GitStatus::Clean,
    {
        let mut entries: Vec<FileEntry> = Vec::new();
        self.collect_all_files(tree, root_name, "", 0, &mut entries);
        proof {
            assert(entry_views(Seq::<FileEntry>::empty()) =~= Seq::<(Seq<char>, bool, usize)>::empty());
        }
        entries
    }
}

} // verus!
