use vstd::prelude::*;
use crate::git::{priority_of, FileEntry, GitStatus, StatusEntry};
use crate::path::{named_ancestors, named_ancestors_within, parent_of, path_parent};
use crate::text::{chars_eq, chars_of, replace_char, replace_char_exec, str_eq};

verus! {

/// The entry with its status replaced.
pub open spec fn with_status(e: FileEntry, s: GitStatus) -> FileEntry {
    FileEntry { path: e.path, status: s, is_dir: e.is_dir, depth: e.depth }
}

/// Status entries as (path, status) pairs.
pub open spec fn status_pairs(v: Seq<StatusEntry>) -> Seq<(Seq<char>, GitStatus)> {
    v.map_values(|e: StatusEntry| (e.path@, e.status))
}

/// Index of the last entry among the first `n` whose path is `p`.
pub open spec fn last_index_below(es: Seq<FileEntry>, p: Seq<char>, n: int) -> Option<int>
    decreases n,
{
    if n <= 0 {
        None
    } else if es[n - 1].path@ == p {
        Some(n - 1)
    } else {
        last_index_below(es, p, n - 1)
    }
}

/// Index of the last entry whose path is `p` (what a path index built by
/// inserting every entry in order finds).
pub open spec fn last_index_with_path(es: Seq<FileEntry>, p: Seq<char>) -> Option<int> {
    last_index_below(es, p, es.len() as int)
}

/// Status of the last pair among the first `n` whose path is `p`.
pub open spec fn last_status_below(sts: Seq<(Seq<char>, GitStatus)>, p: Seq<char>, n: int) -> Option<
    GitStatus,
>
    decreases n,
{
    if n <= 0 {
        None
    } else if sts[n - 1].0 == p {
        Some(sts[n - 1].1)
    } else {
        last_status_below(sts, p, n - 1)
    }
}

/// Every entry that git reported takes the status git reported last for its path.
pub open spec fn overlay_spec(es: Seq<FileEntry>, sts: Seq<(Seq<char>, GitStatus)>) -> Seq<FileEntry> {
    Seq::new(
        es.len(),
        |i: int|
            match last_status_below(sts, es[i].path@, sts.len() as int) {
                Some(s) => with_status(es[i], s),
                None => es[i],
            },
    )
}

/// Raises the entry for path `a` (the last one with that path) to status `s`
/// when its priority is lower.
pub open spec fn raise_one(es: Seq<FileEntry>, a: Seq<char>, s: GitStatus) -> Seq<FileEntry> {
    match last_index_with_path(es, a) {
        Some(idx) => if priority_of(es[idx].status) < priority_of(s) {
            es.update(idx, with_status(es[idx], s))
        } else {
            es
        },
        None => es,
    }
}

/// `raise_one` for each path of `ancs`, in order.
pub open spec fn raise_along(es: Seq<FileEntry>, ancs: Seq<Seq<char>>, s: GitStatus) -> Seq<FileEntry>
    decreases ancs.len(),
{
    if ancs.len() == 0 {
        es
    } else {
        raise_along(raise_one(es, ancs[0], s), ancs.drop_first(), s)
    }
}

/// For each reported path in order (ignored ones skipped), every listed parent
/// directory is raised to the reported status.
pub open spec fn apply_git_paths_spec(es: Seq<FileEntry>, sts: Seq<(Seq<char>, GitStatus)>) -> Seq<
    FileEntry,
>
    decreases sts.len(),
{
    if sts.len() == 0 {
        es
    } else {
        let st = sts[0];
        let next = if st.1 == GitStatus::Ignored {
            es
        } else {
            raise_along(es, named_ancestors(st.0), st.1)
        };
        apply_git_paths_spec(next, sts.drop_first())
    }
}

/// The directory a path belongs to in the tree: its parent with `/` separators,
/// unless that is empty or `.`.
pub open spec fn parent_key(p: Seq<char>) -> Option<Seq<char>> {
    match path_parent(p) {
        Some(q) => {
            let s = replace_char(q, '\\', '/');
            if s.len() == 0 || s == seq!['.'] {
                None
            } else {
                Some(s)
            }
        },
        None => None,
    }
}

/// The strongest status among `acc` and the children (within the first `n`
/// entries, in order) of the directory `target`; ignored children do not count and
/// a child wins only with a strictly higher priority.
pub open spec fn strongest_below(es: Seq<FileEntry>, target: Seq<char>, acc: GitStatus, n: int) -> GitStatus
    decreases n,
{
    if n <= 0 {
        acc
    } else {
        let a = strongest_below(es, target, acc, n - 1);
        let c = es[n - 1];
        if parent_key(c.path@) == Some(target) && c.status != GitStatus::Ignored && priority_of(
            c.status,
        ) > priority_of(a) {
            c.status
        } else {
            a
        }
    }
}

/// A directory takes the strongest status of itself and its children; files stay.
pub open spec fn propagate_one(es: Seq<FileEntry>, i: int) -> Seq<FileEntry> {
    if !es[i].is_dir {
        es
    } else {
        es.update(i, with_status(es[i], strongest_below(es, es[i].path@, es[i].status, es.len() as int)))
    }
}

/// `propagate_one` for each index of `order`, in order.
pub open spec fn propagate_seq(es: Seq<FileEntry>, order: Seq<int>) -> Seq<FileEntry>
    decreases order.len(),
{
    if order.len() == 0 {
        es
    } else {
        propagate_seq(propagate_one(es, order[0]), order.drop_first())
    }
}

/// Indices below `n`, ascending, of the entries at depth `d`.
pub open spec fn depth_bucket(es: Seq<FileEntry>, d: int, n: int) -> Seq<int>
    decreases n,
{
    if n <= 0 {
        seq![]
    } else if es[n - 1].depth == d {
        depth_bucket(es, d, n - 1).push(n - 1)
    } else {
        depth_bucket(es, d, n - 1)
    }
}

/// Indices ordered by depth from `d` down to 0, ascending within one depth
/// (a stable sort by decreasing depth).
pub open spec fn order_from_depth(es: Seq<FileEntry>, d: int) -> Seq<int>
    decreases d + 1,
{
    if d < 0 {
        seq![]
    } else {
        depth_bucket(es, d, es.len() as int) + order_from_depth(es, d - 1)
    }
}

/// Greatest depth among the entries (0 when there are none).
pub open spec fn max_depth(es: Seq<FileEntry>) -> int
    decreases es.len(),
{
    if es.len() == 0 {
        0
    } else {
        let m = max_depth(es.drop_last());
        if es.last().depth > m {
            es.last().depth as int
        } else {
            m
        }
    }
}

/// Folder status propagation: directories are visited deepest first (stable
/// order within one depth), each taking the strongest status among itself and
/// its children as they stand at that moment.
pub open spec fn propagate_spec(es: Seq<FileEntry>) -> Seq<FileEntry> {
    propagate_seq(es, order_from_depth(es, max_depth(es)))
}

/// Two entry lists that differ at most in statuses.
pub open spec fn same_shape(a: Seq<FileEntry>, b: Seq<FileEntry>) -> bool {
    &&& a.len() == b.len()
    &&& forall|i: int|
        0 <= i < a.len() ==> (#[trigger] a[i]).path == b[i].path && a[i].is_dir == b[i].is_dir
            && a[i].depth == b[i].depth
}

// ---------------------------------------------------------------------------
// Lemmas
// ---------------------------------------------------------------------------

proof fn lemma_last_index_below(es: Seq<FileEntry>, p: Seq<char>, n: int)
    requires
        0 <= n <= es.len(),
    ensures
        last_index_below(es, p, n) matches Some(i) ==> 0 <= i < n && es[i].path@ == p,
    decreases n,
{
    if n > 0 && es[n - 1].path@ != p {
        lemma_last_index_below(es, p, n - 1);
    }
}

/// The entry found for a path is one with that path.
pub proof fn lemma_last_index_in_range(es: Seq<FileEntry>, p: Seq<char>)
    ensures
        last_index_with_path(es, p) matches Some(i) ==> 0 <= i < es.len() && es[i].path@ == p,
{
    lemma_last_index_below(es, p, es.len() as int);
}

proof fn lemma_last_index_same_shape(a: Seq<FileEntry>, b: Seq<FileEntry>, p: Seq<char>, n: int)
    requires
        same_shape(a, b),
        0 <= n <= a.len(),
    ensures
        last_index_below(a, p, n) == last_index_below(b, p, n),
    decreases n,
{
    if n > 0 {
        assert(a[n - 1].path == b[n - 1].path);
        lemma_last_index_same_shape(a, b, p, n - 1);
    }
}

proof fn lemma_propagate_seq_append(es: Seq<FileEntry>, a: Seq<int>, b: Seq<int>)
    ensures
        propagate_seq(es, a + b) == propagate_seq(propagate_seq(es, a), b),
    decreases a.len(),
{
    if a.len() > 0 {
        assert((a + b).drop_first() =~= a.drop_first() + b);
        assert((a + b)[0] == a[0]);
        lemma_propagate_seq_append(propagate_one(es, a[0]), a.drop_first(), b);
    } else {
        assert(a + b =~= b);
    }
}

proof fn lemma_propagate_seq_single(es: Seq<FileEntry>, i: int)
    ensures
        propagate_seq(es, seq![i]) == propagate_one(es, i),
{
    assert(seq![i].drop_first() =~= Seq::<int>::empty());
    assert(seq![i][0] == i);
    assert(propagate_seq(propagate_one(es, i), Seq::<int>::empty()) == propagate_one(es, i));
}

proof fn lemma_bucket_empty(es: Seq<FileEntry>, d: int, n: int)
    requires
        0 <= n <= es.len(),
        forall|j: int| 0 <= j < n ==> es[j].depth != d,
    ensures
        depth_bucket(es, d, n) == Seq::<int>::empty(),
    decreases n,
{
    if n > 0 {
        lemma_bucket_empty(es, d, n - 1);
    }
}

/// Between two depths with no entry in between, the order does not change.
proof fn lemma_order_skip(es: Seq<FileEntry>, hi: int, lo: int)
    requires
        -1 <= lo <= hi,
        forall|j: int| 0 <= j < es.len() ==> !(lo < (#[trigger] es[j]).depth <= hi),
    ensures
        order_from_depth(es, hi) == order_from_depth(es, lo),
    decreases hi - lo,
{
    if hi > lo {
        lemma_bucket_empty(es, hi, es.len() as int);
        lemma_order_skip(es, hi - 1, lo);
        assert(order_from_depth(es, hi) =~= Seq::<int>::empty() + order_from_depth(es, hi - 1));
    }
}

proof fn lemma_max_depth(es: Seq<FileEntry>)
    ensures
        forall|j: int| 0 <= j < es.len() ==> es[j].depth <= max_depth(es),
        max_depth(es) >= 0,
    decreases es.len(),
{
    if es.len() > 0 {
        lemma_max_depth(es.drop_last());
        assert forall|j: int| 0 <= j < es.len() implies es[j].depth <= max_depth(es) by {
            if j < es.len() - 1 {
                assert(es.drop_last()[j] == es[j]);
            }
        }
    }
}

proof fn lemma_raise_one_shape(es: Seq<FileEntry>, a: Seq<char>, s: GitStatus)
    ensures
        same_shape(raise_one(es, a, s), es),
{
    lemma_last_index_below(es, a, es.len() as int);
}

proof fn lemma_raise_along_shape(es: Seq<FileEntry>, ancs: Seq<Seq<char>>, s: GitStatus)
    ensures
        same_shape(raise_along(es, ancs, s), es),
    decreases ancs.len(),
{
    if ancs.len() > 0 {
        lemma_raise_one_shape(es, ancs[0], s);
        lemma_raise_along_shape(raise_one(es, ancs[0], s), ancs.drop_first(), s);
    }
}

proof fn lemma_propagate_one_shape(es: Seq<FileEntry>, i: int)
    requires
        0 <= i < es.len(),
    ensures
        same_shape(propagate_one(es, i), es),
{
}

// ---------------------------------------------------------------------------
// Executable steps
// ---------------------------------------------------------------------------

/// Index of the last entry whose path is `p`.
fn last_index_exec(es: &Vec<FileEntry>, p: &str) -> (r: Option<usize>)
    ensures
        match r {
            Some(i) => last_index_with_path(es@, p@) == Some(i as int),
            None => last_index_with_path(es@, p@) is None,
        },
{
    let mut n = es.len();
    while n > 0
        invariant
            n <= es@.len(),
            last_index_with_path(es@, p@) == last_index_below(es@, p@, n as int),
        decreases n,
    {
        if str_eq(es[n - 1].path.as_str(), p) {
            return Some(n - 1);
        }
        n -= 1;
    }
    None
}

/// Replaces the status of entry `i`.
fn set_status(es: &mut Vec<FileEntry>, i: usize, s: GitStatus)
    requires
        i < old(es)@.len(),
    ensures
        final(es)@ == old(es)@.update(i as int, with_status(old(es)@[i as int], s)),
{
    let e = es[i].duplicate();
    let updated = FileEntry { path: e.path, status: s, is_dir: e.is_dir, depth: e.depth };
    es.set(i, updated);
}

/// Every entry takes the status git reported last for its path.
pub fn overlay_statuses(es: &mut Vec<FileEntry>, sts: &Vec<StatusEntry>)
    ensures
        final(es)@ == overlay_spec(old(es)@, status_pairs(sts@)),
{
    let ghost es0 = es@;
    let ghost pairs = status_pairs(sts@);
    let mut i: usize = 0;
    while i < es.len()
        invariant
            i <= es@.len() == es0.len(),
            pairs == status_pairs(sts@),
            forall|j: int| 0 <= j < i ==> es@[j] == #[trigger] overlay_spec(es0, pairs)[j],
            forall|j: int| i <= j < es0.len() ==> es@[j] == es0[j],
        decreases es0.len() - i,
    {
        let mut n = sts.len();
        let mut found: Option<GitStatus> = None;
        while n > 0
            invariant
                n <= sts@.len(),
                i < es@.len(),
                pairs == status_pairs(sts@),
                found is None ==> last_status_below(pairs, es@[i as int].path@, sts@.len() as int)
                    == last_status_below(pairs, es@[i as int].path@, n as int),
                found is Some ==> last_status_below(pairs, es@[i as int].path@, sts@.len() as int)
                    == found,
            decreases n,
        {
            if found.is_none() {
                if str_eq(sts[n - 1].path.as_str(), es[i].path.as_str()) {
                    found = Some(sts[n - 1].status);
                }
            }
            n -= 1;
        }
        match found {
            Some(s) => {
                set_status(es, i, s);
            },
            None => {},
        }
        i += 1;
    }
    proof {
        assert(es@ =~= overlay_spec(es0, pairs));
    }
}

/// Raises the tree entries of the parents of every reported path (ignored ones
/// skipped) to the reported status when theirs is weaker.
pub fn apply_status_from_git_paths(es: &mut Vec<FileEntry>, sts: &Vec<StatusEntry>)
    ensures
        final(es)@ == apply_git_paths_spec(old(es)@, status_pairs(sts@)),
{
    let ghost pairs = status_pairs(sts@);
    let ghost target = apply_git_paths_spec(es@, pairs);
    let mut k: usize = 0;
    proof {
        assert(pairs.skip(0) =~= pairs);
    }
    while k < sts.len()
        invariant
            k <= sts@.len(),
            pairs == status_pairs(sts@),
            target == apply_git_paths_spec(es@, pairs.skip(k as int)),
        decreases sts@.len() - k,
    {
        let ghost rest = pairs.skip(k as int);
        let ghost es_k = es@;
        proof {
            assert(rest.drop_first() =~= pairs.skip(k + 1));
            assert(rest[0] == pairs[k as int]);
            assert(rest.len() > 0);
        }
        let st = &sts[k];
        if st.status != GitStatus::Ignored {
            let ghost start = es@;
            let mut cur = st.path.clone();
            let ghost mut fuel: nat = (st.path@.len() + 1) as nat;
            proof {
                assert(raise_along(start, named_ancestors(st.path@), st.status) == raise_along(
                    es@,
                    named_ancestors_within(cur@, fuel),
                    st.status,
                ));
            }
            loop
                invariant
                    fuel >= cur@.len() + 1,
                    raise_along(start, named_ancestors(st.path@), st.status) == raise_along(
                        es@,
                        named_ancestors_within(cur@, fuel),
                        st.status,
                    ),
                ensures
                    es@ == raise_along(start, named_ancestors(st.path@), st.status),
                decreases cur@.len(),
            {
                match parent_of(cur.as_str()) {
                    None => {
                        proof {
                            assert(named_ancestors_within(cur@, fuel) =~= Seq::<Seq<char>>::empty());
                            assert(raise_along(es@, Seq::<Seq<char>>::empty(), st.status) == es@);
                        }
                        break;
                    },
                    Some(q) => {
                        let qc = chars_of(q.as_str());
                        let dot: Vec<char> = vec!['.'];
                        if qc.len() == 0 || chars_eq(qc.as_slice(), dot.as_slice()) {
                            proof {
                                assert(dot@ =~= seq!['.']);
                                assert(named_ancestors_within(cur@, fuel) =~= Seq::<
                                    Seq<char>,
                                >::empty());
                                assert(raise_along(es@, Seq::<Seq<char>>::empty(), st.status)
                                    == es@);
                            }
                            break;
                        }
                        proof {
                            assert(dot@ =~= seq!['.']);
                            let w = named_ancestors_within(q@, (fuel - 1) as nat);
                            assert((seq![q@] + w).drop_first() =~= w);
                        }
                        match last_index_exec(es, q.as_str()) {
                            Some(idx) => {
                                proof {
                                    lemma_last_index_below(es@, q@, es@.len() as int);
                                }
                                if es[idx].status.priority() < st.status.priority() {
                                    set_status(es, idx, st.status);
                                }
                            },
                            None => {},
                        }
                        cur = q;
                        proof {
                            fuel = (fuel - 1) as nat;
                        }
                    },
                }
            }
            proof {
                assert(raise_along(es@, Seq::<Seq<char>>::empty(), st.status) == es@);
                assert(pairs[k as int] == (st.path@, st.status));
                assert(es@ == raise_along(es_k, named_ancestors(st.path@), st.status));
                assert(apply_git_paths_spec(es_k, rest) == apply_git_paths_spec(
                    es@,
                    pairs.skip(k + 1),
                ));
            }
        } else {
            proof {
                assert(pairs[k as int] == (st.path@, st.status));
                assert(apply_git_paths_spec(es_k, rest) == apply_git_paths_spec(
                    es@,
                    pairs.skip(k + 1),
                ));
            }
        }
        k += 1;
    }
    proof {
        assert(pairs.skip(k as int) =~= Seq::<(Seq<char>, GitStatus)>::empty());
    }
}

/// The tree key of the directory that `p` belongs to.
fn parent_key_exec(p: &str) -> (r: Option<Vec<char>>)
    ensures
        match r {
            Some(v) => parent_key(p@) == Some(v@),
            None => parent_key(p@) is None,
        },
{
    match parent_of(p) {
        Some(q) => {
            let qc = chars_of(q.as_str());
            let s = replace_char_exec(qc.as_slice(), '\\', '/');
            let dot: Vec<char> = vec!['.'];
            proof {
                assert(dot@ =~= seq!['.']);
            }
            if s.len() == 0 || chars_eq(s.as_slice(), dot.as_slice()) {
                None
            } else {
                Some(s)
            }
        },
        None => None,
    }
}

/// Directory `i` takes the strongest status of itself and its children.
fn propagate_at(es: &mut Vec<FileEntry>, keys: &Vec<Option<Vec<char>>>, i: usize)
    requires
        i < old(es)@.len(),
        keys@.len() == old(es)@.len(),
        forall|j: int|
            0 <= j < keys@.len() ==> match #[trigger] keys@[j] {
                Some(v) => parent_key(old(es)@[j].path@) == Some(v@),
                None => parent_key(old(es)@[j].path@) is None,
            },
    ensures
        final(es)@ == propagate_one(old(es)@, i as int),
{
    if !es[i].is_dir {
        return;
    }
    let target = chars_of(es[i].path.as_str());
    let mut strongest = es[i].status;
    let mut j: usize = 0;
    while j < es.len()
        invariant
            j <= es@.len() == keys@.len(),
            i < es@.len(),
            target@ == es@[i as int].path@,
            forall|k: int|
                0 <= k < keys@.len() ==> match #[trigger] keys@[k] {
                    Some(v) => parent_key(es@[k].path@) == Some(v@),
                    None => parent_key(es@[k].path@) is None,
                },
            strongest == strongest_below(es@, target@, es@[i as int].status, j as int),
        decreases es@.len() - j,
    {
        let is_child = match &keys[j] {
            Some(v) => chars_eq(v.as_slice(), target.as_slice()),
            None => false,
        };
        let c = es[j].status;
        if is_child && c != GitStatus::Ignored && c.priority() > strongest.priority() {
            strongest = c;
        }
        j += 1;
    }
    set_status(es, i, strongest);
}

/// Folder status propagation (see `propagate_spec`).
pub fn propagate_statuses(es: &mut Vec<FileEntry>)
    ensures
        final(es)@ == propagate_spec(old(es)@),
{
    let ghost es0 = es@;
    let n = es.len();
    if n == 0 {
        proof {
            assert(order_from_depth(es0, 0) =~= Seq::<int>::empty() + order_from_depth(es0, -1));
        }
        return;
    }
    // Parent keys, computed once: paths never change below.
    let mut keys: Vec<Option<Vec<char>>> = Vec::new();
    let mut j: usize = 0;
    while j < n
        invariant
            n == es@.len(),
            j <= n,
            keys@.len() == j,
            forall|k: int|
                0 <= k < j ==> match #[trigger] keys@[k] {
                    Some(v) => parent_key(es@[k].path@) == Some(v@),
                    None => parent_key(es@[k].path@) is None,
                },
        decreases n - j,
    {
        keys.push(parent_key_exec(es[j].path.as_str()));
        j += 1;
    }
    // Greatest depth.
    let mut d: usize = 0;
    let mut j: usize = 0;
    while j < n
        invariant
            n == es@.len() == es0.len(),
            es@ == es0,
            j <= n,
            d as int == max_depth(es0.take(j as int)),
        decreases n - j,
    {
        proof {
            assert(es0.take(j + 1).drop_last() =~= es0.take(j as int));
        }
        if es[j].depth > d {
            d = es[j].depth;
        }
        j += 1;
    }
    proof {
        assert(es0.take(n as int) =~= es0);
    }
    let ghost full = order_from_depth(es0, max_depth(es0));
    loop
        invariant_except_break
            propagate_seq(es0, full) == propagate_seq(es@, order_from_depth(es0, d as int)),
        invariant
            n == es@.len() == es0.len() == keys@.len(),
            same_shape(es@, es0),
            forall|k: int|
                0 <= k < keys@.len() ==> match #[trigger] keys@[k] {
                    Some(v) => parent_key(es0[k].path@) == Some(v@),
                    None => parent_key(es0[k].path@) is None,
                },
            d <= max_depth(es0),
        ensures
            es@ == propagate_seq(es0, full),
        decreases d,
    {
        // Visit the entries at depth `d`, in index order.
        let ghost start = es@;
        let mut i: usize = 0;
        proof {
            assert(propagate_seq(start, depth_bucket(es0, d as int, 0)) == start);
        }
        while i < n
            invariant
                n == es@.len() == es0.len() == keys@.len(),
                i <= n,
                same_shape(es@, es0),
                same_shape(start, es0),
                forall|k: int|
                    0 <= k < keys@.len() ==> match #[trigger] keys@[k] {
                        Some(v) => parent_key(es0[k].path@) == Some(v@),
                        None => parent_key(es0[k].path@) is None,
                    },
                es@ == propagate_seq(start, depth_bucket(es0, d as int, i as int)),
            decreases n - i,
        {
            if es[i].depth == d {
                proof {
                    assert(es@[i as int].depth == es0[i as int].depth);
                    assert(depth_bucket(es0, d as int, i + 1) =~= depth_bucket(es0, d as int, i as int)
                        + seq![i as int]);
                    assert forall|k: int| 0 <= k < keys@.len() implies match #[trigger] keys@[k] {
                        Some(v) => parent_key(es@[k].path@) == Some(v@),
                        None => parent_key(es@[k].path@) is None,
                    } by {
                        assert(es@[k].path == es0[k].path);
                    }
                    lemma_propagate_seq_append(
                        start,
                        depth_bucket(es0, d as int, i as int),
                        seq![i as int],
                    );
                    lemma_propagate_seq_single(es@, i as int);
                    lemma_propagate_one_shape(es@, i as int);
                }
                propagate_at(es, &keys, i);
            } else {
                proof {
                    assert(es@[i as int].depth == es0[i as int].depth);
                    assert(depth_bucket(es0, d as int, i + 1) == depth_bucket(es0, d as int, i as int));
                }
            }
            i += 1;
        }
        proof {
            lemma_propagate_seq_append(
                start,
                depth_bucket(es0, d as int, n as int),
                order_from_depth(es0, d - 1),
            );
            assert(order_from_depth(es0, d as int) == depth_bucket(es0, d as int, n as int)
                + order_from_depth(es0, d - 1));
        }
        // Next lower depth that occurs, if any.
        let mut next: Option<usize> = None;
        let mut k: usize = 0;
        while k < n
            invariant
                n == es@.len() == es0.len(),
                same_shape(es@, es0),
                k <= n,
                match next {
                    Some(m) => m < d && (forall|j: int|
                        0 <= j < k && (#[trigger] es0[j]).depth < d ==> es0[j].depth <= m),
                    None => forall|j: int| 0 <= j < k ==> (#[trigger] es0[j]).depth >= d,
                },
            decreases n - k,
        {
            let dk = es[k].depth;
            proof {
                assert(es@[k as int].depth == es0[k as int].depth);
            }
            if dk < d {
                match next {
                    Some(m) => {
                        if dk > m {
                            next = Some(dk);
                        }
                    },
                    None => {
                        next = Some(dk);
                    },
                }
            }
            k += 1;
        }
        match next {
            Some(m) => {
                proof {
                    lemma_order_skip(es0, d - 1, m as int);
                }
                d = m;
            },
            None => {
                proof {
                    lemma_order_skip(es0, d - 1, -1);
                    assert(order_from_depth(es0, -1) =~= Seq::<int>::empty());
                    assert(propagate_seq(es@, Seq::<int>::empty()) == es@);
                }
                break;
            },
        }
    }
}

} // verus!
