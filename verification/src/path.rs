use vstd::prelude::*;

verus! {

/// What `std::path::Path::parent` returns for a path, as text.
pub uninterp spec fn path_parent(p: Seq<char>) -> Option<Seq<char>>;

/// A relative path that every platform splits at its `/` alone: not empty,
/// without a backslash or `:`, not starting or ending with `/`, without `//`, and with
/// no component that is `.`.
pub open spec fn plain_relative(p: Seq<char>) -> bool {
    &&& p.len() > 0
    &&& p[0] != '/'
    &&& p.last() != '/'
    &&& forall|i: int| 0 <= i < p.len() ==> #[trigger] p[i] != '\\' && p[i] != ':'
    &&& forall|i: int| 0 <= i < p.len() - 1 && #[trigger] p[i] == '/' ==> p[i + 1] != '/'
    &&& forall|i: int|
        0 <= i < p.len() && #[trigger] p[i] == '.' && (i == 0 || p[i - 1] == '/') ==> i + 1 < p.len()
            && p[i + 1] != '/'
}

/// Index of the last `/` in `p`, or -1 when there is none.
pub open spec fn last_slash(p: Seq<char>) -> int
    decreases p.len(),
{
    if p.len() == 0 {
        -1
    } else if p.last() == '/' {
        p.len() - 1
    } else {
        last_slash(p.drop_last())
    }
}

/// `p` without its final component: the text before the last `/`, or the empty
/// path when there is no `/`.
pub open spec fn without_last_component(p: Seq<char>) -> Seq<char> {
    if last_slash(p) < 0 {
        seq![]
    } else {
        p.take(last_slash(p))
    }
}

/// Where the last `/` of `p` stands: inside `p`, on a `/`, with none after it.
pub proof fn lemma_last_slash(p: Seq<char>)
    ensures
        -1 <= last_slash(p) < p.len(),
        last_slash(p) >= 0 ==> p[last_slash(p)] == '/',
        forall|k: int| last_slash(p) < k < p.len() ==> p[k] != '/',
    decreases p.len(),
{
    if p.len() > 0 && p.last() != '/' {
        lemma_last_slash(p.drop_last());
        assert forall|k: int| last_slash(p) < k < p.len() implies p[k] != '/' by {
            if k < p.len() - 1 {
                assert(p.drop_last()[k] == p[k]);
            }
        }
    }
}

/// Dropping the last component of a plain relative path that has a `/` leaves
/// a plain relative path.
pub proof fn lemma_plain_parent(p: Seq<char>)
    requires
        plain_relative(p),
        last_slash(p) >= 0,
    ensures
        plain_relative(p.take(last_slash(p))),
{
    lemma_last_slash(p);
    let j = last_slash(p);
    let q = p.take(j);
    assert(j > 0);
    assert(p[j - 1] != '/') by {
        if p[j - 1] == '/' {
            assert(p[j - 1] == '/' && p[j] != '/');
        }
    }
    assert(q.last() == p[j - 1]);
    assert forall|i: int| 0 <= i < q.len() implies #[trigger] q[i] != '\\' && q[i] != ':' by {
        assert(q[i] == p[i]);
    }
    assert forall|i: int| 0 <= i < q.len() - 1 && #[trigger] q[i] == '/' implies q[i + 1] != '/' by {
        assert(q[i] == p[i] && q[i + 1] == p[i + 1]);
    }
    assert forall|i: int|
        0 <= i < q.len() && #[trigger] q[i] == '.' && (i == 0 || q[i - 1] == '/') implies i + 1 < q.len()
            && q[i + 1] != '/' by {
        assert(q[i] == p[i]);
        if i > 0 {
            assert(q[i - 1] == p[i - 1]);
        }
        assert(p[i] == '.' && (i == 0 || p[i - 1] == '/'));
        if i + 1 < q.len() {
            assert(q[i + 1] == p[i + 1]);
        }
    }
}

/// The parents of a path as text, nearest first: each is the one before without
/// its final component, down to the empty path.
pub open spec fn plain_parents(p: Seq<char>) -> Seq<Seq<char>>
    decreases p.len(),
{
    if p.len() == 0 {
        seq![]
    } else {
        proof {
            lemma_last_slash(p);
        }
        let q = without_last_component(p);
        seq![q] + plain_parents(q)
    }
}

/// `std::path::Path::parent`, with the parent turned back into a string.
/// Claimed: the result is the one `path_parent` names; a parent is the path
/// without its final component, so it is shorter than the path; the empty path
/// has no parent; for a plain relative path the parent is the text before the
/// last `/` (the empty path for a single name). What it gives for other paths
/// (absolute ones, `.` components, repeated or trailing separators, platform
/// prefixes) is left to the name.
#[verifier::external_body]
pub(crate) fn parent_of(p: &str) -> (r: Option<String>)
    ensures
        match r {
            Some(q) => path_parent(p@) == Some(q@) && q@.len() < p@.len(),
            None => path_parent(p@) is None,
        },
        p@.len() == 0 ==> r is None,
        plain_relative(p@) ==> r is Some && r.unwrap()@ == without_last_component(p@),
{
    std::path::Path::new(p).parent().map(|q| q.to_string_lossy().into_owned())
}

/// The chain of parents of `p`, nearest first, following at most `fuel` steps.
pub open spec fn ancestors_within(p: Seq<char>, fuel: nat) -> Seq<Seq<char>>
    decreases fuel,
{
    if fuel == 0 {
        seq![]
    } else {
        match path_parent(p) {
            None => seq![],
            Some(q) => seq![q] + ancestors_within(q, (fuel - 1) as nat),
        }
    }
}

/// All parents of `p`, nearest first. Each parent is shorter than its child,
/// so `p.len() + 1` steps always reach the end of the chain.
pub open spec fn ancestors(p: Seq<char>) -> Seq<Seq<char>> {
    ancestors_within(p, p.len() + 1)
}

/// Parents of `p`, nearest first, up to (not including) the first one that is
/// empty or `.`.
pub open spec fn named_ancestors_within(p: Seq<char>, fuel: nat) -> Seq<Seq<char>>
    decreases fuel,
{
    if fuel == 0 {
        seq![]
    } else {
        match path_parent(p) {
            None => seq![],
            Some(q) => if q.len() == 0 || q == seq!['.'] {
                seq![]
            } else {
                seq![q] + named_ancestors_within(q, (fuel - 1) as nat)
            },
        }
    }
}

/// The parents of `p` that name a directory inside the working tree.
pub open spec fn named_ancestors(p: Seq<char>) -> Seq<Seq<char>> {
    named_ancestors_within(p, p.len() + 1)
}

} // verus!
