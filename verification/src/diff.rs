use vstd::prelude::*;
use std::collections::HashMap;
use crate::git::DiffLineType;
use crate::text::{
    char_views, chars_of, first_occurrence_exec, first_occurrence_from, has_prefix,
    has_prefix_exec, lines_of, occurs_at, lines_spec, parse_i32, parse_i32_spec, parse_usize,
    parse_usize_spec, split_chars, split_spec, string_views, sub_vec, trim_start_char,
    trim_start_char_exec, trim_ws, trim_ws_chars, is_ws, is_ws_exec,
};

verus! {

broadcast use vstd::std_specs::hash::group_hash_axioms;

/// `@@`, which opens a hunk header.
pub open spec fn hunk_marker() -> Seq<char> {
    seq!['@', '@']
}

/// The `n`-th piece of `s` split at `c`, if there is one.
pub open spec fn nth_piece(s: Seq<char>, c: char, n: int) -> Option<Seq<char>> {
    if 0 <= n < split_spec(s, c).len() {
        Some(split_spec(s, c)[n])
    } else {
        None
    }
}

/// A count read from a header piece: the piece trimmed and parsed, `default`
/// when the piece is missing or does not parse.
pub open spec fn count_or(piece: Option<Seq<char>>, default: usize) -> usize {
    match piece {
        Some(p) => match parse_usize_spec(trim_ws(p)) {
            Some(v) => v,
            None => default,
        },
        None => default,
    }
}

/// The range text of a hunk header: what lies between the leading `@@` and the
/// next `@@` (or the end), trimmed.
pub open spec fn hunk_range(line: Seq<char>) -> Seq<char> {
    let rest = line.skip(2);
    let end = match first_occurrence_from(rest, hunk_marker(), 0) {
        Some(k) => k,
        None => rest.len() as int,
    };
    trim_ws(rest.take(end))
}

/// (old count, new start, new count) of a hunk header `@@ -a,b +c,d @@`; a
/// missing count is 1, a missing or unreadable new start 0, and with no `+`
/// part both new numbers are 0.
pub open spec fn hunk_numbers(line: Seq<char>) -> (usize, usize, usize) {
    let info = hunk_range(line);
    let plus = split_spec(info, '+');
    let old_part = trim_start_char(trim_ws(plus[0]), '-');
    let old_count = count_or(nth_piece(old_part, ',', 1), 1);
    if plus.len() >= 2 {
        let np = trim_ws(plus[1]);
        (old_count, count_or(nth_piece(np, ',', 0), 0), count_or(nth_piece(np, ',', 1), 1))
    } else {
        (old_count, 0, 0)
    }
}

/// The marks one hunk adds: a pure deletion marks its new start (when not 0) as
/// deleted; otherwise each of the `new count` lines from `new start` is marked
/// added (nothing removed) or modified.
pub open spec fn apply_hunk(m: Map<usize, DiffLineType>, h: (usize, usize, usize)) -> Map<
    usize,
    DiffLineType,
> {
    let (oc, ns, nc) = h;
    if nc == 0 && oc > 0 {
        if ns > 0 {
            m.insert(ns, DiffLineType::Deleted)
        } else {
            m
        }
    } else {
        let t = if oc == 0 && nc > 0 {
            DiffLineType::Added
        } else {
            DiffLineType::Modified
        };
        Map::new(
            |k: usize| m.contains_key(k) || (ns <= k < ns + nc),
            |k: usize|
                if ns <= k < ns + nc {
                    t
                } else {
                    m[k]
                },
        )
    }
}

/// The line marks of a whole `git diff --unified=0` output, hunk by hunk.
pub open spec fn diff_marks(lines: Seq<Seq<char>>) -> Map<usize, DiffLineType>
    decreases lines.len(),
{
    if lines.len() == 0 {
        Map::empty()
    } else {
        let m = diff_marks(lines.drop_last());
        if has_prefix(lines.last(), hunk_marker()) {
            apply_hunk(m, hunk_numbers(lines.last()))
        } else {
            m
        }
    }
}

/// Every hunk's marked lines are numbered within `usize`.
pub open spec fn hunks_fit(out: Seq<char>) -> bool {
    forall|i: int|
        0 <= i < lines_spec(out).len() && has_prefix(#[trigger] lines_spec(out)[i], hunk_marker())
            ==> hunk_numbers(lines_spec(out)[i]).1 + hunk_numbers(lines_spec(out)[i]).2 <= usize::MAX
            + 1
}

/// Where the start number after a header's `+` ends: at the first `,` or
/// whitespace from `i` on, or at the end.
pub open spec fn start_end(p: Seq<char>, i: int) -> int
    decreases p.len() - i,
{
    if i < 0 || i >= p.len() {
        p.len() as int
    } else if p[i] == ',' || is_ws(p[i]) {
        i
    } else {
        start_end(p, i + 1)
    }
}

/// The first line numbers of the new side of each hunk: what follows the first
/// `+` up to a `,` or whitespace, for the headers where it reads as an `i32`.
pub open spec fn hunk_starts(lines: Seq<Seq<char>>) -> Seq<i32>
    decreases lines.len(),
{
    if lines.len() == 0 {
        seq![]
    } else {
        let prev = hunk_starts(lines.drop_last());
        let l = lines.last();
        if has_prefix(l, hunk_marker()) && split_spec(l, '+').len() >= 2 {
            let p = split_spec(l, '+')[1];
            match parse_i32_spec(p.take(start_end(p, 0))) {
                Some(v) => prev.push(v),
                None => prev,
            }
        } else {
            prev
        }
    }
}

proof fn lemma_split_nonempty(s: Seq<char>, c: char)
    ensures
        split_spec(s, c).len() >= 1,
{
}

/// The count in piece `n` of `cs` split at `,`, or `default`.
fn count_in(cs: &[char], n: usize, default: usize) -> (r: usize)
    ensures
        r == count_or(nth_piece(cs@, ',', n as int), default),
{
    let pieces = split_chars(cs, ',');
    if n < pieces.len() {
        proof {
            assert(char_views(pieces@)[n as int] == pieces@[n as int]@);
        }
        let t = trim_ws_chars(pieces[n].as_slice());
        match parse_usize(t.as_slice()) {
            Some(v) => v,
            None => default,
        }
    } else {
        default
    }
}

/// (old count, new start, new count) of a hunk header line.
fn hunk_numbers_exec(line: &[char]) -> (r: (usize, usize, usize))
    requires
        has_prefix(line@, hunk_marker()),
    ensures
        r == hunk_numbers(line@),
{
    let rest = sub_vec(line, 2, line.len());
    proof {
        assert(rest@ =~= line@.skip(2));
    }
    let marker: Vec<char> = vec!['@', '@'];
    proof {
        assert(marker@ =~= hunk_marker());
    }
    let end = match first_occurrence_exec(rest.as_slice(), marker.as_slice(), 0) {
        Some(k) => {
            proof {
                lemma_first_occurrence_bound(rest@, hunk_marker(), 0);
            }
            k
        },
        None => rest.len(),
    };
    let head = sub_vec(rest.as_slice(), 0, end);
    proof {
        assert(head@ =~= rest@.take(end as int));
    }
    let info = trim_ws_chars(head.as_slice());
    let plus = split_chars(info.as_slice(), '+');
    proof {
        lemma_split_nonempty(info@, '+');
        assert(char_views(plus@)[0] == plus@[0]@);
    }
    let first = trim_ws_chars(plus[0].as_slice());
    let old_part = trim_start_char_exec(first.as_slice(), '-');
    let old_count = count_in(old_part.as_slice(), 1, 1);
    if plus.len() >= 2 {
        proof {
            assert(char_views(plus@)[1] == plus@[1]@);
        }
        let np = trim_ws_chars(plus[1].as_slice());
        let ns = count_in(np.as_slice(), 0, 0);
        let nc = count_in(np.as_slice(), 1, 1);
        (old_count, ns, nc)
    } else {
        (old_count, 0, 0)
    }
}

proof fn lemma_first_occurrence_bound(s: Seq<char>, pat: Seq<char>, i: int)
    ensures
        first_occurrence_from(s, pat, i) matches Some(k) ==> i <= k && k + pat.len() <= s.len(),
    decreases s.len() + 1 - i,
{
    if !(i < 0 || i + pat.len() > s.len()) && !occurs_at(s, pat, i) {
        lemma_first_occurrence_bound(s, pat, i + 1);
    }
}

/// Whether every hunk of `git diff --unified=0` output numbers its marked lines
/// within `usize` (what `diff_line_marks` needs).
pub fn diff_fits(out: &str) -> (r: bool)
    ensures
        r == hunks_fit(out@),
{
    let lines = lines_of(out);
    let ghost ls = lines_spec(out@);
    let marker: Vec<char> = vec!['@', '@'];
    proof {
        assert(marker@ =~= hunk_marker());
    }
    let mut i: usize = 0;
    while i < lines.len()
        invariant
            i <= lines@.len(),
            string_views(lines@) == ls,
            ls == lines_spec(out@),
            marker@ == hunk_marker(),
            forall|j: int|
                0 <= j < i && has_prefix(#[trigger] ls[j], hunk_marker()) ==> hunk_numbers(ls[j]).1
                    + hunk_numbers(ls[j]).2 <= usize::MAX + 1,
        decreases lines@.len() - i,
    {
        proof {
            assert(ls[i as int] == lines@[i as int]@);
        }
        let cs = chars_of(lines[i].as_str());
        if has_prefix_exec(cs.as_slice(), marker.as_slice()) {
            let (_oc, ns, nc) = hunk_numbers_exec(cs.as_slice());
            if nc > 0 && ns > usize::MAX - (nc - 1) {
                return false;
            }
        }
        i += 1;
    }
    true
}

/// Line marks for the editor gutter from `git diff --unified=0` output.
pub fn diff_line_marks(out: &str) -> (r: HashMap<usize, DiffLineType>)
    requires
        hunks_fit(out@),
    ensures
        r@ == diff_marks(lines_spec(out@)),
{
    let lines = lines_of(out);
    let ghost ls = lines_spec(out@);
    let mut m: HashMap<usize, DiffLineType> = HashMap::new();
    let marker: Vec<char> = vec!['@', '@'];
    proof {
        assert(marker@ =~= hunk_marker());
    }
    let mut i: usize = 0;
    while i < lines.len()
        invariant
            i <= lines@.len(),
            string_views(lines@) == ls,
            ls == lines_spec(out@),
            hunks_fit(out@),
            marker@ == hunk_marker(),
            m@ == diff_marks(ls.take(i as int)),
        decreases lines@.len() - i,
    {
        proof {
            assert(ls[i as int] == lines@[i as int]@);
            assert(ls.take(i + 1).drop_last() =~= ls.take(i as int));
            assert(ls.take(i + 1).last() == ls[i as int]);
        }
        let cs = chars_of(lines[i].as_str());
        if has_prefix_exec(cs.as_slice(), marker.as_slice()) {
            let (oc, ns, nc) = hunk_numbers_exec(cs.as_slice());
            let ghost before = m@;
            if nc == 0 && oc > 0 {
                if ns > 0 {
                    m.insert(ns, DiffLineType::Deleted);
                }
            } else {
                let t = if oc == 0 && nc > 0 {
                    DiffLineType::Added
                } else {
                    DiffLineType::Modified
                };
                let mut k: usize = 0;
                while k < nc
                    invariant
                        k <= nc,
                        ns + nc <= usize::MAX + 1,
                        m@ == Map::new(
                            |x: usize| before.contains_key(x) || (ns <= x < ns + k),
                            |x: usize|
                                if ns <= x < ns + k {
                                    t
                                } else {
                                    before[x]
                                },
                        ),
                    decreases nc - k,
                {
                    m.insert(ns + k, t);
                    k += 1;
                    proof {
                        assert(m@ =~= Map::new(
                            |x: usize| before.contains_key(x) || (ns <= x < ns + k),
                            |x: usize|
                                if ns <= x < ns + k {
                                    t
                                } else {
                                    before[x]
                                },
                        ));
                    }
                }
                proof {
                    assert(m@ =~= apply_hunk(before, (oc, ns, nc)));
                }
            }
        }
        i += 1;
    }
    proof {
        assert(ls.take(i as int) =~= ls);
    }
    m
}

/// Start lines of the new side of each hunk in `git diff --unified=0` output.
pub fn get_git_diff_lines(out: &str) -> (r: Vec<i32>)
    ensures
        r@ == hunk_starts(lines_spec(out@)),
{
    let lines = lines_of(out);
    let ghost ls = lines_spec(out@);
    let marker: Vec<char> = vec!['@', '@'];
    proof {
        assert(marker@ =~= hunk_marker());
    }
    let mut r: Vec<i32> = Vec::new();
    let mut i: usize = 0;
    while i < lines.len()
        invariant
            i <= lines@.len(),
            string_views(lines@) == ls,
            ls == lines_spec(out@),
            marker@ == hunk_marker(),
            r@ == hunk_starts(ls.take(i as int)),
        decreases lines@.len() - i,
    {
        proof {
            assert(ls[i as int] == lines@[i as int]@);
            assert(ls.take(i + 1).drop_last() =~= ls.take(i as int));
            assert(ls.take(i + 1).last() == ls[i as int]);
        }
        let cs = chars_of(lines[i].as_str());
        if has_prefix_exec(cs.as_slice(), marker.as_slice()) {
            let pieces = split_chars(cs.as_slice(), '+');
            if pieces.len() >= 2 {
                proof {
                    assert(char_views(pieces@)[1] == pieces@[1]@);
                }
                let p = pieces[1].as_slice();
                let mut k: usize = 0;
                while k < p.len() && !(p[k] == ',' || is_ws_exec(p[k]))
                    invariant
                        k <= p@.len(),
                        start_end(p@, 0) == start_end(p@, k as int),
                    decreases p@.len() - k,
                {
                    k += 1;
                }
                let t = sub_vec(p, 0, k);
                proof {
                    assert(t@ =~= p@.take(k as int));
                }
                match parse_i32(t.as_slice()) {
                    Some(v) => {
                        r.push(v);
                    },
                    None => {},
                }
            }
        }
        i += 1;
    }
    proof {
        assert(ls.take(i as int) =~= ls);
    }
    r
}

} // verus!
