use vstd::prelude::*;
use crate::text::str_eq;

verus! {

/// The set of strings held in a vector.
pub open spec fn string_set(v: Seq<String>) -> Set<Seq<char>> {
    Set::new(|s: Seq<char>| exists|i: int| 0 <= i < v.len() && #[trigger] v[i]@ == s)
}

/// Whether the vector holds `s`.
pub fn set_contains(v: &Vec<String>, s: &str) -> (r: bool)
    ensures
        r == string_set(v@).contains(s@),
{
    let mut i: usize = 0;
    while i < v.len()
        invariant
            i <= v@.len(),
            forall|j: int| 0 <= j < i ==> v@[j]@ != s@,
        decreases v@.len() - i,
    {
        if str_eq(v[i].as_str(), s) {
            proof {
                assert(v@[i as int]@ == s@);
            }
            return true;
        }
        i += 1;
    }
    false
}

/// Adds `s` unless it is already held.
pub fn set_insert(v: &mut Vec<String>, s: &str)
    ensures
        string_set(final(v)@) == string_set(old(v)@).insert(s@),
{
    if set_contains(v, s) {
        proof {
            assert(string_set(v@).insert(s@) =~= string_set(v@));
        }
        return;
    }
    let ghost old_v = v@;
    v.push(s.to_owned());
    proof {
        assert forall|x: Seq<char>| #[trigger] string_set(v@).contains(x) <==> string_set(
            old_v,
        ).insert(s@).contains(x) by {
            if string_set(old_v).contains(x) {
                let j = choose|j: int| 0 <= j < old_v.len() && old_v[j]@ == x;
                assert(v@[j]@ == x);
            }
            if x == s@ {
                assert(v@[old_v.len() as int]@ == x);
            }
            if string_set(v@).contains(x) {
                let j = choose|j: int| 0 <= j < v@.len() && v@[j]@ == x;
                if j < old_v.len() {
                    assert(old_v[j]@ == x);
                }
            }
        }
        assert(string_set(v@) =~= string_set(old_v).insert(s@));
    }
}

/// Drops every copy of `s`.
pub fn set_remove(v: &mut Vec<String>, s: &str)
    ensures
        string_set(final(v)@) == string_set(old(v)@).remove(s@),
{
    let ghost old_v = v@;
    let mut kept: Vec<String> = Vec::new();
    let mut i: usize = 0;
    while i < v.len()
        invariant
            i <= old_v.len(),
            v@ == old_v,
            forall|x: Seq<char>| #[trigger] string_set(kept@).contains(x) <==> (x != s@
                && exists|j: int| 0 <= j < i && old_v[j]@ == x),
        decreases old_v.len() - i,
    {
        let ghost before = kept@;
        if !str_eq(v[i].as_str(), s) {
            kept.push(v[i].clone());
        }
        proof {
            assert forall|x: Seq<char>| #[trigger] string_set(kept@).contains(x) <==> (x != s@
                && exists|j: int| 0 <= j < i + 1 && old_v[j]@ == x) by {
                if string_set(kept@).contains(x) {
                    let j = choose|j: int| 0 <= j < kept@.len() && kept@[j]@ == x;
                    if j < before.len() {
                        assert(string_set(before).contains(x));
                    }
                }
                if x != s@ && exists|j: int| 0 <= j < i + 1 && old_v[j]@ == x {
                    let j = choose|j: int| 0 <= j < i + 1 && old_v[j]@ == x;
                    if j < i {
                        assert(string_set(before).contains(x));
                        let k = choose|k: int| 0 <= k < before.len() && before[k]@ == x;
                        assert(kept@[k]@ == x);
                    } else {
                        assert(kept@[kept@.len() - 1]@ == x);
                    }
                }
            }
        }
        i += 1;
    }
    *v = kept;
    proof {
        assert(string_set(v@) =~= string_set(old_v).remove(s@));
    }
}

} // verus!
