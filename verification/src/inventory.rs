//! Volume/Snapshot Inventory ordering: the backend's raw name lists are
//! turned into ordered, deduplicated sequences before any matching runs
//! on them.

use vstd::prelude::*;

use crate::text::{lemma_lex_irrefl, lemma_lex_total, lemma_lex_trans, lex_lt, str_eq, str_lt};

verus! {

/// Strictly ascending names: no name occurs twice.
pub open spec fn names_sorted(s: Seq<String>) -> bool {
    forall|i: int, j: int| 0 <= i < j < s.len() ==> lex_lt((#[trigger] s[i])@, (#[trigger] s[j])@)
}

/// The name `v` occurs in the list.
pub open spec fn name_listed(s: Seq<String>, v: Seq<char>) -> bool {
    exists|i: int| 0 <= i < s.len() && (#[trigger] s[i])@ == v
}

/// The position `name` has or would get in a sorted name list.
fn name_lower_bound(out: &Vec<String>, name: &str) -> (p: usize)
    ensures
        p <= out@.len(),
        forall|j: int| 0 <= j < p ==> lex_lt((#[trigger] out@[j])@, name@),
        p < out@.len() ==> !lex_lt(out@[p as int]@, name@),
{
    let n = out.len();
    let mut p: usize = 0;
    while p < n
        invariant
            n == out@.len(),
            p <= n,
            forall|j: int| 0 <= j < p ==> lex_lt((#[trigger] out@[j])@, name@),
        decreases n - p,
    {
        if !str_lt(out[p].as_str(), name) {
            return p;
        }
        p = p + 1;
    }
    p
}

/// Inserts `name` in order unless it is already listed.
fn insert_name(out: &mut Vec<String>, name: &str)
    requires
        names_sorted(old(out)@),
    ensures
        names_sorted(final(out)@),
        name_listed(final(out)@, name@),
        forall|a: int|
            0 <= a < old(out)@.len() ==> name_listed(final(out)@, (#[trigger] old(out)@[a])@),
        forall|b: int|
            0 <= b < final(out)@.len() ==> (#[trigger] final(out)@[b])@ == name@ || name_listed(
                old(out)@,
                final(out)@[b]@,
            ),
{
    let ghost s = out@;
    let n = out.len();
    let p = name_lower_bound(out, name);
    if p < n && str_eq(out[p].as_str(), name) {
        proof {
            assert(s[p as int]@ == name@);
            assert forall|a: int| 0 <= a < s.len() implies name_listed(
                out@,
                (#[trigger] s[a])@,
            ) by {
                assert(0 <= a < out@.len() && out@[a]@ == s[a]@);
            }
        }
        return;
    }
    let ghost before = out@;
    let owned = name.to_owned();
    proof {
        assert(owned@ == name@);
    }
    out.insert(p, owned);
    proof {
        assert(out@ =~= before.insert(p as int, out@[p as int]));
        assert(out@[p as int]@ == name@);
        assert forall|a: int, b: int| 0 <= a < b < out@.len() implies lex_lt(
            (#[trigger] out@[a])@,
            (#[trigger] out@[b])@,
        ) by {
            if b < p {
                assert(out@[a] == before[a] && out@[b] == before[b]);
            } else if a < p && b == p {
                assert(out@[a] == before[a]);
                assert(lex_lt(before[a]@, name@));
            } else if a < p && b > p {
                assert(out@[a] == before[a] && out@[b] == before[b - 1]);
            } else if a == p {
                assert(out@[b] == before[b - 1]);
                assert(!lex_lt(before[p as int]@, name@));
                if before[p as int]@ == name@ {
                    lemma_lex_irrefl(name@);
                    assert(false);
                }
                lemma_lex_total(name@, before[p as int]@);
                assert(lex_lt(name@, before[p as int]@));
                if b - 1 > p {
                    lemma_lex_trans(name@, before[p as int]@, before[b - 1]@);
                }
            } else {
                assert(out@[a] == before[a - 1] && out@[b] == before[b - 1]);
            }
        }
        assert forall|a: int| 0 <= a < before.len() implies name_listed(
            out@,
            (#[trigger] before[a])@,
        ) by {
            if a < p {
                assert(0 <= a < out@.len() && out@[a]@ == before[a]@);
            } else {
                assert(0 <= a + 1 < out@.len() && out@[a + 1]@ == before[a]@);
            }
        }
        assert forall|b: int| 0 <= b < out@.len() implies (#[trigger] out@[b])@ == name@
            || name_listed(before, out@[b]@) by {
            if b < p {
                assert(0 <= b < before.len() && before[b]@ == out@[b]@);
            } else if b > p {
                assert(0 <= b - 1 < before.len() && before[b - 1]@ == out@[b]@);
            }
        }
    }
}

/// The backend's raw name list as an ordered, deduplicated sequence: the
/// result is strictly ascending and holds exactly the names of the input.
pub fn sort_unique(names: &Vec<String>) -> (r: Vec<String>)
    ensures
        names_sorted(r@),
        forall|k: int| 0 <= k < names@.len() ==> name_listed(r@, (#[trigger] names@[k])@),
        forall|b: int| 0 <= b < r@.len() ==> name_listed(names@, (#[trigger] r@[b])@),
{
    let n = names.len();
    let mut out: Vec<String> = Vec::new();
    let mut i: usize = 0;
    while i < n
        invariant
            n == names@.len(),
            i <= n,
            names_sorted(out@),
            forall|k: int| 0 <= k < i ==> name_listed(out@, (#[trigger] names@[k])@),
            forall|b: int| 0 <= b < out@.len() ==> name_listed(names@, (#[trigger] out@[b])@),
        decreases n - i,
    {
        let ghost before = out@;
        insert_name(&mut out, names[i].as_str());
        proof {
            assert forall|k: int| 0 <= k < i + 1 implies name_listed(
                out@,
                (#[trigger] names@[k])@,
            ) by {
                if k < i {
                    let a = choose|a: int|
                        0 <= a < before.len() && (#[trigger] before[a])@ == names@[k]@;
                    assert(name_listed(out@, before[a]@));
                } else {
                    assert(name_listed(out@, names@[i as int]@));
                }
            }
            assert forall|b: int| 0 <= b < out@.len() implies name_listed(
                names@,
                (#[trigger] out@[b])@,
            ) by {
                if out@[b]@ == names@[i as int]@ {
                    assert(0 <= (i as int) < names@.len() && names@[i as int]@ == out@[b]@);
                } else {
                    let c = choose|c: int|
                        0 <= c < before.len() && (#[trigger] before[c])@ == out@[b]@;
                    assert(name_listed(names@, before[c]@));
                }
            }
        }
        i = i + 1;
    }
    out
}

} // verus!
