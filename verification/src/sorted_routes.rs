//! The deterministic path ordering used for the client manifest's sorted
//! page list, and a verified insertion sort over it. The order compares
//! pathnames character by character; it is total and transitive, so the
//! sorted list is a permutation of the input, arranged the same way on
//! every build.

use vstd::prelude::*;
use vstd::string::*;
use vstd::multiset::Multiset;

verus! {

/// Character-sequence order: the empty sequence first, then by the first
/// differing character.
pub open spec fn lex_le(a: Seq<char>, b: Seq<char>) -> bool
    decreases a.len(),
{
    if a.len() == 0 {
        true
    } else if b.len() == 0 {
        false
    } else if (a[0] as u32) < (b[0] as u32) {
        true
    } else if (a[0] as u32) > (b[0] as u32) {
        false
    } else {
        lex_le(a.subrange(1, a.len() as int), b.subrange(1, b.len() as int))
    }
}

pub proof fn lemma_lex_le_total(a: Seq<char>, b: Seq<char>)
    ensures
        lex_le(a, b) || lex_le(b, a),
    decreases a.len(),
{
    if a.len() > 0 && b.len() > 0 && !((a[0] as u32) < (b[0] as u32)) && !((a[0] as u32) > (
    b[0] as u32)) {
        lemma_lex_le_total(a.subrange(1, a.len() as int), b.subrange(1, b.len() as int));
    }
}

pub proof fn lemma_lex_le_trans(a: Seq<char>, b: Seq<char>, c: Seq<char>)
    requires
        lex_le(a, b),
        lex_le(b, c),
    ensures
        lex_le(a, c),
    decreases a.len(),
{
    if a.len() > 0 && b.len() > 0 && c.len() > 0 {
        if (a[0] as u32) == (b[0] as u32) && (b[0] as u32) == (c[0] as u32) {
            lemma_lex_le_trans(
                a.subrange(1, a.len() as int),
                b.subrange(1, b.len() as int),
                c.subrange(1, c.len() as int),
            );
        }
    }
}

/// Decides the path order on two strings.
pub fn str_lex_le(a: &str, b: &str) -> (r: bool)
    ensures
        r == lex_le(a@, b@),
{
    let an = a.unicode_len();
    let bn = b.unicode_len();
    let mut i: usize = 0;
    proof {
        assert(a@.subrange(0, a@.len() as int) =~= a@);
        assert(b@.subrange(0, b@.len() as int) =~= b@);
    }
    loop
        invariant
            i <= an,
            i <= bn,
            an == a@.len(),
            bn == b@.len(),
            lex_le(a@, b@) == lex_le(
                a@.subrange(i as int, an as int),
                b@.subrange(i as int, bn as int),
            ),
        decreases an - i,
    {
        if i == an {
            proof {
                assert(a@.subrange(i as int, an as int).len() == 0);
            }
            return true;
        }
        if i == bn {
            proof {
                assert(b@.subrange(i as int, bn as int).len() == 0);
                assert(a@.subrange(i as int, an as int).len() > 0);
            }
            return false;
        }
        let ca = a.get_char(i);
        let cb = b.get_char(i);
        proof {
            let sa = a@.subrange(i as int, an as int);
            let sb = b@.subrange(i as int, bn as int);
            assert(sa[0] == a@[i as int] && sb[0] == b@[i as int]);
            assert(sa.subrange(1, sa.len() as int) =~= a@.subrange(i + 1, an as int));
            assert(sb.subrange(1, sb.len() as int) =~= b@.subrange(i + 1, bn as int));
        }
        if (ca as u32) < (cb as u32) {
            return true;
        }
        if (ca as u32) > (cb as u32) {
            return false;
        }
        i += 1;
    }
}

pub open spec fn sorted_by_path(v: Seq<String>) -> bool {
    forall|i: int, j: int| 0 <= i <= j < v.len() ==> lex_le(v[i]@, v[j]@)
}

/// The position where `x` belongs in the sorted `out`: everything before it
/// precedes `x`, and the element at it, if any, does not.
fn insertion_point(out: &Vec<String>, x: &String) -> (p: usize)
    ensures
        p <= out@.len(),
        forall|k: int| 0 <= k < p ==> lex_le((#[trigger] out@[k])@, x@),
        p < out@.len() ==> !lex_le(out@[p as int]@, x@),
{
    let mut i: usize = 0;
    while i < out.len()
        invariant
            i <= out@.len(),
            forall|k: int| 0 <= k < i ==> lex_le((#[trigger] out@[k])@, x@),
        decreases out@.len() - i,
    {
        if !str_lex_le(out[i].as_str(), x.as_str()) {
            return i;
        }
        i += 1;
    }
    i
}

/// Sorts pathnames by the path order. The result is a permutation of the
/// input: same pathnames, same multiplicities.
pub fn get_sorted_routes(pages: Vec<String>) -> (r: Vec<String>)
    ensures
        sorted_by_path(r@),
        r@.to_multiset() == pages@.to_multiset(),
{
    broadcast use vstd::seq_lib::group_to_multiset_ensures;

    let mut out: Vec<String> = Vec::new();
    let mut rest = pages;
    proof {
        assert(out@.to_multiset() =~= Multiset::<String>::empty());
        assert(out@.to_multiset().add(rest@.to_multiset()) =~= pages@.to_multiset());
    }
    while rest.len() > 0
        invariant
            sorted_by_path(out@),
            out@.to_multiset().add(rest@.to_multiset()) == pages@.to_multiset(),
        decreases rest@.len(),
    {
        let ghost rest_pre = rest@;
        let x = rest.remove(0);
        proof {
            broadcast use vstd::seq_lib::group_to_multiset_ensures;

            assert(rest@.to_multiset() =~= rest_pre.to_multiset().remove(x));
            assert(rest_pre.contains(x)) by {
                assert(rest_pre[0] == x);
            }
            assert(rest_pre.to_multiset().count(x) > 0);
        }
        let p = insertion_point(&out, &x);
        let ghost out_pre = out@;
        out.insert(p, x);
        proof {
            // The inserted list is sorted: predecessors precede `x`, and
            // `x` precedes what follows by totality and transitivity.
            assert(out@ == out_pre.insert(p as int, x));
            if (p as int) < out_pre.len() {
                lemma_lex_le_total(out_pre[p as int]@, x@);
            }
            assert forall|i: int, j: int| 0 <= i <= j < out@.len() implies lex_le(
                out@[i]@,
                out@[j]@,
            ) by {
                let vi: Seq<char> = if i < p {
                    out_pre[i]@
                } else if i == p {
                    x@
                } else {
                    out_pre[i - 1]@
                };
                assert(out@[i]@ == vi);
                let vj: Seq<char> = if j < p {
                    out_pre[j]@
                } else if j == p {
                    x@
                } else {
                    out_pre[j - 1]@
                };
                assert(out@[j]@ == vj);
                if i < p && j < p {
                } else if i < p && j == p {
                } else if i < p && j > p {
                    lemma_lex_le_trans(out_pre[i]@, out_pre[p as int]@, out_pre[j - 1]@);
                    lemma_lex_le_trans(out_pre[i]@, out_pre[j - 1]@, out_pre[j - 1]@);
                } else if i == p && j == p {
                    lemma_lex_le_total(x@, x@);
                } else if i == p && j > p {
                    lemma_lex_le_trans(x@, out_pre[p as int]@, out_pre[j - 1]@);
                } else {
                }
            }
            // The multiset is preserved: the insert adds exactly `x`.
            assert(out@.remove(p as int) =~= out_pre);
            assert(out@[p as int] == x);
            assert(out@.to_multiset().remove(x) =~= out_pre.to_multiset());
            assert(out@.contains(x)) by {
                assert(out@[p as int] == x);
            }
            assert(out@.to_multiset().count(x) > 0);
            assert(out@.to_multiset() =~= out_pre.to_multiset().insert(x));
            assert(out@.to_multiset().add(rest@.to_multiset()) =~= pages@.to_multiset());
        }
    }
    proof {
        broadcast use vstd::seq_lib::group_to_multiset_ensures;

        assert(rest@.to_multiset() =~= Multiset::<String>::empty());
        assert(out@.to_multiset().add(Multiset::<String>::empty()) =~= out@.to_multiset());
    }
    out
}

} // verus!
