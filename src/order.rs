//! Lexicographic order on character sequences, which for strings is the
//! order of their UTF-8 bytes, and a sort of ids by it.

use vstd::prelude::*;
use vstd::multiset::Multiset;

verus! {

/// `a` comes no later than `b` in lexicographic order of code points.
pub open spec fn seq_le(a: Seq<char>, b: Seq<char>) -> bool
    decreases a.len(),
{
    if a.len() == 0 {
        true
    } else if b.len() == 0 {
        false
    } else if a[0] != b[0] {
        (a[0] as int) < (b[0] as int)
    } else {
        seq_le(a.drop_first(), b.drop_first())
    }
}

/// The order is reflexive.
pub proof fn lemma_seq_le_reflexive(a: Seq<char>)
    ensures
        seq_le(a, a),
    decreases a.len(),
{
    if a.len() > 0 {
        lemma_seq_le_reflexive(a.drop_first());
    }
}

/// Any two sequences are ordered one way or the other.
pub proof fn lemma_seq_le_total(a: Seq<char>, b: Seq<char>)
    ensures
        seq_le(a, b) || seq_le(b, a),
    decreases a.len(),
{
    if a.len() > 0 && b.len() > 0 && a[0] == b[0] {
        lemma_seq_le_total(a.drop_first(), b.drop_first());
    }
}

/// The order is transitive.
pub proof fn lemma_seq_le_transitive(a: Seq<char>, b: Seq<char>, c: Seq<char>)
    requires
        seq_le(a, b),
        seq_le(b, c),
    ensures
        seq_le(a, c),
    decreases a.len(),
{
    if a.len() > 0 && b.len() > 0 && c.len() > 0 && a[0] == b[0] && b[0] == c[0] {
        lemma_seq_le_transitive(a.drop_first(), b.drop_first(), c.drop_first());
    }
}

/// Whether `a` comes no later than `b`.
pub fn str_le(a: &str, b: &str) -> (r: bool)
    ensures
        r == seq_le(a@, b@),
{
    let n = a.unicode_len();
    let m = b.unicode_len();
    let mut i: usize = 0;
    proof {
        assert(a@.skip(0) =~= a@);
        assert(b@.skip(0) =~= b@);
    }
    while i < n && i < m
        invariant
            n == a@.len(),
            m == b@.len(),
            i <= n,
            i <= m,
            seq_le(a@, b@) == seq_le(a@.skip(i as int), b@.skip(i as int)),
        decreases n - i,
    {
        let x = a.get_char(i);
        let y = b.get_char(i);
        proof {
            assert(a@.skip(i as int)[0] == x);
            assert(b@.skip(i as int)[0] == y);
        }
        if x != y {
            return (x as u32) < (y as u32);
        }
        proof {
            assert(a@.skip(i as int).drop_first() =~= a@.skip(i as int + 1));
            assert(b@.skip(i as int).drop_first() =~= b@.skip(i as int + 1));
        }
        i = i + 1;
    }
    i == n
}

/// The views of the strings of `v`.
pub open spec fn views(v: Seq<String>) -> Seq<Seq<char>> {
    v.map_values(|s: String| s@)
}

/// `s` is in ascending order.
pub open spec fn sorted_ids(s: Seq<String>) -> bool {
    forall|i: int, j: int| 0 <= i < j < s.len() ==> seq_le(#[trigger] s[i]@, #[trigger] s[j]@)
}

/// The ids of `v` in ascending order.
pub fn sort_ids(v: Vec<String>) -> (r: Vec<String>)
    ensures
        views(r@).to_multiset() == views(v@).to_multiset(),
        sorted_ids(r@),
{
    let mut rest = v;
    let mut out: Vec<String> = Vec::new();
    proof {
        views(out@).to_multiset_ensures();
        vstd::multiset::lemma_multiset_empty_len(views(out@).to_multiset());
    }
    while rest.len() > 0
        invariant
            views(out@).to_multiset().add(views(rest@).to_multiset()) == views(v@).to_multiset(),
            sorted_ids(out@),
            forall|i: int, j: int| 0 <= i < out@.len() && 0 <= j < rest@.len() ==> seq_le(#[trigger] out@[i]@, #[trigger] rest@[j]@),
        decreases rest@.len(),
    {
        let mut best: usize = 0;
        let mut k: usize = 1;
        proof {
            lemma_seq_le_reflexive(rest@[0]@);
        }
        while k < rest.len()
            invariant
                0 <= best < rest@.len(),
                1 <= k <= rest@.len(),
                forall|j: int| 0 <= j < k ==> seq_le(rest@[best as int]@, #[trigger] rest@[j]@),
            decreases rest@.len() - k,
        {
            if !str_le(rest[best].as_str(), rest[k].as_str()) {
                proof {
                    lemma_seq_le_reflexive(rest@[k as int]@);
                    lemma_seq_le_total(rest@[best as int]@, rest@[k as int]@);
                    assert forall|j: int| 0 <= j < k implies seq_le(rest@[k as int]@, #[trigger] rest@[j]@) by {
                        lemma_seq_le_transitive(rest@[k as int]@, rest@[best as int]@, rest@[j]@);
                    }
                }
                best = k;
            }
            k = k + 1;
        }
        let ghost before_rest = rest@;
        let ghost before_out = out@;
        let x = rest.remove(best);
        proof {
            assert(x == before_rest[best as int]);
            views(before_rest).to_multiset_ensures();
            views(before_out).to_multiset_ensures();
            assert(views(rest@) =~= views(before_rest).remove(best as int));
            assert(views(before_rest)[best as int] == x@);
            assert(views(rest@).to_multiset() =~= views(before_rest).to_multiset().remove(x@));
            assert(forall|j: int| 0 <= j < rest@.len() ==> #[trigger] rest@[j] == before_rest[if j < best { j } else { j + 1 }]);
        }
        out.push(x);
        proof {
            assert(out@ == before_out.push(x));
            assert(views(out@) =~= views(before_out).push(x@));
            assert(views(out@).to_multiset() =~= views(before_out).to_multiset().insert(x@));
            assert(views(before_rest).to_multiset().count(x@) > 0) by {
                assert(views(before_rest).contains(x@));
            }
            assert(views(out@).to_multiset().add(views(rest@).to_multiset()) =~= views(v@).to_multiset());
            assert forall|i: int, j: int| 0 <= i < j < out@.len() implies seq_le(#[trigger] out@[i]@, #[trigger] out@[j]@) by {
                if j < before_out.len() {
                    assert(out@[i] == before_out[i]);
                    assert(out@[j] == before_out[j]);
                } else {
                    assert(out@[i] == before_out[i]);
                    assert(before_rest[best as int] == x);
                }
            }
            assert forall|i: int, j: int| 0 <= i < out@.len() && 0 <= j < rest@.len() implies seq_le(#[trigger] out@[i]@, #[trigger] rest@[j]@) by {
                let bj = if j < best { j } else { j + 1 };
                assert(rest@[j] == before_rest[bj]);
                if i < before_out.len() {
                    assert(out@[i] == before_out[i]);
                } else {
                    assert(seq_le(before_rest[best as int]@, before_rest[bj]@));
                }
            }
        }
    }
    proof {
        views(rest@).to_multiset_ensures();
        vstd::multiset::lemma_multiset_empty_len(views(rest@).to_multiset());
        assert(views(out@).to_multiset().add(Multiset::empty()) =~= views(out@).to_multiset());
    }
    out
}

} // verus!
