//! Orderings given as lists of indices: a list strictly sorted by a strict
//! order, holding n indices below n, is the only such list.
use vstd::prelude::*;
use vstd::set_lib::{lemma_int_range, lemma_subset_equality, set_int_range};

verus! {

broadcast use vstd::seq_lib::group_seq_properties;

/// `p` holds `n` distinct indices below `n`.
pub open spec fn is_index_perm(p: Seq<usize>, n: nat) -> bool {
    &&& p.len() == n
    &&& forall|i: int| 0 <= i < p.len() ==> (#[trigger] p[i]) < n
    &&& forall|i: int, j: int| 0 <= i < j < p.len() ==> #[trigger] p[i] != #[trigger] p[j]
}

/// Such a list holds every index below `n`.
pub proof fn lemma_perm_holds_all(p: Seq<usize>, n: nat, k: int)
    requires
        is_index_perm(p, n),
        0 <= k < n,
    ensures
        exists|i: int| 0 <= i < p.len() && p[i] == k,
{
    let ip = p.map_values(|x: usize| x as int);
    assert(ip.no_duplicates()) by {
        assert forall|i: int, j: int| 0 <= i < ip.len() && 0 <= j < ip.len() && i != j implies ip[i] != ip[j] by {
            if i < j {
                assert(p[i] != p[j]);
            } else {
                assert(p[j] != p[i]);
            }
        }
    }
    ip.unique_seq_to_set();
    let s = ip.to_set();
    let r = set_int_range(0, n as int);
    lemma_int_range(0, n as int);
    assert(s.subset_of(r)) by {
        assert forall|x: int| s.contains(x) implies r.contains(x) by {
            assert(ip.contains(x));
            let i = choose|i: int| 0 <= i < ip.len() && ip[i] == x;
            assert(p[i] < n);
        }
    }
    lemma_subset_equality(s, r);
    assert(r.contains(k));
    assert(s.contains(k));
    assert(ip.contains(k));
    let i = choose|i: int| 0 <= i < ip.len() && ip[i] == k;
    assert(p[i] == k);
}

/// Two lists of all `n` indices, both strictly sorted by the same strict
/// order `lt`, are the same list.
pub proof fn lemma_sorted_perm_unique(lt: spec_fn(int, int) -> bool, n: nat, p: Seq<usize>, q: Seq<usize>)
    requires
        forall|a: int, b: int| #![trigger lt(a, b), lt(b, a)] lt(a, b) ==> !lt(b, a),
        is_index_perm(p, n),
        is_index_perm(q, n),
        forall|i: int, j: int| 0 <= i < j < n ==> lt(#[trigger] p[i] as int, #[trigger] p[j] as int),
        forall|i: int, j: int| 0 <= i < j < n ==> lt(#[trigger] q[i] as int, #[trigger] q[j] as int),
    ensures
        p == q,
{
    if p != q {
        assert(!(p =~= q));
        assert(exists|i: int| 0 <= i < n && p[i] != q[i]);
        lemma_first_difference(p, q, n);
        let i = choose|i: int| 0 <= i < n && p[i] != q[i] && forall|k: int| 0 <= k < i ==> p[k] == q[k];
        lemma_perm_holds_all(p, n, q[i] as int);
        let j = choose|j: int| 0 <= j < p.len() && p[j] == q[i];
        lemma_perm_holds_all(q, n, p[i] as int);
        let k = choose|k: int| 0 <= k < q.len() && q[k] == p[i];
        if j < i {
            assert(q[j] == p[j]);
            assert(q[j] != q[i]);
        }
        if k < i {
            assert(p[k] == q[k]);
            assert(p[k] != p[i]);
        }
        assert(lt(p[i] as int, p[j] as int));
        assert(lt(q[i] as int, q[k] as int));
    }
}

proof fn lemma_first_difference(p: Seq<usize>, q: Seq<usize>, n: nat)
    requires
        p.len() == n,
        q.len() == n,
        exists|i: int| 0 <= i < n && p[i] != q[i],
    ensures
        exists|i: int| 0 <= i < n && p[i] != q[i] && forall|k: int| 0 <= k < i ==> p[k] == q[k],
    decreases n,
{
    if n > 0 {
        if p[0] != q[0] {
            assert(0 <= 0 < n && p[0] != q[0] && forall|k: int| 0 <= k < 0 ==> p[k] == q[k]);
        } else {
            let i0 = choose|i: int| 0 <= i < n && p[i] != q[i];
            assert(p.drop_first()[i0 - 1] != q.drop_first()[i0 - 1]);
            lemma_first_difference(p.drop_first(), q.drop_first(), (n - 1) as nat);
            let i = choose|i: int| 0 <= i < n - 1 && p.drop_first()[i] != q.drop_first()[i] && forall|k: int| 0 <= k < i ==> p.drop_first()[k] == q.drop_first()[k];
            assert forall|k: int| 0 <= k < i + 1 implies p[k] == q[k] by {
                if k > 0 {
                    assert(p[k] == p.drop_first()[k - 1]);
                    assert(q[k] == q.drop_first()[k - 1]);
                }
            }
            assert(p[i + 1] != q[i + 1]);
        }
    }
}

} // verus!
