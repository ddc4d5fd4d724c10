use vstd::prelude::*;

verus! {

/// Candidate `x` comes before candidate `y`: a higher key, or an equal key and an
/// earlier position.
pub open spec fn ranks_before(keys: Seq<u32>, x: usize, y: usize) -> bool {
    keys[x as int] > keys[y as int] || (keys[x as int] == keys[y as int] && x < y)
}

/// The positions `0..keys.len()` ordered by key, highest first; candidates with equal
/// keys stay in order of position, and every position appears exactly once.
pub fn rank(keys: &Vec<u32>) -> (r: Vec<usize>)
    ensures
        r@.len() == keys@.len(),
        r@.no_duplicates(),
        forall|k: int| 0 <= k < r@.len() ==> #[trigger] r@[k] < keys@.len(),
        forall|j: usize| j < keys@.len() ==> r@.contains(j),
        forall|a: int, b: int| 0 <= a < b < r@.len() ==> ranks_before(keys@, #[trigger] r@[a], #[trigger] r@[b]),
{
    let mut r: Vec<usize> = Vec::new();
    let mut i: usize = 0;
    while i < keys.len()
        invariant
            0 <= i <= keys.len(),
            r@.len() == i,
            r@.no_duplicates(),
            forall|k: int| 0 <= k < r@.len() ==> #[trigger] r@[k] < i,
            forall|j: usize| j < i ==> r@.contains(j),
            forall|a: int, b: int| 0 <= a < b < r@.len() ==> ranks_before(keys@, #[trigger] r@[a], #[trigger] r@[b]),
        decreases keys.len() - i,
    {
        let key = keys[i];
        let mut p: usize = 0;
        while p < r.len() && keys[r[p]] >= key
            invariant
                0 <= p <= r@.len(),
                r@.len() == i,
                i < keys@.len(),
                key == keys@[i as int],
                forall|k: int| 0 <= k < r@.len() ==> #[trigger] r@[k] < i,
                forall|a: int| 0 <= a < p ==> keys@[#[trigger] r@[a] as int] >= key,
            decreases r@.len() - p,
        {
            p += 1;
        }
        let ghost old_r = r@;
        proof {
            assert forall|a: int| p <= a < old_r.len() implies keys@[#[trigger] old_r[a] as int] < key by {
                if a > p {
                    assert(ranks_before(keys@, old_r[p as int], old_r[a]));
                }
            }
        }
        r.insert(p, i);
        proof {
            assert(r@ == old_r.insert(p as int, i));
            assert forall|k: int| 0 <= k < r@.len() implies #[trigger] r@[k] < i + 1 by {
                if k < p {
                    assert(r@[k] == old_r[k]);
                } else if k > p {
                    assert(r@[k] == old_r[k - 1]);
                }
            }
            assert forall|j: usize| j < i + 1 implies r@.contains(j) by {
                if j == i {
                    assert(r@[p as int] == i);
                } else {
                    assert(old_r.contains(j));
                    let k = choose|k: int| 0 <= k < old_r.len() && old_r[k] == j;
                    if k < p {
                        assert(r@[k] == j);
                    } else {
                        assert(r@[k + 1] == j);
                    }
                }
            }
            assert forall|a: int, b: int| 0 <= a < r@.len() && 0 <= b < r@.len() && a != b implies r@[a] != r@[b] by {
                let oa = if a < p { a } else { a - 1 };
                let ob = if b < p { b } else { b - 1 };
                if a != p && b != p {
                    assert(r@[a] == old_r[oa] && r@[b] == old_r[ob]);
                } else if a == p {
                    assert(r@[b] == old_r[ob]);
                } else {
                    assert(r@[a] == old_r[oa]);
                }
            }
            assert forall|a: int, b: int| 0 <= a < b < r@.len() implies ranks_before(keys@, #[trigger] r@[a], #[trigger] r@[b]) by {
                let oa = if a < p { a } else { a - 1 };
                let ob = if b < p { b } else { b - 1 };
                if a != p && b != p {
                    assert(r@[a] == old_r[oa] && r@[b] == old_r[ob]);
                    assert(ranks_before(keys@, old_r[oa], old_r[ob]));
                } else if a == p {
                    assert(r@[b] == old_r[ob]);
                    assert(keys@[old_r[ob] as int] < key);
                } else {
                    assert(r@[a] == old_r[oa]);
                    assert(keys@[old_r[oa] as int] >= key);
                    assert(old_r[oa] < i);
                }
            }
        }
        i += 1;
    }
    r
}

} // verus!
