use vstd::prelude::*;
use crate::reaction::{ReactedPost, ReactedView, factor_spec};

verus! {

/// How many times `t` occurs in `tags`.
pub open spec fn count(tags: Seq<u32>, t: u32) -> nat
    decreases tags.len(),
{
    if tags.len() == 0 {
        0
    } else {
        count(tags.drop_last(), t) + if tags.last() == t { 1nat } else { 0nat }
    }
}

/// Positive weight that the history `ps` puts on tag `t`.
pub open spec fn pos_mass(ps: Seq<ReactedView>, t: u32) -> nat
    decreases ps.len(),
{
    if ps.len() == 0 {
        0
    } else {
        let p = ps.last();
        pos_mass(ps.drop_last(), t) + count(p.tags, t) * factor_spec(p.favorited, p.upvoted).0 as nat
    }
}

/// Negative weight that the history `ps` puts on tag `t`.
pub open spec fn neg_mass(ps: Seq<ReactedView>, t: u32) -> nat
    decreases ps.len(),
{
    if ps.len() == 0 {
        0
    } else {
        let p = ps.last();
        neg_mass(ps.drop_last(), t) + count(p.tags, t) * factor_spec(p.favorited, p.upvoted).1 as nat
    }
}

/// Positive weight of the whole history, summed over every tag occurrence.
pub open spec fn total_pos(ps: Seq<ReactedView>) -> nat
    decreases ps.len(),
{
    if ps.len() == 0 {
        0
    } else {
        let p = ps.last();
        total_pos(ps.drop_last()) + p.tags.len() * factor_spec(p.favorited, p.upvoted).0 as nat
    }
}

/// Negative weight of the whole history, summed over every tag occurrence.
pub open spec fn total_neg(ps: Seq<ReactedView>) -> nat
    decreases ps.len(),
{
    if ps.len() == 0 {
        0
    } else {
        let p = ps.last();
        total_neg(ps.drop_last()) + p.tags.len() * factor_spec(p.favorited, p.upvoted).1 as nat
    }
}

/// Number of tag occurrences in the history.
pub open spec fn occurrences(ps: Seq<ReactedView>) -> nat
    decreases ps.len(),
{
    if ps.len() == 0 {
        0
    } else {
        occurrences(ps.drop_last()) + ps.last().tags.len()
    }
}

/// Every tag id of the history is below `n`.
pub open spec fn tags_below(ps: Seq<ReactedView>, n: nat) -> bool {
    forall|i: int, j: int| 0 <= i < ps.len() && 0 <= j < ps[i].tags.len() ==> ps[i].tags[j] < n
}

/// The training counts of the classifier: per tag the smoothed positive and negative
/// frequencies, and the corpus-wide positive and negative totals.
pub struct Bayes {
    pub freq: Vec<(u32, u32)>,
    pub sum: (u64, u64),
}

/// The counts trained from `ps` over a vocabulary of `len` tags.
pub open spec fn trained(ps: Seq<ReactedView>, len: nat, b: Bayes) -> bool {
    &&& b.freq@.len() == len
    &&& forall|t: int| 0 <= t < len ==> #[trigger] b.freq@[t] == (
        (1 + pos_mass(ps, t as u32)) as u32,
        (1 + neg_mass(ps, t as u32)) as u32,
    )
    &&& b.sum == ((len + total_pos(ps)) as u64, (len + total_neg(ps)) as u64)
}

proof fn lemma_count_step(s: Seq<u32>, j: int, t: u32)
    requires
        0 <= j < s.len(),
    ensures
        count(s.take(j + 1), t) == count(s.take(j), t) + if s[j] == t { 1nat } else { 0nat },
{
    assert(s.take(j + 1).drop_last() =~= s.take(j));
}

proof fn lemma_count_le(s: Seq<u32>, t: u32)
    ensures
        count(s, t) <= s.len(),
    decreases s.len(),
{
    if s.len() > 0 {
        lemma_count_le(s.drop_last(), t);
    }
}

proof fn lemma_masses_le(ps: Seq<ReactedView>, t: u32)
    ensures
        pos_mass(ps, t) <= total_pos(ps),
        neg_mass(ps, t) <= total_neg(ps),
        total_pos(ps) <= 3 * occurrences(ps),
        total_neg(ps) <= 3 * occurrences(ps),
    decreases ps.len(),
{
    if ps.len() > 0 {
        let p = ps.last();
        let f = factor_spec(p.favorited, p.upvoted);
        lemma_masses_le(ps.drop_last(), t);
        lemma_count_le(p.tags, t);
        assert(count(p.tags, t) * f.0 <= p.tags.len() * f.0) by (nonlinear_arith)
            requires count(p.tags, t) <= p.tags.len();
        assert(count(p.tags, t) * f.1 <= p.tags.len() * f.1) by (nonlinear_arith)
            requires count(p.tags, t) <= p.tags.len();
        assert(p.tags.len() * f.0 <= p.tags.len() * 3) by (nonlinear_arith)
            requires f.0 <= 3;
        assert(p.tags.len() * f.1 <= p.tags.len() * 3) by (nonlinear_arith)
            requires f.1 <= 3;
    }
}

proof fn lemma_take_step(ps: Seq<ReactedView>, i: int)
    requires
        0 <= i < ps.len(),
    ensures
        ps.take(i + 1).drop_last() =~= ps.take(i),
        ps.take(i + 1).last() == ps[i],
{
}

proof fn lemma_take_le(ps: Seq<ReactedView>, i: int, t: u32)
    requires
        0 <= i <= ps.len(),
    ensures
        pos_mass(ps.take(i), t) <= pos_mass(ps, t),
        neg_mass(ps.take(i), t) <= neg_mass(ps, t),
        occurrences(ps.take(i)) <= occurrences(ps),
        total_pos(ps.take(i)) <= total_pos(ps),
        total_neg(ps.take(i)) <= total_neg(ps),
    decreases ps.len() - i,
{
    if i < ps.len() {
        lemma_take_le(ps, i + 1, t);
        lemma_take_step(ps, i);
    } else {
        assert(ps.take(i) =~= ps);
    }
}

impl Bayes {
    pub fn new() -> (r: Self)
        ensures
            r.freq@.len() == 0,
            r.sum == (0u64, 0u64),
    {
        Bayes { freq: Vec::new(), sum: (0, 0) }
    }

    /// Retrains from scratch: every one of the `len` tags starts from the smoothing
    /// floor `(1, 1)`, and each post adds its reaction weights to each of its tags.
    pub fn update(&mut self, posts: &Vec<ReactedPost>, len: usize)
        requires
            tags_below(posts@.map_values(|p: ReactedPost| p@), len as nat),
            len + 3 * occurrences(posts@.map_values(|p: ReactedPost| p@)) <= u32::MAX,
        ensures
            trained(posts@.map_values(|p: ReactedPost| p@), len as nat, *final(self)),
            forall|t: int| 0 <= t < len ==> 1 <= #[trigger] final(self).freq@[t].0 <= final(self).sum.0
                && 1 <= final(self).freq@[t].1 <= final(self).sum.1,
    {
        let ghost ps = posts@.map_values(|p: ReactedPost| p@);
        self.freq.clear();
        self.sum = (len as u64, len as u64);
        self.extend(posts, len);
        proof {
            assert(ps.take(ps.len() as int) =~= ps);
            assert forall|t: int| 0 <= t < len implies 1 <= #[trigger] self.freq@[t].0 <= self.sum.0
                && 1 <= self.freq@[t].1 <= self.sum.1 by {
                lemma_masses_le(ps, t as u32);
            }
        }
    }

    /// Grows the tables to `len` tags, new ones starting at `(1, 1)`, and adds the
    /// reaction weights of `posts` to the tables and to the totals.
    pub fn extend(&mut self, posts: &Vec<ReactedPost>, len: usize)
        requires
            old(self).freq@.len() <= len <= u32::MAX,
            tags_below(posts@.map_values(|p: ReactedPost| p@), len as nat),
            forall|t: int| 0 <= t < old(self).freq@.len() ==>
                #[trigger] old(self).freq@[t].0 + 3 * occurrences(posts@.map_values(|p: ReactedPost| p@)) <= u32::MAX
                && old(self).freq@[t].1 + 3 * occurrences(posts@.map_values(|p: ReactedPost| p@)) <= u32::MAX,
            old(self).freq@.len() < len ==> 1 + 3 * occurrences(posts@.map_values(|p: ReactedPost| p@)) <= u32::MAX,
            old(self).sum.0 + 3 * occurrences(posts@.map_values(|p: ReactedPost| p@)) <= u64::MAX,
            old(self).sum.1 + 3 * occurrences(posts@.map_values(|p: ReactedPost| p@)) <= u64::MAX,
        ensures
            final(self).freq@.len() == len,
            forall|t: int| 0 <= t < len ==> #[trigger] final(self).freq@[t] == ({
                let base = if t < old(self).freq@.len() { old(self).freq@[t] } else { (1u32, 1u32) };
                (
                    (base.0 + pos_mass(posts@.map_values(|p: ReactedPost| p@), t as u32)) as u32,
                    (base.1 + neg_mass(posts@.map_values(|p: ReactedPost| p@), t as u32)) as u32,
                )
            }),
            final(self).sum == (
                (old(self).sum.0 + total_pos(posts@.map_values(|p: ReactedPost| p@))) as u64,
                (old(self).sum.1 + total_neg(posts@.map_values(|p: ReactedPost| p@))) as u64,
            ),
    {
        let ghost ps = posts@.map_values(|p: ReactedPost| p@);
        let ghost base = self.freq@;
        let ghost sum0 = self.sum;
        while self.freq.len() < len
            invariant
                base.len() <= self.freq@.len() <= len,
                self.sum == sum0,
                forall|t: int| 0 <= t < base.len() ==> #[trigger] self.freq@[t] == base[t],
                forall|t: int| base.len() <= t < self.freq@.len() ==> #[trigger] self.freq@[t] == (1u32, 1u32),
            decreases len - self.freq.len(),
        {
            self.freq.push((1, 1));
        }
        let ghost start = self.freq@;
        let mut i: usize = 0;
        proof {
            assert(ps.take(0) =~= Seq::<ReactedView>::empty());
        }
        while i < posts.len()
            invariant
                0 <= i <= posts.len(),
                ps == posts@.map_values(|p: ReactedPost| p@),
                tags_below(ps, len as nat),
                len <= u32::MAX,
                self.freq@.len() == len,
                start.len() == len,
                forall|t: int| 0 <= t < base.len() ==> #[trigger] start[t] == base[t],
                forall|t: int| base.len() <= t < len ==> #[trigger] start[t] == (1u32, 1u32),
                forall|t: int| 0 <= t < len ==> start[t].0 + 3 * occurrences(ps) <= u32::MAX
                    && start[t].1 + 3 * occurrences(ps) <= u32::MAX,
                sum0.0 + 3 * occurrences(ps) <= u64::MAX,
                sum0.1 + 3 * occurrences(ps) <= u64::MAX,
                forall|t: int| 0 <= t < len ==> #[trigger] self.freq@[t] == (
                    (start[t].0 + pos_mass(ps.take(i as int), t as u32)) as u32,
                    (start[t].1 + neg_mass(ps.take(i as int), t as u32)) as u32,
                ),
                self.sum == (
                    (sum0.0 + total_pos(ps.take(i as int))) as u64,
                    (sum0.1 + total_neg(ps.take(i as int))) as u64,
                ),
            decreases posts.len() - i,
        {
            let post = &posts[i];
            let factor = post.factor();
            let ghost pi = ps.take(i as int);
            let ghost pv = ps[i as int];
            proof {
                lemma_take_step(ps, i as int);
                lemma_take_le(ps, i as int + 1, 0);
                assert(pv.tags == post.tags@);
            }
            let mut j: usize = 0;
            while j < post.tags.len()
                invariant
                    0 <= i < posts.len(),
                    0 <= j <= post.tags.len(),
                    post == &posts[i as int],
                    ps == posts@.map_values(|p: ReactedPost| p@),
                    pi == ps.take(i as int),
                    pv == ps[i as int],
                    pv.tags == post.tags@,
                    factor == factor_spec(pv.favorited, pv.upvoted),
                    tags_below(ps, len as nat),
                    len <= u32::MAX,
                    self.freq@.len() == len,
                    start.len() == len,
                    occurrences(pi) + pv.tags.len() <= occurrences(ps),
                    forall|t: int| 0 <= t < len ==> start[t].0 + 3 * occurrences(ps) <= u32::MAX
                        && start[t].1 + 3 * occurrences(ps) <= u32::MAX,
                    sum0.0 + 3 * occurrences(ps) <= u64::MAX,
                    sum0.1 + 3 * occurrences(ps) <= u64::MAX,
                    forall|t: int| 0 <= t < len ==> #[trigger] self.freq@[t] == (
                        (start[t].0 + pos_mass(pi, t as u32) + count(pv.tags.take(j as int), t as u32) * factor.0) as u32,
                        (start[t].1 + neg_mass(pi, t as u32) + count(pv.tags.take(j as int), t as u32) * factor.1) as u32,
                    ),
                    self.sum == (
                        (sum0.0 + total_pos(pi) + j * factor.0) as u64,
                        (sum0.1 + total_neg(pi) + j * factor.1) as u64,
                    ),
                decreases post.tags.len() - j,
            {
                let tag = post.tags[j];
                let ghost tg = tag as int;
                proof {
                    assert(ps[i as int].tags[j as int] < len);
                    lemma_masses_le(pi, tag);
                    lemma_count_le(pv.tags.take(j as int), tag);
                    lemma_count_step(pv.tags, j as int, tag);
                    let c = count(pv.tags.take(j as int), tag);
                    assert(c * factor.0 <= j * 3) by (nonlinear_arith)
                        requires c <= j, factor.0 <= 3;
                    assert(c * factor.1 <= j * 3) by (nonlinear_arith)
                        requires c <= j, factor.1 <= 3;
                    assert(j * factor.0 <= j * 3) by (nonlinear_arith)
                        requires factor.0 <= 3;
                    assert(j * factor.1 <= j * 3) by (nonlinear_arith)
                        requires factor.1 <= 3;
                }
                let ghost prev = self.freq@;
                let old_pair = self.freq[tag as usize];
                self.freq.set(tag as usize, (old_pair.0 + factor.0, old_pair.1 + factor.1));
                self.sum = (self.sum.0 + factor.0 as u64, self.sum.1 + factor.1 as u64);
                proof {
                    assert forall|t: int| 0 <= t < len implies #[trigger] self.freq@[t] == (
                        (start[t].0 + pos_mass(pi, t as u32) + count(pv.tags.take(j + 1), t as u32) * factor.0) as u32,
                        (start[t].1 + neg_mass(pi, t as u32) + count(pv.tags.take(j + 1), t as u32) * factor.1) as u32,
                    ) by {
                        lemma_count_step(pv.tags, j as int, t as u32);
                        lemma_masses_le(pi, t as u32);
                        lemma_count_le(pv.tags.take(j as int), t as u32);
                        let c = count(pv.tags.take(j as int), t as u32);
                        assert(prev[t] == (
                            (start[t].0 + pos_mass(pi, t as u32) + c * factor.0) as u32,
                            (start[t].1 + neg_mass(pi, t as u32) + c * factor.1) as u32,
                        ));
                        assert(c * factor.0 <= j * 3) by (nonlinear_arith)
                            requires c <= j, factor.0 <= 3;
                        assert(c * factor.1 <= j * 3) by (nonlinear_arith)
                            requires c <= j, factor.1 <= 3;
                        assert((c + 1) * factor.0 == c * factor.0 + factor.0) by (nonlinear_arith);
                        assert((c + 1) * factor.1 == c * factor.1 + factor.1) by (nonlinear_arith);
                        assert(pos_mass(pi, t as u32) <= 3 * occurrences(pi));
                        assert(neg_mass(pi, t as u32) <= 3 * occurrences(pi));
                        assert(pv.tags[j as int] == tag);
                        if t == tg {
                            assert(old_pair == prev[t]);
                            assert(self.freq@[t] == (
                                (old_pair.0 + factor.0) as u32,
                                (old_pair.1 + factor.1) as u32,
                            ));
                        } else {
                            assert(self.freq@[t] == prev[t]);
                            assert(t as u32 != tag);
                        }
                    }
                    assert((j + 1) * factor.0 == j * factor.0 + factor.0) by (nonlinear_arith);
                    assert((j + 1) * factor.1 == j * factor.1 + factor.1) by (nonlinear_arith);
                }
                j += 1;
            }
            proof {
                assert(pv.tags.take(j as int) =~= pv.tags);
            }
            i += 1;
        }
        proof {
            assert(ps.take(i as int) =~= ps);
        }
    }
}

} // verus!
