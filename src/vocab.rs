use vstd::prelude::*;

verus! {

/// The id of `t` in the vocabulary `v`: its position, if it is there.
pub open spec fn id_of(v: Seq<Seq<char>>, t: Seq<char>) -> Option<u32> {
    if exists|i: int| 0 <= i < v.len() && v[i] == t {
        Some((choose|i: int| 0 <= i < v.len() && v[i] == t) as u32)
    } else {
        None
    }
}

/// The vocabulary after `t` has been registered.
pub open spec fn registered(v: Seq<Seq<char>>, t: Seq<char>) -> Seq<Seq<char>> {
    if v.contains(t) {
        v
    } else {
        v.push(t)
    }
}

/// The vocabulary after every tag of `ts` has been registered, in order.
pub open spec fn registered_all(v: Seq<Seq<char>>, ts: Seq<Seq<char>>) -> Seq<Seq<char>>
    decreases ts.len(),
{
    if ts.len() == 0 {
        v
    } else {
        registered(registered_all(v, ts.drop_last()), ts.last())
    }
}

/// Maps tag strings to dense ids: a tag's id is its position in order of first sighting.
pub struct TagVocabulary {
    tags: Vec<String>,
}

impl View for TagVocabulary {
    type V = Seq<Seq<char>>;

    closed spec fn view(&self) -> Seq<Seq<char>> {
        self.tags@.map_values(|t: String| t@)
    }
}

proof fn lemma_id_of_index(v: Seq<Seq<char>>, i: int)
    requires
        v.no_duplicates(),
        0 <= i < v.len() <= u32::MAX,
    ensures
        id_of(v, v[i]) == Some(i as u32),
{
    assert(0 <= i < v.len() && v[i] == v[i]);
}

impl TagVocabulary {
    pub open spec fn wf(&self) -> bool {
        self@.no_duplicates() && self@.len() <= u32::MAX
    }

    pub fn new() -> (r: Self)
        ensures
            r.wf(),
            r@ == Seq::<Seq<char>>::empty(),
    {
        TagVocabulary { tags: Vec::new() }
    }

    /// Builds a vocabulary from tags listed in id order.
    pub fn from_tags(tags: Vec<String>) -> (r: Option<Self>)
        ensures
            r is Some <==> (tags@.map_values(|t: String| t@).no_duplicates() && tags@.len() <= u32::MAX),
            r matches Some(v) ==> v@ == tags@.map_values(|t: String| t@),
    {
        let ghost tv = tags@.map_values(|t: String| t@);
        if tags.len() > u32::MAX as usize {
            return None;
        }
        let mut i: usize = 0;
        while i < tags.len()
            invariant
                0 <= i <= tags.len() <= u32::MAX,
                tv == tags@.map_values(|t: String| t@),
                forall|a: int, b: int| 0 <= a < i && 0 <= b < tv.len() && a != b ==> tv[a] != tv[b],
            decreases tags.len() - i,
        {
            let mut j: usize = 0;
            while j < tags.len()
                invariant
                    0 <= i < tags.len(),
                    0 <= j <= tags.len(),
                    tv == tags@.map_values(|t: String| t@),
                    forall|b: int| 0 <= b < j && b != i ==> tv[i as int] != tv[b],
                decreases tags.len() - j,
            {
                if j != i && tags[i] == tags[j] {
                    proof {
                        assert(tv[i as int] == tags@[i as int]@ && tv[j as int] == tags@[j as int]@);
                        assert(!tv.no_duplicates());
                    }
                    return None;
                }
                j += 1;
            }
            i += 1;
        }
        Some(TagVocabulary { tags })
    }

    /// The tags in id order.
    pub fn tags(&self) -> (r: &Vec<String>)
        ensures
            r@.map_values(|t: String| t@) == self@,
    {
        &self.tags
    }

    pub fn len(&self) -> (r: usize)
        ensures
            r == self@.len(),
    {
        self.tags.len()
    }

    /// The id of `tag`, if it has been seen. Does not change the vocabulary.
    pub fn lookup(&self, tag: &String) -> (r: Option<u32>)
        requires
            self.wf(),
        ensures
            r == id_of(self@, tag@),
            r is Some <==> self@.contains(tag@),
            r matches Some(k) ==> k < self@.len() && self@[k as int] == tag@,
    {
        let mut i: usize = 0;
        while i < self.tags.len()
            invariant
                0 <= i <= self.tags.len(),
                self.wf(),
                forall|k: int| 0 <= k < i ==> self@[k] != tag@,
            decreases self.tags.len() - i,
        {
            if self.tags[i] == *tag {
                proof {
                    lemma_id_of_index(self@, i as int);
                }
                return Some(i as u32);
            }
            i += 1;
        }
        None
    }

    /// The id of `tag`; an unseen tag gets the next free id.
    pub fn get_or_create(&mut self, tag: &String) -> (r: u32)
        requires
            old(self).wf(),
            old(self)@.len() < u32::MAX,
        ensures
            final(self).wf(),
            final(self)@ == registered(old(self)@, tag@),
            id_of(final(self)@, tag@) == Some(r),
            r < final(self)@.len(),
    {
        match self.lookup(tag) {
            Some(k) => k,
            None => {
                let k = self.tags.len() as u32;
                let ghost v = self@;
                self.tags.push(tag.clone());
                proof {
                    assert(self@ =~= v.push(tag@));
                    lemma_id_of_index(self@, k as int);
                }
                k
            },
        }
    }
}

/// Registering a tag keeps the ids of all tags seen before and adds no duplicate.
pub proof fn lemma_registered_keeps_ids(v: Seq<Seq<char>>, t: Seq<char>, u: Seq<char>)
    requires
        v.no_duplicates(),
        v.len() < u32::MAX,
        id_of(v, u) is Some,
    ensures
        registered(v, t).no_duplicates(),
        id_of(registered(v, t), u) == id_of(v, u),
{
    let i = choose|i: int| 0 <= i < v.len() && v[i] == u;
    lemma_id_of_index(v, i);
    lemma_id_of_index(registered(v, t), i);
}

/// Over any sequence of registrations, a tag seen before keeps its id, and the ids
/// handed out are exactly `0..k` where `k` is the number of distinct tags seen.
pub proof fn lemma_ids_stable_and_dense(ts: Seq<Seq<char>>, u: Seq<char>, n: int)
    requires
        ts.len() < u32::MAX,
        0 <= n <= ts.len(),
        id_of(registered_all(Seq::empty(), ts.take(n)), u) is Some,
    ensures
        id_of(registered_all(Seq::empty(), ts), u) == id_of(registered_all(Seq::empty(), ts.take(n)), u),
        registered_all(Seq::empty(), ts).len() == ts.to_set().len(),
        forall|i: int| 0 <= i < registered_all(Seq::empty(), ts).len()
            ==> id_of(registered_all(Seq::empty(), ts), #[trigger] registered_all(Seq::empty(), ts)[i]) == Some(i as u32),
    decreases ts.len(),
{
    lemma_registered_all_facts(ts);
    let v = registered_all(Seq::empty(), ts);
    if n < ts.len() {
        assert(ts.drop_last().take(n) =~= ts.take(n));
        lemma_ids_stable_and_dense(ts.drop_last(), u, n);
        lemma_registered_all_facts(ts.drop_last());
        lemma_registered_keeps_ids(registered_all(Seq::empty(), ts.drop_last()), ts.last(), u);
    } else {
        assert(ts.take(n) =~= ts);
    }
    assert forall|i: int| 0 <= i < v.len() implies id_of(v, #[trigger] v[i]) == Some(i as u32) by {
        lemma_id_of_index(v, i);
    }
}

/// The vocabulary built from `ts` holds each distinct tag of `ts` once.
proof fn lemma_registered_all_facts(ts: Seq<Seq<char>>)
    ensures
        registered_all(Seq::empty(), ts).no_duplicates(),
        registered_all(Seq::empty(), ts).to_set() == ts.to_set(),
        registered_all(Seq::empty(), ts).len() == ts.to_set().len(),
        registered_all(Seq::empty(), ts).len() <= ts.len(),
    decreases ts.len(),
{
    let v = registered_all(Seq::<Seq<char>>::empty(), ts);
    if ts.len() == 0 {
        assert(v.to_set() =~= ts.to_set());
    } else {
        lemma_registered_all_facts(ts.drop_last());
        let w = registered_all(Seq::<Seq<char>>::empty(), ts.drop_last());
        assert(ts =~= ts.drop_last().push(ts.last()));
        assert(ts.to_set() =~= ts.drop_last().to_set().insert(ts.last())) by {
            assert forall|x| ts.to_set().contains(x) <==> ts.drop_last().to_set().insert(ts.last()).contains(x) by {
                if ts.contains(x) {
                    let k = choose|k: int| 0 <= k < ts.len() && ts[k] == x;
                    if k < ts.len() - 1 {
                        assert(ts.drop_last()[k] == x);
                    }
                }
                if ts.drop_last().contains(x) {
                    let k = choose|k: int| 0 <= k < ts.drop_last().len() && ts.drop_last()[k] == x;
                    assert(ts[k] == x);
                }
            }
        }
        if !w.contains(ts.last()) {
            assert(v.to_set() =~= w.to_set().insert(ts.last())) by {
                assert forall|x| v.to_set().contains(x) <==> w.to_set().insert(ts.last()).contains(x) by {
                    if v.contains(x) {
                        let k = choose|k: int| 0 <= k < v.len() && v[k] == x;
                        if k < w.len() {
                            assert(w[k] == x);
                        }
                    }
                    if w.contains(x) {
                        let k = choose|k: int| 0 <= k < w.len() && w[k] == x;
                        assert(v[k] == x);
                    }
                    if x == ts.last() {
                        assert(v[w.len() as int] == x);
                    }
                }
            }
        }
    }
    v.unique_seq_to_set();
}

} // verus!
