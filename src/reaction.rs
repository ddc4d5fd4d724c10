use vstd::prelude::*;

verus! {

/// Training weights `(positive, negative)` for a pair of reaction flags.
pub open spec fn factor_spec(favorited: bool, upvoted: bool) -> (u32, u32) {
    if favorited && upvoted {
        (3, 0)
    } else if favorited {
        (2, 0)
    } else if upvoted {
        (1, 0)
    } else {
        (0, 2)
    }
}

/// A post reduced to its identifier and the ids of its known tags.
pub struct Post {
    pub id: u32,
    pub tags: Vec<u32>,
}

/// A post the user reacted to: its identifier, the two reaction flags and its tag ids.
pub struct ReactedPost {
    pub id: u32,
    pub favorited: bool,
    pub upvoted: bool,
    pub tags: Vec<u32>,
}

/// Mathematical value of a [`ReactedPost`].
pub struct ReactedView {
    pub id: u32,
    pub favorited: bool,
    pub upvoted: bool,
    pub tags: Seq<u32>,
}

impl View for ReactedPost {
    type V = ReactedView;

    open spec fn view(&self) -> ReactedView {
        ReactedView {
            id: self.id,
            favorited: self.favorited,
            upvoted: self.upvoted,
            tags: self.tags@,
        }
    }
}

/// The record kept when `incoming` is seen again for an already stored `kept`:
/// flags are OR-merged, the first-seen tag list stays.
pub open spec fn merged(kept: ReactedView, incoming: ReactedView) -> ReactedView {
    ReactedView {
        id: kept.id,
        favorited: kept.favorited || incoming.favorited,
        upvoted: kept.upvoted || incoming.upvoted,
        tags: kept.tags,
    }
}

impl ReactedPost {
    pub fn new(post: Post, is_fav: bool, is_up: bool) -> (r: Self)
        ensures
            r@ == (ReactedView { id: post.id, favorited: is_fav, upvoted: is_up, tags: post.tags@ }),
    {
        ReactedPost { id: post.id, favorited: is_fav, upvoted: is_up, tags: post.tags }
    }

    pub fn id(&self) -> (r: u32)
        ensures
            r == self.id,
    {
        self.id
    }

    pub fn factor(&self) -> (r: (u32, u32))
        ensures
            r == factor_spec(self.favorited, self.upvoted),
    {
        if self.favorited && self.upvoted {
            (3, 0)
        } else if self.favorited {
            (2, 0)
        } else if self.upvoted {
            (1, 0)
        } else {
            (0, 2)
        }
    }

    pub fn mix(&mut self, post: ReactedPost)
        ensures
            final(self)@ == merged(old(self)@, post@),
    {
        self.favorited = self.favorited || post.favorited;
        self.upvoted = self.upvoted || post.upvoted;
    }
}

/// No two records share an identifier.
pub open spec fn unique_ids(s: Seq<ReactedView>) -> bool {
    forall|i: int, j: int| 0 <= i < s.len() && 0 <= j < s.len() && i != j ==> s[i].id != s[j].id
}

/// The history after `p` is pushed into `s`.
pub open spec fn pushed(s: Seq<ReactedView>, p: ReactedView) -> Seq<ReactedView> {
    if exists|i: int| 0 <= i < s.len() && s[i].id == p.id {
        let i = choose|i: int| 0 <= i < s.len() && s[i].id == p.id;
        s.update(i, merged(s[i], p))
    } else {
        s.push(p)
    }
}

/// The user's reaction history: one record per post identifier.
pub struct ReactionStore {
    pub posts: Vec<ReactedPost>,
}

impl View for ReactionStore {
    type V = Seq<ReactedView>;

    open spec fn view(&self) -> Seq<ReactedView> {
        self.posts@.map_values(|p: ReactedPost| p@)
    }
}

impl ReactionStore {
    pub open spec fn wf(&self) -> bool {
        unique_ids(self@)
    }

    pub fn new() -> (r: Self)
        ensures
            r@ == Seq::<ReactedView>::empty(),
            r.wf(),
    {
        ReactionStore { posts: Vec::new() }
    }

    pub fn len(&self) -> (r: usize)
        ensures
            r == self@.len(),
    {
        self.posts.len()
    }

    /// Stores `post`, or merges its flags into the record with the same identifier.
    pub fn push_post(&mut self, post: ReactedPost)
        requires
            old(self).wf(),
        ensures
            final(self).wf(),
            final(self)@ == pushed(old(self)@, post@),
    {
        let ghost s = self@;
        let ghost pv = post@;
        let mut i: usize = 0;
        while i < self.posts.len() && self.posts[i].id() != post.id()
            invariant
                0 <= i <= self.posts.len(),
                self@ == s,
                unique_ids(s),
                forall|k: int| 0 <= k < i ==> s[k].id != post.id,
            decreases self.posts.len() - i,
        {
            i += 1;
        }
        if i < self.posts.len() {
            let mut rec = self.posts.remove(i);
            rec.mix(post);
            self.posts.insert(i, rec);
            proof {
                assert(0 <= i < s.len() && s[i as int].id == pv.id);
                lemma_lookup_unique(s, i as int, pv.id);
                assert(self@ =~= s.update(i as int, merged(s[i as int], pv)));
            }
        } else {
            self.posts.push(post);
            proof {
                assert(self@ =~= s.push(pv));
            }
        }
        proof {
            lemma_pushed_unique(s, pv);
        }
    }
}

proof fn lemma_lookup_unique(s: Seq<ReactedView>, i: int, id: u32)
    requires
        unique_ids(s),
        0 <= i < s.len(),
        s[i].id == id,
    ensures
        (choose|j: int| 0 <= j < s.len() && s[j].id == id) == i,
{
}

/// Pushing a record keeps identifiers unique.
pub proof fn lemma_pushed_unique(s: Seq<ReactedView>, p: ReactedView)
    requires
        unique_ids(s),
    ensures
        unique_ids(pushed(s, p)),
{
}

/// Seeing a post first as upvoted and then as favorited leaves exactly one record for it,
/// which carries both flags and so trains with the weights `(3, 0)`.
pub proof fn lemma_merge_upvote_then_favorite(s: Seq<ReactedView>, id: u32, t1: Seq<u32>, t2: Seq<u32>)
    requires
        unique_ids(s),
    ensures
        ({
            let r = pushed(
                pushed(s, ReactedView { id, favorited: false, upvoted: true, tags: t1 }),
                ReactedView { id, favorited: true, upvoted: false, tags: t2 },
            );
            unique_ids(r) && exists|i: int|
                0 <= i < r.len() && r[i].id == id && r[i].favorited && r[i].upvoted
                    && factor_spec(r[i].favorited, r[i].upvoted) == (3u32, 0u32)
        }),
{
    let a = ReactedView { id, favorited: false, upvoted: true, tags: t1 };
    let b = ReactedView { id, favorited: true, upvoted: false, tags: t2 };
    let s1 = pushed(s, a);
    lemma_pushed_unique(s, a);
    lemma_pushed_unique(s1, b);
    let i1: int = if exists|i: int| 0 <= i < s.len() && s[i].id == id {
        choose|i: int| 0 <= i < s.len() && s[i].id == id
    } else {
        s.len() as int
    };
    assert(0 <= i1 < s1.len() && s1[i1].id == id && s1[i1].upvoted);
    lemma_lookup_unique(s1, i1, id);
    let r = pushed(s1, b);
    assert(r[i1].favorited && r[i1].upvoted && r[i1].id == id);
}

} // verus!
