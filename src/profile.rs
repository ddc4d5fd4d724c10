use vstd::prelude::*;
use crate::api::{RawPost, RawView};
use crate::bayes::{Bayes, occurrences, tags_below, trained};
use crate::reaction::{Post, ReactedPost, ReactedView, ReactionStore, pushed, merged, unique_ids};
use crate::vocab::{TagVocabulary, id_of, registered, registered_all};

verus! {

/// The ids of the tags of `ts` that `v` knows, in order; unknown tags are dropped.
pub open spec fn ids_of(v: Seq<Seq<char>>, ts: Seq<Seq<char>>) -> Seq<u32>
    decreases ts.len(),
{
    if ts.len() == 0 {
        Seq::empty()
    } else {
        match id_of(v, ts.last()) {
            Some(k) => ids_of(v, ts.drop_last()).push(k),
            None => ids_of(v, ts.drop_last()),
        }
    }
}

/// Vocabulary and history after the posts of `b` were ingested with the given flags:
/// each post's tags are registered, then the post is pushed with their ids.
pub open spec fn ingested(
    v: Seq<Seq<char>>,
    s: Seq<ReactedView>,
    b: Seq<RawView>,
    fav: bool,
    up: bool,
) -> (Seq<Seq<char>>, Seq<ReactedView>)
    decreases b.len(),
{
    if b.len() == 0 {
        (v, s)
    } else {
        let prev = ingested(v, s, b.drop_last(), fav, up);
        let r = b.last();
        let v2 = registered_all(prev.0, r.tags);
        (v2, pushed(prev.1, ReactedView { id: r.id, favorited: fav, upvoted: up, tags: ids_of(v2, r.tags) }))
    }
}

/// Number of tags over all posts of `b`.
pub open spec fn tag_total(b: Seq<RawView>) -> nat
    decreases b.len(),
{
    if b.len() == 0 {
        0
    } else {
        tag_total(b.drop_last()) + b.last().tags.len()
    }
}

/// Why a profile could not be rebuilt: the tag ids or the training counts would leave
/// the `u32` range.
pub enum ProfileError {
    CapacityExceeded,
}

/// The user's data: vocabulary, reaction history, training counts and credentials.
pub struct Profile {
    pub posts: ReactionStore,
    pub bayes: Bayes,
    pub tags: TagVocabulary,
    pub user: String,
    pub token: String,
}

proof fn lemma_registered_all_grows(v: Seq<Seq<char>>, ts: Seq<Seq<char>>)
    requires
        v.no_duplicates(),
    ensures
        registered_all(v, ts).no_duplicates(),
        v.len() <= registered_all(v, ts).len() <= v.len() + ts.len(),
        forall|i: int| 0 <= i < v.len() ==> #[trigger] registered_all(v, ts)[i] == v[i],
        forall|i: int| 0 <= i < ts.len() ==> registered_all(v, ts).contains(#[trigger] ts[i]),
    decreases ts.len(),
{
    if ts.len() > 0 {
        lemma_registered_all_grows(v, ts.drop_last());
        let w = registered_all(v, ts.drop_last());
        let t = ts.last();
        if !w.contains(t) {
            assert(w.push(t)[w.len() as int] == t);
        }
        assert forall|i: int| 0 <= i < ts.len() implies registered_all(v, ts).contains(#[trigger] ts[i]) by {
            if i < ts.len() - 1 {
                assert(ts.drop_last()[i] == ts[i]);
                let k = choose|k: int| 0 <= k < w.len() && w[k] == ts[i];
                assert(registered(w, t)[k] == ts[i]);
            } else if w.contains(t) {
            } else {
                assert(registered(w, t)[w.len() as int] == t);
            }
        }
    }
}

proof fn lemma_ids_of_facts(v: Seq<Seq<char>>, ts: Seq<Seq<char>>)
    requires
        v.len() <= u32::MAX,
    ensures
        ids_of(v, ts).len() <= ts.len(),
        forall|i: int| 0 <= i < ids_of(v, ts).len() ==> #[trigger] ids_of(v, ts)[i] < v.len(),
        (forall|i: int| 0 <= i < ts.len() ==> !v.contains(#[trigger] ts[i])) ==> ids_of(v, ts).len() == 0,
    decreases ts.len(),
{
    if ts.len() > 0 {
        lemma_ids_of_facts(v, ts.drop_last());
        if (forall|i: int| 0 <= i < ts.len() ==> !v.contains(#[trigger] ts[i])) {
            assert forall|i: int| 0 <= i < ts.drop_last().len() implies !v.contains(#[trigger] ts.drop_last()[i]) by {
                assert(ts.drop_last()[i] == ts[i]);
            }
            assert(!v.contains(ts[ts.len() - 1]));
        }
    }
}

proof fn lemma_occurrences_update(s: Seq<ReactedView>, i: int, r: ReactedView)
    requires
        0 <= i < s.len(),
        r.tags == s[i].tags,
    ensures
        occurrences(s.update(i, r)) == occurrences(s),
    decreases s.len(),
{
    if i < s.len() - 1 {
        assert(s.update(i, r).drop_last() =~= s.drop_last().update(i, r));
        lemma_occurrences_update(s.drop_last(), i, r);
    } else {
        assert(s.update(i, r).drop_last() =~= s.drop_last());
    }
}

proof fn lemma_pushed_bounds(s: Seq<ReactedView>, p: ReactedView, n: nat)
    requires
        tags_below(s, n),
        forall|j: int| 0 <= j < p.tags.len() ==> #[trigger] p.tags[j] < n,
    ensures
        tags_below(pushed(s, p), n),
        occurrences(pushed(s, p)) <= occurrences(s) + p.tags.len(),
{
    if exists|i: int| 0 <= i < s.len() && s[i].id == p.id {
        let i = choose|i: int| 0 <= i < s.len() && s[i].id == p.id;
        lemma_occurrences_update(s, i, merged(s[i], p));
    } else {
        assert(s.push(p).drop_last() =~= s);
    }
}

proof fn lemma_tags_below_mono(s: Seq<ReactedView>, n: nat, m: nat)
    requires
        tags_below(s, n),
        n <= m,
    ensures
        tags_below(s, m),
{
}

proof fn lemma_tag_total_take(b: Seq<RawView>, i: int)
    requires
        0 <= i <= b.len(),
    ensures
        tag_total(b.take(i)) <= tag_total(b),
        i < b.len() ==> tag_total(b.take(i + 1)) == tag_total(b.take(i)) + b[i].tags.len(),
        i < b.len() ==> b.take(i + 1).drop_last() =~= b.take(i) && b.take(i + 1).last() == b[i],
    decreases b.len() - i,
{
    if i < b.len() {
        assert(b.take(i + 1).drop_last() =~= b.take(i));
        lemma_tag_total_take(b, i + 1);
    } else {
        assert(b.take(i) =~= b);
    }
}

/// The number of tags over all posts of `batch`, or some value above `u32::MAX`
/// where that number is above it.
fn tag_total_capped(batch: &Vec<RawPost>) -> (r: u64)
    ensures
        r <= u32::MAX ==> r == tag_total(batch@.map_values(|p: RawPost| p@)),
        r > u32::MAX ==> tag_total(batch@.map_values(|p: RawPost| p@)) > u32::MAX,
{
    let ghost b = batch@.map_values(|p: RawPost| p@);
    let mut acc: u64 = 0;
    let mut i: usize = 0;
    while i < batch.len()
        invariant
            0 <= i <= batch.len(),
            b == batch@.map_values(|p: RawPost| p@),
            acc <= u32::MAX,
            acc == tag_total(b.take(i as int)),
        decreases batch.len() - i,
    {
        proof {
            lemma_tag_total_take(b, i as int);
            lemma_tag_total_take(b, i as int + 1);
            assert(b[i as int].tags.len() == batch@[i as int].tags@.len());
        }
        let n = batch[i].tags.len();
        if n > u32::MAX as usize || acc + n as u64 > u32::MAX as u64 {
            return u32::MAX as u64 + 1;
        }
        acc = acc + n as u64;
        i += 1;
    }
    proof {
        assert(b.take(i as int) =~= b);
    }
    acc
}

/// Whether no two posts share an identifier.
fn ids_unique(posts: &Vec<ReactedPost>) -> (r: bool)
    ensures
        r == unique_ids(posts@.map_values(|p: ReactedPost| p@)),
{
    let ghost s = posts@.map_values(|p: ReactedPost| p@);
    let mut i: usize = 0;
    while i < posts.len()
        invariant
            0 <= i <= posts.len(),
            s == posts@.map_values(|p: ReactedPost| p@),
            forall|a: int, b: int| 0 <= a < i && 0 <= b < s.len() && a != b ==> s[a].id != s[b].id,
        decreases posts.len() - i,
    {
        let mut j: usize = 0;
        while j < posts.len()
            invariant
                0 <= i < posts.len(),
                0 <= j <= posts.len(),
                s == posts@.map_values(|p: ReactedPost| p@),
                forall|b: int| 0 <= b < j && b != i ==> s[i as int].id != s[b].id,
            decreases posts.len() - j,
        {
            if j != i && posts[i].id == posts[j].id {
                proof {
                    assert(s[i as int].id == s[j as int].id);
                }
                return false;
            }
            j += 1;
        }
        i += 1;
    }
    true
}

/// Whether every tag id of the posts is below `n`.
fn all_tags_below(posts: &Vec<ReactedPost>, n: usize) -> (r: bool)
    ensures
        r == tags_below(posts@.map_values(|p: ReactedPost| p@), n as nat),
{
    let ghost s = posts@.map_values(|p: ReactedPost| p@);
    let mut i: usize = 0;
    while i < posts.len()
        invariant
            0 <= i <= posts.len(),
            s == posts@.map_values(|p: ReactedPost| p@),
            forall|a: int, b: int| 0 <= a < i && 0 <= b < s[a].tags.len() ==> s[a].tags[b] < n,
        decreases posts.len() - i,
    {
        let tags = &posts[i].tags;
        let mut j: usize = 0;
        while j < tags.len()
            invariant
                0 <= i < posts.len(),
                0 <= j <= tags.len(),
                tags == &posts[i as int].tags,
                s == posts@.map_values(|p: ReactedPost| p@),
                forall|b: int| 0 <= b < j ==> s[i as int].tags[b] < n,
            decreases tags.len() - j,
        {
            if tags[j] as usize >= n {
                proof {
                    assert(s[i as int].tags[j as int] >= n);
                    assert(!tags_below(s, n as nat));
                }
                return false;
            }
            j += 1;
        }
        i += 1;
    }
    true
}

proof fn lemma_occurrences_take(s: Seq<ReactedView>, i: int)
    requires
        0 <= i <= s.len(),
    ensures
        occurrences(s.take(i)) <= occurrences(s),
        i < s.len() ==> occurrences(s.take(i + 1)) == occurrences(s.take(i)) + s[i].tags.len(),
    decreases s.len() - i,
{
    if i < s.len() {
        assert(s.take(i + 1).drop_last() =~= s.take(i));
        lemma_occurrences_take(s, i + 1);
    } else {
        assert(s.take(i) =~= s);
    }
}

/// The number of tag occurrences of the posts, or some value above `u32::MAX` where
/// that number is above it.
fn occurrences_capped(posts: &Vec<ReactedPost>) -> (r: u64)
    ensures
        r <= u32::MAX ==> r == occurrences(posts@.map_values(|p: ReactedPost| p@)),
        r > u32::MAX ==> occurrences(posts@.map_values(|p: ReactedPost| p@)) > u32::MAX,
{
    let ghost s = posts@.map_values(|p: ReactedPost| p@);
    let mut acc: u64 = 0;
    let mut i: usize = 0;
    while i < posts.len()
        invariant
            0 <= i <= posts.len(),
            s == posts@.map_values(|p: ReactedPost| p@),
            acc <= u32::MAX,
            acc == occurrences(s.take(i as int)),
        decreases posts.len() - i,
    {
        proof {
            lemma_occurrences_take(s, i as int);
            lemma_occurrences_take(s, i as int + 1);
        }
        let n = posts[i].tags.len();
        if n > u32::MAX as usize || acc + n as u64 > u32::MAX as u64 {
            return u32::MAX as u64 + 1;
        }
        acc = acc + n as u64;
        i += 1;
    }
    proof {
        assert(s.take(i as int) =~= s);
    }
    acc
}

impl Profile {
    /// The invariant tying the parts together: ids unique, every stored tag id known to
    /// the vocabulary, and the counts trained on the history.
    pub open spec fn wf(&self) -> bool {
        &&& self.tags.wf()
        &&& self.posts.wf()
        &&& tags_below(self.posts@, self.tags@.len())
        &&& trained(self.posts@, self.tags@.len(), self.bayes)
    }

    /// A profile with no tags and no reactions.
    pub fn new(username: &str, api_token: &str) -> (r: Self)
        ensures
            r.wf(),
            r.tags@.len() == 0,
            r.posts@.len() == 0,
            r.user@ == username@,
            r.token@ == api_token@,
    {
        Profile {
            posts: ReactionStore::new(),
            bayes: Bayes::new(),
            tags: TagVocabulary::new(),
            user: username.to_string(),
            token: api_token.to_string(),
        }
    }

    /// Rebuilds a profile from persisted tables: the tags in id order and the history.
    /// The counts are retrained from the history. Fails where the tables do not fit
    /// together: a repeated tag or post id, an unknown tag id, or counts out of range.
    pub fn restore(tags: Vec<String>, posts: Vec<ReactedPost>, user: String, token: String) -> (r: Option<Self>)
        ensures
            r is Some <==> ({
                let tv = tags@.map_values(|t: String| t@);
                let pv = posts@.map_values(|p: ReactedPost| p@);
                &&& tv.no_duplicates()
                &&& tv.len() <= u32::MAX
                &&& unique_ids(pv)
                &&& tags_below(pv, tv.len())
                &&& tv.len() + 3 * occurrences(pv) <= u32::MAX
            }),
            r matches Some(p) ==> p.wf() && p.tags@ == tags@.map_values(|t: String| t@)
                && p.posts@ == posts@.map_values(|p: ReactedPost| p@) && p.user == user && p.token == token,
    {
        let vocab = match TagVocabulary::from_tags(tags) {
            Some(v) => v,
            None => return None,
        };
        let len = vocab.len();
        if !ids_unique(&posts) || !all_tags_below(&posts, len) {
            return None;
        }
        let occ = occurrences_capped(&posts);
        if occ > u32::MAX as u64 || len as u64 + 3 * occ > u32::MAX as u64 {
            return None;
        }
        let mut bayes = Bayes::new();
        bayes.update(&posts, len);
        Some(Profile { posts: ReactionStore { posts }, bayes, tags: vocab, user, token })
    }

    /// How many tags the vocabulary holds.
    pub fn tags_len(&self) -> (r: usize)
        ensures
            r == self.tags@.len(),
    {
        self.tags.len()
    }

    /// How many reacted posts the history holds.
    pub fn posts_len(&self) -> (r: usize)
        ensures
            r == self.posts@.len(),
    {
        self.posts.len()
    }

    /// The post with its tags mapped through the vocabulary; unknown tags are dropped.
    pub fn convert_raw(&self, post: &RawPost) -> (r: Post)
        requires
            self.tags.wf(),
        ensures
            r.id == post.id,
            r.tags@ == ids_of(self.tags@, post@.tags),
            forall|i: int| 0 <= i < r.tags@.len() ==> #[trigger] r.tags@[i] < self.tags@.len(),
            (forall|i: int| 0 <= i < post@.tags.len() ==> !self.tags@.contains(#[trigger] post@.tags[i]))
                ==> r.tags@.len() == 0,
    {
        let ghost ts = post@.tags;
        let mut tags: Vec<u32> = Vec::new();
        let mut j: usize = 0;
        while j < post.tags.len()
            invariant
                0 <= j <= post.tags.len(),
                ts == post@.tags,
                self.tags.wf(),
                tags@ == ids_of(self.tags@, ts.take(j as int)),
            decreases post.tags.len() - j,
        {
            proof {
                assert(ts.take(j + 1).drop_last() =~= ts.take(j as int));
                assert(ts[j as int] == post.tags@[j as int]@);
            }
            match self.tags.lookup(&post.tags[j]) {
                Some(k) => tags.push(k),
                None => {},
            }
            j += 1;
        }
        proof {
            assert(ts.take(j as int) =~= ts);
            lemma_ids_of_facts(self.tags@, ts);
        }
        Post { id: post.id, tags }
    }

    /// The candidate posts with their tags mapped through the vocabulary, in order.
    /// Does not change the profile.
    pub fn candidates(&self, raws: &Vec<RawPost>) -> (r: Vec<Post>)
        requires
            self.tags.wf(),
        ensures
            r@.len() == raws@.len(),
            forall|i: int| 0 <= i < r@.len() ==> #[trigger] r@[i].id == raws@[i].id
                && r@[i].tags@ == ids_of(self.tags@, raws@[i]@.tags),
    {
        let mut out: Vec<Post> = Vec::new();
        let mut i: usize = 0;
        while i < raws.len()
            invariant
                0 <= i <= raws.len(),
                self.tags.wf(),
                out@.len() == i,
                forall|k: int| 0 <= k < i ==> #[trigger] out@[k].id == raws@[k].id
                    && out@[k].tags@ == ids_of(self.tags@, raws@[k]@.tags),
            decreases raws.len() - i,
        {
            out.push(self.convert_raw(&raws[i]));
            i += 1;
        }
        out
    }

    /// Registers the tags of each post of `batch` and pushes the post with the given flags.
    fn ingest(&mut self, batch: &Vec<RawPost>, fav: bool, up: bool)
        requires
            old(self).tags.wf(),
            old(self).posts.wf(),
            tags_below(old(self).posts@, old(self).tags@.len()),
            old(self).tags@.len() + tag_total(batch@.map_values(|p: RawPost| p@)) < u32::MAX,
        ensures
            final(self).tags.wf(),
            final(self).posts.wf(),
            tags_below(final(self).posts@, final(self).tags@.len()),
            (final(self).tags@, final(self).posts@) == ingested(
                old(self).tags@,
                old(self).posts@,
                batch@.map_values(|p: RawPost| p@),
                fav,
                up,
            ),
            final(self).tags@.len() <= old(self).tags@.len() + tag_total(batch@.map_values(|p: RawPost| p@)),
            occurrences(final(self).posts@) <= occurrences(old(self).posts@) + tag_total(
                batch@.map_values(|p: RawPost| p@),
            ),
            final(self).user == old(self).user,
            final(self).token == old(self).token,
            final(self).bayes == old(self).bayes,
    {
        let ghost b = batch@.map_values(|p: RawPost| p@);
        let ghost v0 = self.tags@;
        let ghost s0 = self.posts@;
        let ghost user0 = self.user;
        let ghost token0 = self.token;
        let ghost bayes0 = self.bayes;
        let mut i: usize = 0;
        while i < batch.len()
            invariant
                0 <= i <= batch.len(),
                b == batch@.map_values(|p: RawPost| p@),
                self.tags.wf(),
                self.posts.wf(),
                tags_below(self.posts@, self.tags@.len()),
                v0.len() + tag_total(b) < u32::MAX,
                (self.tags@, self.posts@) == ingested(v0, s0, b.take(i as int), fav, up),
                self.tags@.len() <= v0.len() + tag_total(b.take(i as int)),
                occurrences(self.posts@) <= occurrences(s0) + tag_total(b.take(i as int)),
                self.user == user0,
                self.token == token0,
                self.bayes == bayes0,
            decreases batch.len() - i,
        {
            let raw = &batch[i];
            let ghost ts = raw@.tags;
            let ghost v1 = self.tags@;
            let ghost s1 = self.posts@;
            proof {
                lemma_tag_total_take(b, i as int);
                lemma_tag_total_take(b, i as int + 1);
                assert(b[i as int] == raw@);
            }
            let mut j: usize = 0;
            while j < raw.tags.len()
                invariant
                    0 <= j <= raw.tags.len(),
                    ts == raw@.tags,
                    v1.no_duplicates(),
                    self.tags.wf(),
                    self.tags@ == registered_all(v1, ts.take(j as int)),
                    self.tags@.len() <= v1.len() + j,
                    v1.len() + ts.len() < u32::MAX,
                    self.posts@ == s1,
                    self.user == user0,
                    self.token == token0,
                    self.bayes == bayes0,
                decreases raw.tags.len() - j,
            {
                proof {
                    assert(ts.take(j + 1).drop_last() =~= ts.take(j as int));
                    assert(ts[j as int] == raw.tags@[j as int]@);
                }
                self.tags.get_or_create(&raw.tags[j]);
                j += 1;
            }
            proof {
                assert(ts.take(j as int) =~= ts);
            }
            let post = self.convert_raw(raw);
            let ghost v2 = self.tags@;
            let ghost pv = ReactedView { id: raw.id, favorited: fav, upvoted: up, tags: post.tags@ };
            proof {
                lemma_registered_all_grows(v1, ts);
                lemma_ids_of_facts(v2, ts);
                lemma_tags_below_mono(s1, v1.len(), v2.len());
                lemma_pushed_bounds(s1, pv, v2.len());
            }
            self.posts.push_post(ReactedPost::new(post, fav, up));
            i += 1;
        }
        proof {
            assert(b.take(i as int) =~= b);
        }
    }

    /// Rebuilds the history from the three reaction categories, in this order: downvoted,
    /// upvoted, favorited; then retrains the counts over it. Either all of it is applied
    /// or, where the tag ids or counts would leave the `u32` range, nothing is.
    pub fn update(
        &mut self,
        downvoted: &Vec<RawPost>,
        upvoted: &Vec<RawPost>,
        favorited: &Vec<RawPost>,
    ) -> (r: Result<(), ProfileError>)
        requires
            old(self).wf(),
        ensures
            final(self).wf(),
            final(self).user == old(self).user,
            final(self).token == old(self).token,
            r is Err <==> old(self).tags@.len() + 4 * (tag_total(downvoted@.map_values(|p: RawPost| p@))
                + tag_total(upvoted@.map_values(|p: RawPost| p@))
                + tag_total(favorited@.map_values(|p: RawPost| p@))) >= u32::MAX,
            r is Err ==> final(self).tags@ == old(self).tags@ && final(self).posts@ == old(self).posts@,
            r is Ok ==> ({
                let a = ingested(
                    old(self).tags@,
                    Seq::empty(),
                    downvoted@.map_values(|p: RawPost| p@),
                    false,
                    false,
                );
                let b = ingested(a.0, a.1, upvoted@.map_values(|p: RawPost| p@), false, true);
                let c = ingested(b.0, b.1, favorited@.map_values(|p: RawPost| p@), true, false);
                final(self).tags@ == c.0 && final(self).posts@ == c.1
            }),
    {
        let d = tag_total_capped(downvoted);
        let u = tag_total_capped(upvoted);
        let f = tag_total_capped(favorited);
        let n = self.tags.len() as u64;
        if d > u32::MAX as u64 || u > u32::MAX as u64 || f > u32::MAX as u64 || n + 4 * (d + u + f)
            >= u32::MAX as u64 {
            return Err(ProfileError::CapacityExceeded);
        }
        self.posts = ReactionStore::new();
        self.ingest(downvoted, false, false);
        self.ingest(upvoted, false, true);
        self.ingest(favorited, true, false);
        let len = self.tags.len();
        proof {
            lemma_tags_below_mono(self.posts@, self.tags@.len(), len as nat);
        }
        self.bayes.update(&self.posts.posts, len);
        Ok(())
    }
}

} // verus!
