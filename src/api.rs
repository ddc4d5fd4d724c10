use vstd::prelude::*;

verus! {

/// The tag lists of a fetched post, by category.
pub struct Tags {
    pub general: Vec<String>,
    pub species: Vec<String>,
    pub character: Vec<String>,
    pub artist: Vec<String>,
}

/// A post as the server describes it.
pub struct CrudePost {
    pub id: u32,
    pub tags: Tags,
}

/// One page of the server's answer.
pub struct Response {
    pub posts: Vec<CrudePost>,
}

/// A post with its identifier and all its tags in one list.
pub struct RawPost {
    pub id: u32,
    pub tags: Vec<String>,
}

/// Mathematical value of a [`RawPost`].
pub struct RawView {
    pub id: u32,
    pub tags: Seq<Seq<char>>,
}

impl View for RawPost {
    type V = RawView;

    open spec fn view(&self) -> RawView {
        RawView { id: self.id, tags: self.tags@.map_values(|t: String| t@) }
    }
}

/// All tags of a post: general, species, character, then artist.
pub open spec fn all_tags(t: Tags) -> Seq<String> {
    t.general@ + t.species@ + t.character@ + t.artist@
}

impl CrudePost {
    pub fn tags_len(&self) -> (r: usize)
        requires
            all_tags(self.tags).len() <= usize::MAX,
        ensures
            r == all_tags(self.tags).len(),
    {
        self.tags.general.len() + self.tags.species.len() + self.tags.character.len()
            + self.tags.artist.len()
    }

    /// Flattens the tag categories into one list, keeping their order.
    pub fn to_raw(self) -> (r: RawPost)
        ensures
            r.id == self.id,
            r.tags@ == all_tags(self.tags),
    {
        let ghost whole = all_tags(self.tags);
        let mut s = self;
        let mut tags: Vec<String> = Vec::new();
        tags.append(&mut s.tags.general);
        tags.append(&mut s.tags.species);
        tags.append(&mut s.tags.character);
        tags.append(&mut s.tags.artist);
        proof {
            assert(tags@ =~= whole);
        }
        RawPost { id: s.id, tags }
    }
}

impl RawPost {
    /// The posts of a page, each flattened, in the page's order.
    pub fn from_crudes(res: Response) -> (r: Vec<RawPost>)
        ensures
            r@.len() == res.posts@.len(),
            forall|i: int| 0 <= i < r@.len() ==> #[trigger] r@[i].id == res.posts@[i].id
                && r@[i].tags@ == all_tags(res.posts@[i].tags),
    {
        let ghost src = res.posts@;
        let mut posts = res.posts;
        let mut raw: Vec<RawPost> = Vec::new();
        while posts.len() > 0
            invariant
                raw@.len() + posts@.len() == src.len(),
                posts@ == src.subrange(raw@.len() as int, src.len() as int),
                forall|i: int| 0 <= i < raw@.len() ==> #[trigger] raw@[i].id == src[i].id
                    && raw@[i].tags@ == all_tags(src[i].tags),
            decreases posts@.len(),
        {
            let p = posts.remove(0);
            raw.push(p.to_raw());
            proof {
                assert(posts@ =~= src.subrange(raw@.len() as int, src.len() as int));
            }
        }
        raw
    }
}

/// Number of pages fetched when none is asked for.
pub const DEFAULT_PAGE_LIMIT: u8 = 32;

/// The page limit in force: the one given, or the default.
pub fn page_limit(limit: Option<u8>) -> (r: u8)
    ensures
        r == match limit {
            Some(l) => l,
            None => DEFAULT_PAGE_LIMIT,
        },
{
    match limit {
        Some(l) => l,
        None => DEFAULT_PAGE_LIMIT,
    }
}

/// The first page to request under `limit`: page 1, unless the limit is zero.
pub fn first_page(limit: u8) -> (r: Option<u8>)
    ensures
        r == if limit == 0 { None } else { Some(1u8) },
{
    if limit == 0 {
        None
    } else {
        Some(1)
    }
}

/// The page that follows `page` under `limit`, once `page` brought `page_len` posts.
pub open spec fn next_page_spec(page: u8, limit: u8, page_len: nat) -> Option<u8> {
    if page_len == 0 || page >= limit {
        None
    } else {
        Some((page + 1) as u8)
    }
}

/// Decides whether fetching goes on after `page`: it stops on an empty page or at the limit.
pub fn next_page(page: u8, limit: u8, page_len: usize) -> (r: Option<u8>)
    ensures
        r == next_page_spec(page, limit, page_len as nat),
{
    if page_len == 0 || page >= limit {
        None
    } else {
        Some(page + 1)
    }
}

/// Requests made from page `page` on, where `lens[k]` is the size of page `k + 1`.
pub open spec fn requests_from(page: u8, limit: u8, lens: Seq<nat>) -> nat
    decreases limit - page,
{
    if 1 <= page <= limit && page <= lens.len() {
        1 + match next_page_spec(page, limit, lens[page - 1]) {
            Some(q) => requests_from(q, limit, lens),
            None => 0,
        }
    } else {
        0
    }
}

/// Requests made by a whole fetch under `limit`.
pub open spec fn requests(limit: u8, lens: Seq<nat>) -> nat {
    if limit == 0 {
        0
    } else {
        requests_from(1, limit, lens)
    }
}

proof fn lemma_requests_from_full(page: u8, limit: u8, lens: Seq<nat>)
    requires
        1 <= page <= limit,
        lens.len() >= limit,
        forall|k: int| 0 <= k < limit ==> lens[k] > 0,
    ensures
        requests_from(page, limit, lens) == limit - page + 1,
    decreases limit - page,
{
    if page < limit {
        lemma_requests_from_full((page + 1) as u8, limit, lens);
    }
}

/// When every page up to the limit is full, exactly `limit` pages are requested:
/// page `limit + 1` never is.
pub proof fn lemma_full_pages_stop_at_limit(limit: u8, lens: Seq<nat>)
    requires
        lens.len() >= limit,
        forall|k: int| 0 <= k < limit ==> lens[k] > 0,
    ensures
        requests(limit, lens) == limit,
{
    if limit > 0 {
        lemma_requests_from_full(1, limit, lens);
    }
}

} // verus!
