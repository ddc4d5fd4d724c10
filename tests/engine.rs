use std::collections::HashMap;
use tag_eval::api::{first_page, next_page, page_limit, CrudePost, RawPost, Response, Tags};
use tag_eval::bayes::Bayes;
use tag_eval::profile::Profile;
use tag_eval::rank::rank;
use tag_eval::reaction::{Post, ReactedPost, ReactionStore};
use tag_eval::vocab::TagVocabulary;

fn s(x: &str) -> String {
    x.to_string()
}

fn raw(id: u32, tags: &[&str]) -> RawPost {
    RawPost { id, tags: tags.iter().map(|t| t.to_string()).collect() }
}

fn reacted(id: u32, fav: bool, up: bool, tags: Vec<u32>) -> ReactedPost {
    ReactedPost::new(Post { id, tags }, fav, up)
}

#[test]
fn vocabulary_assigns_dense_stable_ids() {
    let mut v = TagVocabulary::new();
    assert_eq!(v.get_or_create(&s("fox")), 0);
    assert_eq!(v.get_or_create(&s("blue")), 1);
    assert_eq!(v.get_or_create(&s("fox")), 0);
    assert_eq!(v.get_or_create(&s("red")), 2);
    assert_eq!(v.get_or_create(&s("blue")), 1);
    assert_eq!(v.len(), 3);
}

#[test]
fn lookup_does_not_grow_vocabulary() {
    let mut v = TagVocabulary::new();
    v.get_or_create(&s("fox"));
    for _ in 0..5 {
        assert_eq!(v.lookup(&s("wolf")), None);
        assert_eq!(v.lookup(&s("fox")), Some(0));
    }
    assert_eq!(v.len(), 1);
    assert_eq!(v.tags(), &vec![s("fox")]);
}

#[test]
fn vocabulary_from_tags_rejects_duplicates() {
    assert!(TagVocabulary::from_tags(vec![s("a"), s("b"), s("a")]).is_none());
    let v = TagVocabulary::from_tags(vec![s("a"), s("b")]).unwrap();
    assert_eq!(v.lookup(&s("b")), Some(1));
    assert!(TagVocabulary::from_tags(Vec::new()).is_some());
}

#[test]
fn factor_table() {
    assert_eq!(reacted(1, false, false, vec![]).factor(), (0, 2));
    assert_eq!(reacted(1, false, true, vec![]).factor(), (1, 0));
    assert_eq!(reacted(1, true, false, vec![]).factor(), (2, 0));
    assert_eq!(reacted(1, true, true, vec![]).factor(), (3, 0));
}

#[test]
fn merge_upvote_then_favorite() {
    let mut store = ReactionStore::new();
    store.push_post(reacted(7, false, true, vec![1, 2]));
    store.push_post(reacted(7, true, false, vec![3]));
    assert_eq!(store.len(), 1);
    let r = &store.posts[0];
    assert_eq!(r.id(), 7);
    assert!(r.favorited && r.upvoted);
    assert_eq!(r.factor(), (3, 0));
    assert_eq!(r.tags, vec![1, 2]);
}

#[test]
fn distinct_ids_are_appended_in_order() {
    let mut store = ReactionStore::new();
    store.push_post(reacted(3, false, false, vec![0]));
    store.push_post(reacted(1, true, false, vec![1]));
    assert_eq!(store.len(), 2);
    assert_eq!(store.posts[0].id(), 3);
    assert_eq!(store.posts[1].id(), 1);
}

#[test]
fn mix_ors_flags_and_keeps_tags() {
    let mut a = reacted(5, false, false, vec![4]);
    a.mix(reacted(5, false, true, vec![9]));
    assert!(!a.favorited && a.upvoted);
    assert_eq!(a.tags, vec![4]);
}

#[test]
fn empty_history_keeps_smoothing_floor() {
    let mut b = Bayes::new();
    b.update(&Vec::new(), 3);
    assert_eq!(b.freq, vec![(1, 1), (1, 1), (1, 1)]);
    assert_eq!(b.sum, (3, 3));
    for (p, n) in &b.freq {
        let lp = (*p as f32 / b.sum.0 as f32).log2();
        let ln = (*n as f32 / b.sum.1 as f32).log2();
        assert!(lp.is_finite() && ln.is_finite());
    }
}

#[test]
fn training_counts_weights_per_tag() {
    let posts = vec![
        reacted(1, true, false, vec![0, 0]),
        reacted(2, false, false, vec![1]),
        reacted(3, true, true, vec![1, 2]),
    ];
    let mut b = Bayes::new();
    b.update(&posts, 3);
    assert_eq!(b.freq, vec![(5, 1), (4, 3), (4, 1)]);
    assert_eq!(b.sum, (3 + 4 + 6, 3 + 2));
}

#[test]
fn retraining_starts_from_scratch() {
    let mut b = Bayes::new();
    b.update(&vec![reacted(1, true, true, vec![0])], 1);
    b.update(&vec![reacted(2, false, false, vec![0])], 2);
    assert_eq!(b.freq, vec![(1, 3), (1, 1)]);
    assert_eq!(b.sum, (2, 4));
}

fn score(b: &Bayes, tags: &[u32]) -> f32 {
    let pos = b.sum.0 as f32;
    let neg = b.sum.1 as f32;
    let total = (b.sum.0 + b.sum.1) as f32;
    let mut sc = (pos / total).log2() - (neg / total).log2();
    for t in tags {
        let f = b.freq[*t as usize];
        sc += (f.0 as f32 / pos).log2() - (f.1 as f32 / neg).log2();
    }
    sc
}

#[test]
fn liked_tag_outranks_no_tags_and_disliked_tag() {
    let mut p = Profile::new("user", "token");
    let fav = vec![raw(10, &["fox"])];
    let down = vec![raw(11, &["blue"])];
    assert!(p.update(&Vec::new(), &Vec::new(), &fav).is_ok());
    assert!(p.update(&down, &Vec::new(), &fav).is_ok());
    assert_eq!(p.tags.lookup(&s("fox")), Some(0));
    assert_eq!(p.tags.lookup(&s("blue")), Some(1));
    assert_eq!(p.bayes.freq, vec![(3, 1), (1, 3)]);
    let c = p.candidates(&vec![raw(1, &["fox"]), raw(2, &["blue"]), raw(3, &[])]);
    let fox = score(&p.bayes, &c[0].tags);
    let blue = score(&p.bayes, &c[1].tags);
    let none = score(&p.bayes, &c[2].tags);
    assert!(fox > blue);
    assert!(fox > none);
    assert!(none > blue);
    assert_eq!(none, 0.0);
}

#[test]
fn update_merges_categories_and_registers_tags() {
    let mut p = Profile::new("user", "token");
    let down = vec![raw(1, &["a"])];
    let up = vec![raw(2, &["a", "b"])];
    let fav = vec![raw(2, &["c"]), raw(3, &["b"])];
    assert!(p.update(&down, &up, &fav).is_ok());
    assert_eq!(p.tags_len(), 3);
    assert_eq!(p.posts_len(), 3);
    let merged = &p.posts.posts[1];
    assert_eq!(merged.id(), 2);
    assert!(merged.favorited && merged.upvoted);
    assert_eq!(merged.tags, vec![0, 1]);
    assert_eq!(p.posts.posts[2].tags, vec![1]);
    assert_eq!(p.user, "user");
    assert_eq!(p.token, "token");
}

#[test]
fn update_clears_previous_history() {
    let mut p = Profile::new("u", "t");
    assert!(p.update(&vec![raw(1, &["a"])], &Vec::new(), &Vec::new()).is_ok());
    assert!(p.update(&Vec::new(), &vec![raw(2, &["b"])], &Vec::new()).is_ok());
    assert_eq!(p.posts_len(), 1);
    assert_eq!(p.posts.posts[0].id(), 2);
    assert_eq!(p.tags_len(), 2);
    assert_eq!(p.bayes.freq, vec![(1, 1), (2, 1)]);
}

#[test]
fn unknown_candidate_tags_are_dropped() {
    let mut p = Profile::new("u", "t");
    assert!(p.update(&Vec::new(), &vec![raw(1, &["a", "b"])], &Vec::new()).is_ok());
    let c = p.candidates(&vec![raw(9, &["z", "b", "y", "a"]), raw(8, &["q"])]);
    assert_eq!(c.len(), 2);
    assert_eq!(c[0].id, 9);
    assert_eq!(c[0].tags, vec![1, 0]);
    assert!(c[1].tags.is_empty());
    assert_eq!(p.tags_len(), 2);
}

#[test]
fn candidate_with_only_unknown_tags_scores_prior() {
    let mut p = Profile::new("u", "t");
    assert!(p.update(&vec![raw(1, &["a"])], &vec![raw(2, &["b"])], &Vec::new()).is_ok());
    let post = p.convert_raw(&raw(5, &["x", "y"]));
    assert!(post.tags.is_empty());
    assert_eq!(score(&p.bayes, &post.tags), score(&p.bayes, &[]));
}

#[test]
fn restore_checks_tables() {
    let ok = Profile::restore(vec![s("a"), s("b")], vec![reacted(1, true, false, vec![1])], s("u"), s("t"));
    let p = ok.unwrap();
    assert_eq!(p.bayes.freq, vec![(1, 1), (3, 1)]);
    assert_eq!(p.bayes.sum, (4, 2));
    assert!(Profile::restore(vec![s("a"), s("a")], Vec::new(), s("u"), s("t")).is_none());
    assert!(Profile::restore(vec![s("a")], vec![reacted(1, true, false, vec![1])], s("u"), s("t")).is_none());
    let dup = vec![reacted(1, true, false, vec![0]), reacted(1, false, true, vec![0])];
    assert!(Profile::restore(vec![s("a")], dup, s("u"), s("t")).is_none());
    assert!(Profile::restore(Vec::new(), Vec::new(), s("u"), s("t")).is_some());
}

#[test]
fn crude_post_flattens_in_category_order() {
    let c = CrudePost {
        id: 42,
        tags: Tags {
            general: vec![s("g1"), s("g2")],
            species: vec![s("s")],
            character: vec![],
            artist: vec![s("a")],
        },
    };
    assert_eq!(c.tags_len(), 4);
    let r = c.to_raw();
    assert_eq!(r.id, 42);
    assert_eq!(r.tags, vec![s("g1"), s("g2"), s("s"), s("a")]);
}

#[test]
fn response_keeps_post_order() {
    let mk = |id: u32, g: &str| CrudePost {
        id,
        tags: Tags { general: vec![s(g)], species: vec![], character: vec![], artist: vec![] },
    };
    let raws = RawPost::from_crudes(Response { posts: vec![mk(3, "x"), mk(1, "y")] });
    assert_eq!(raws.len(), 2);
    assert_eq!(raws[0].id, 3);
    assert_eq!(raws[1].tags, vec![s("y")]);
    assert!(RawPost::from_crudes(Response { posts: Vec::new() }).is_empty());
}

#[test]
fn paging_decisions() {
    assert_eq!(page_limit(None), 32);
    assert_eq!(page_limit(Some(4)), 4);
    assert_eq!(first_page(0), None);
    assert_eq!(first_page(3), Some(1));
    assert_eq!(next_page(1, 3, 10), Some(2));
    assert_eq!(next_page(2, 3, 0), None);
    assert_eq!(next_page(3, 3, 10), None);
    assert_eq!(next_page(255, 255, 10), None);
}

#[test]
fn full_pages_stop_at_limit() {
    for limit in [1u8, 2, 5, 32, 255] {
        let mut requested: u32 = 0;
        let mut page = first_page(limit);
        while let Some(p) = page {
            requested += 1;
            page = next_page(p, limit, 75);
        }
        assert_eq!(requested, limit as u32);
    }
}

#[test]
fn rank_orders_by_key_then_position() {
    assert_eq!(rank(&vec![5, 9, 5, 1, 9]), vec![1, 4, 0, 2, 3]);
    assert_eq!(rank(&vec![]), Vec::<usize>::new());
    assert_eq!(rank(&vec![3, 3, 3]), vec![0, 1, 2]);
    assert_eq!(rank(&vec![u32::MAX, 0]), vec![0, 1]);
}

#[test]
fn tables_round_trip_through_bincode() {
    let mut p = Profile::new("u", "t");
    assert!(p.update(&vec![raw(1, &["a"])], &vec![raw(2, &["b", "a"])], &vec![raw(2, &["c"])]).is_ok());
    let tags: HashMap<String, u32> =
        p.tags.tags().iter().enumerate().map(|(i, t)| (t.clone(), i as u32)).collect();
    let back: HashMap<String, u32> = bincode::deserialize(&bincode::serialize(&tags).unwrap()).unwrap();
    assert_eq!(back, tags);
    let posts: Vec<(u32, bool, bool, Vec<u32>)> =
        p.posts.posts.iter().map(|r| (r.id, r.favorited, r.upvoted, r.tags.clone())).collect();
    let back: Vec<(u32, bool, bool, Vec<u32>)> = bincode::deserialize(&bincode::serialize(&posts).unwrap()).unwrap();
    assert_eq!(back, posts);
    let model = (p.bayes.freq.clone(), vec![(-1.5f32, -0.25f32)], p.bayes.sum, 0.5f32);
    let back: (Vec<(u32, u32)>, Vec<(f32, f32)>, (u64, u64), f32) =
        bincode::deserialize(&bincode::serialize(&model).unwrap()).unwrap();
    assert_eq!(back, model);
    let empty: HashMap<String, u32> = HashMap::new();
    let back: HashMap<String, u32> = bincode::deserialize(&bincode::serialize(&empty).unwrap()).unwrap();
    assert!(back.is_empty());
    let restored = Profile::restore(
        {
            let mut v: Vec<(u32, String)> = tags.iter().map(|(t, i)| (*i, t.clone())).collect();
            v.sort();
            v.into_iter().map(|(_, t)| t).collect()
        },
        back_posts(&posts),
        s("u"),
        s("t"),
    )
    .unwrap();
    assert_eq!(restored.bayes.freq, p.bayes.freq);
    assert_eq!(restored.bayes.sum, p.bayes.sum);
}

fn back_posts(posts: &[(u32, bool, bool, Vec<u32>)]) -> Vec<ReactedPost> {
    posts.iter().map(|(id, f, u, t)| reacted(*id, *f, *u, t.clone())).collect()
}
