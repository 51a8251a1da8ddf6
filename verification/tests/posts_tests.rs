use suiter::feed_ranker::FeedRanker;
use suiter::models::{CreatePostRequest, FeedPost, Post, Profile, RankingRecord};
use suiter::posts::{
    accept_request, create_post, get_feed, get_post, insert_post, lookup_score, normalize_request,
    PostError, ANONYMOUS, FEED_LIMIT,
};
use suiter::store::{lookup_reputation, Store};

fn request(author: &str, content_hash: &str) -> CreatePostRequest {
    CreatePostRequest { author: author.to_string(), content_hash: content_hash.to_string() }
}

fn post(id: &str, author: &str) -> Post {
    Post {
        id: id.to_string(),
        author: author.to_string(),
        content_hash: "h".to_string(),
        level: 1,
        attention_accumulated: 0,
        reply_count: 0,
        created_at: 0,
        updated_at: 0,
    }
}

fn record(post_id: &str, score: i128) -> RankingRecord {
    RankingRecord {
        post_id: post_id.to_string(),
        score,
        level_score: 0,
        reputation_score: 0,
        attention_score: 0,
        time_score: 0,
        calculated_at: 0,
    }
}

#[test]
fn request_is_trimmed() {
    assert_eq!(
        normalize_request(Some("  \t abc def \n"), Some("alice")),
        Ok(request("alice", "abc def"))
    );
    assert_eq!(normalize_request(Some("abc"), Some("alice")), Ok(request("alice", "abc")));
}

#[test]
fn request_without_author_is_anonymous() {
    assert_eq!(ANONYMOUS, "anonymous");
    assert_eq!(normalize_request(Some("abc"), None), Ok(request("anonymous", "abc")));
}

#[test]
fn author_is_taken_as_written() {
    assert_eq!(normalize_request(Some("abc"), Some("  bob ")), Ok(request("  bob ", "abc")));
    assert_eq!(normalize_request(Some("abc"), Some("")), Ok(request("", "abc")));
}

#[test]
fn request_without_content_is_refused() {
    assert_eq!(normalize_request(None, Some("alice")), Err(PostError::ContentHashRequired));
    assert_eq!(normalize_request(Some(""), Some("alice")), Err(PostError::ContentHashRequired));
    assert_eq!(
        normalize_request(Some("  \n\t "), Some("alice")),
        Err(PostError::ContentHashRequired)
    );
    assert_eq!(normalize_request(None, None), Err(PostError::ContentHashRequired));
}

#[test]
fn accepted_content_is_not_trimmed_again() {
    assert_eq!(accept_request(" x ", Some("a")), Ok(request("a", " x ")));
    assert_eq!(accept_request(" ", None), Ok(request("anonymous", " ")));
    assert_eq!(accept_request("", Some("a")), Err(PostError::ContentHashRequired));
}

#[test]
fn created_post_is_stored_under_the_returned_id() {
    let mut store = Store::new();
    let id = create_post(&mut store, Some("  abc  "), Some("alice"), 500).unwrap();
    assert_eq!(id.len(), 36);
    assert_eq!(id.matches('-').count(), 4);
    assert_eq!(
        get_post(&store, &id),
        Some(Post {
            id: id.clone(),
            author: "alice".to_string(),
            content_hash: "abc".to_string(),
            level: 1,
            attention_accumulated: 0,
            reply_count: 0,
            created_at: 500,
            updated_at: 500,
        })
    );
    assert_eq!(
        store.profiles.get(0).unwrap(),
        &Profile {
            address: "alice".to_string(),
            reputation: 50,
            total_posts: 1,
            total_attention_earned: 0,
            joined_at: 500,
            updated_at: 500,
        }
    );
}

#[test]
fn created_posts_get_different_ids() {
    let mut store = Store::new();
    let a = create_post(&mut store, Some("abc"), None, 1).unwrap();
    let b = create_post(&mut store, Some("abc"), None, 2).unwrap();
    assert_ne!(a, b);
    assert_eq!(store.posts.len(), 2);
    assert_eq!(store.profiles.len(), 1);
    assert_eq!(store.profiles.get(0).unwrap().address, "anonymous");
    assert_eq!(store.profiles.get(0).unwrap().total_posts, 2);
}

#[test]
fn refused_request_leaves_the_store_alone() {
    let mut store = Store::new();
    assert_eq!(create_post(&mut store, Some("   "), Some("alice"), 1), Err(PostError::ContentHashRequired));
    assert_eq!(create_post(&mut store, None, Some("alice"), 1), Err(PostError::ContentHashRequired));
    assert_eq!(store.posts.len(), 0);
    assert_eq!(store.profiles.len(), 0);
}

#[test]
fn insert_under_a_taken_id_fails() {
    let mut store = Store::new();
    assert_eq!(
        insert_post(&mut store, "id-1".to_string(), request("alice", "h1"), 10),
        Ok("id-1".to_string())
    );
    assert_eq!(
        insert_post(&mut store, "id-1".to_string(), request("bob", "h2"), 20),
        Err(PostError::InsertFailed)
    );
    assert_eq!(store.posts.len(), 1);
    assert_eq!(store.posts.get(0).unwrap().content_hash, "h1");
    assert_eq!(store.profiles.len(), 1);
    assert_eq!(store.profiles.get(0).unwrap().address, "alice");
    assert_eq!(store.profiles.get(0).unwrap().total_posts, 1);
    assert_eq!(store.profiles.get(0).unwrap().updated_at, 10);
}

#[test]
fn every_white_space_character_is_trimmed() {
    let white: [u32; 25] = [
        0x09, 0x0A, 0x0B, 0x0C, 0x0D, 0x20, 0x85, 0xA0, 0x1680, 0x2000, 0x2001, 0x2002, 0x2003,
        0x2004, 0x2005, 0x2006, 0x2007, 0x2008, 0x2009, 0x200A, 0x2028, 0x2029, 0x202F, 0x205F,
        0x3000,
    ];
    for code in white {
        let c = char::from_u32(code).unwrap();
        let blank = format!("{}{}", c, c);
        assert_eq!(normalize_request(Some(&blank), None), Err(PostError::ContentHashRequired));
        let padded = format!("{}a{}b{}", c, c, c);
        let kept = format!("a{}b", c);
        assert_eq!(normalize_request(Some(&padded), Some("x")), Ok(request("x", &kept)));
    }
}

#[test]
fn characters_next_to_white_space_are_kept() {
    let kept: [u32; 24] = [
        0x08, 0x0E, 0x1F, 0x21, 0x84, 0x86, 0x9F, 0xA1, 0x167F, 0x1681, 0x180E, 0x1FFF, 0x200B,
        0x200D, 0x2027, 0x202A, 0x202E, 0x2030, 0x205E, 0x2060, 0x2FFF, 0x3001, 0xFEFF, 0x10FFFF,
    ];
    for code in kept {
        let c = char::from_u32(code).unwrap();
        let only = format!("{}", c);
        assert_eq!(normalize_request(Some(&only), Some("x")), Ok(request("x", &only)));
        let padded = format!(" {}a{} ", c, c);
        let inner = format!("{}a{}", c, c);
        assert_eq!(normalize_request(Some(&padded), Some("x")), Ok(request("x", &inner)));
    }
}

#[test]
fn trimming_cuts_both_ends_only() {
    assert_eq!(
        normalize_request(Some("\u{3000}\u{2003}a \t b\u{85}\u{a0}\r\n"), Some("x")),
        Ok(request("x", "a \t b"))
    );
    assert_eq!(normalize_request(Some("a"), Some("x")), Ok(request("x", "a")));
    assert_eq!(normalize_request(Some(" a"), Some("x")), Ok(request("x", "a")));
    assert_eq!(normalize_request(Some("a "), Some("x")), Ok(request("x", "a")));
}

#[test]
fn failed_creation_leaves_the_store_alone() {
    let mut store = Store::new();
    store.posts.upsert(post("id-1", "alice"));
    assert_eq!(
        insert_post(&mut store, "id-1".to_string(), request("carol", "h"), 30),
        Err(PostError::InsertFailed)
    );
    assert_eq!(store.posts.len(), 1);
    assert_eq!(store.posts.get(0).unwrap(), &post("id-1", "alice"));
    assert_eq!(store.profiles.len(), 0);
}

#[test]
fn unknown_post_is_not_found() {
    let mut store = Store::new();
    store.posts.upsert(post("p1", "alice"));
    assert_eq!(get_post(&store, &"p2".to_string()), None);
    assert_eq!(get_post(&store, &"".to_string()), None);
    assert_eq!(get_post(&store, &"p1".to_string()), Some(post("p1", "alice")));
}

#[test]
fn reputation_and_score_lookups() {
    let mut store = Store::new();
    store.profiles.upsert(Profile {
        address: "alice".to_string(),
        reputation: 80,
        total_posts: 0,
        total_attention_earned: 0,
        joined_at: 0,
        updated_at: 0,
    });
    store.rankings.upsert(record("p1", 12));
    assert_eq!(lookup_reputation(&store.profiles, &"alice".to_string()), Some(80));
    assert_eq!(lookup_reputation(&store.profiles, &"bob".to_string()), None);
    assert_eq!(lookup_score(&store.rankings, &"p1".to_string()), 12);
    assert_eq!(lookup_score(&store.rankings, &"p2".to_string()), 0);
}

#[test]
fn feed_lists_posts_best_first() {
    let mut store = Store::new();
    store.profiles.upsert(Profile {
        address: "alice".to_string(),
        reputation: 80,
        total_posts: 0,
        total_attention_earned: 0,
        joined_at: 0,
        updated_at: 0,
    });
    store.posts.upsert(post("p1", "alice"));
    store.posts.upsert(post("p2", "bob"));
    store.posts.upsert(post("p3", "alice"));
    store.rankings.upsert(record("p3", 900));
    store.rankings.upsert(record("p1", 100));
    store.rankings.upsert(record("gone", 5000));
    let feed = get_feed(&store);
    assert_eq!(
        feed,
        vec![
            FeedPost { post: post("p3", "alice"), author_reputation: 80, ranking_score: 900 },
            FeedPost { post: post("p1", "alice"), author_reputation: 80, ranking_score: 100 },
            FeedPost { post: post("p2", "bob"), author_reputation: 50, ranking_score: 0 },
        ]
    );
}

#[test]
fn unranked_posts_count_as_zero_and_keep_their_order() {
    let mut store = Store::new();
    store.posts.upsert(post("a", "x"));
    store.posts.upsert(post("b", "x"));
    store.posts.upsert(post("c", "x"));
    store.posts.upsert(post("d", "x"));
    store.rankings.upsert(record("c", -1));
    store.rankings.upsert(record("d", 0));
    let ids: Vec<String> = get_feed(&store).into_iter().map(|f| f.post.id).collect();
    assert_eq!(ids, vec!["a", "b", "d", "c"]);
}

#[test]
fn feed_is_cut_at_its_limit() {
    assert_eq!(FEED_LIMIT, 200);
    let mut store = Store::new();
    for i in 0..205 {
        let id = format!("p{}", i);
        store.posts.upsert(post(&id, "x"));
        store.rankings.upsert(record(&id, i as i128));
    }
    let feed = get_feed(&store);
    assert_eq!(feed.len(), 200);
    assert_eq!(feed[0].post.id, "p204");
    assert_eq!(feed[0].ranking_score, 204);
    assert_eq!(feed[199].post.id, "p5");
    for i in 1..feed.len() {
        assert!(feed[i - 1].ranking_score >= feed[i].ranking_score);
    }
}

#[test]
fn feed_of_empty_store_is_empty() {
    assert!(get_feed(&Store::new()).is_empty());
}

#[test]
fn feed_agrees_with_top_posts_after_a_pass() {
    let mut store = Store::new();
    let a = create_post(&mut store, Some("one"), Some("alice"), 1_000).unwrap();
    let b = create_post(&mut store, Some("two"), Some("bob"), 9_000).unwrap();
    let ranker = FeedRanker::new();
    ranker.update_rankings(&mut store, 10_000);
    let top = ranker.get_top_posts(&store, 10);
    let feed = get_feed(&store);
    assert_eq!(top.len(), 2);
    assert_eq!(top[0], (b.clone(), 60_000 + 100 + 0 + 200_000));
    assert_eq!(top[1], (a.clone(), 60_000 + 100 + 0 + 100_000));
    assert_eq!(feed[0].post.id, b);
    assert_eq!(feed[1].post.id, a);
    assert_eq!(feed[0].ranking_score, top[0].1);
    assert_eq!(feed[1].ranking_score, top[1].1);
}
