use suiter::models::{AttentionSession, Post, Profile};
use suiter::store::Store;
use suiter::sui_indexer::{LedgerEvent, SuiIndexer};

fn indexer() -> SuiIndexer {
    SuiIndexer::new("https://ledger.example:443".to_string())
}

fn post_created(id: &str, author: &str, at: i64) -> LedgerEvent {
    LedgerEvent::PostCreated {
        post_id: id.to_string(),
        author: author.to_string(),
        content_hash: format!("hash-{}", id),
        timestamp: at,
    }
}

fn session(id: &str, duration_ms: i64, reward: i64, claimed: bool) -> AttentionSession {
    AttentionSession {
        id: id.to_string(),
        reader: "reader".to_string(),
        post_id: "p1".to_string(),
        duration_ms,
        reward,
        claimed,
    }
}

fn rows(store: &Store) -> (Vec<Profile>, Vec<Post>, Vec<AttentionSession>) {
    let mut profiles: Vec<Profile> = Vec::new();
    for i in 0..store.profiles.len() {
        profiles.push(store.profiles.get(i).unwrap().clone());
    }
    let mut posts: Vec<Post> = Vec::new();
    for i in 0..store.posts.len() {
        posts.push(store.posts.get(i).unwrap().clone());
    }
    let mut sessions: Vec<AttentionSession> = Vec::new();
    for i in 0..store.sessions.len() {
        sessions.push(store.sessions.get(i).unwrap().clone());
    }
    (profiles, posts, sessions)
}

#[test]
fn indexer_keeps_its_endpoint() {
    assert_eq!(indexer().rpc_url(), "https://ledger.example:443");
}

#[test]
fn post_event_creates_post_and_profile() {
    let mut store = Store::new();
    indexer().apply(&mut store, &post_created("p1", "alice", 100));
    assert_eq!(store.posts.len(), 1);
    assert_eq!(
        store.posts.get(0).unwrap(),
        &Post {
            id: "p1".to_string(),
            author: "alice".to_string(),
            content_hash: "hash-p1".to_string(),
            level: 1,
            attention_accumulated: 0,
            reply_count: 0,
            created_at: 100,
            updated_at: 100,
        }
    );
    assert_eq!(
        store.profiles.get(0).unwrap(),
        &Profile {
            address: "alice".to_string(),
            reputation: 50,
            total_posts: 1,
            total_attention_earned: 0,
            joined_at: 100,
            updated_at: 100,
        }
    );
}

#[test]
fn second_post_counts_on_the_same_profile() {
    let mut store = Store::new();
    let ix = indexer();
    ix.apply(&mut store, &post_created("p1", "alice", 100));
    ix.apply(&mut store, &post_created("p2", "alice", 200));
    assert_eq!(store.profiles.len(), 1);
    let alice = store.profiles.get(0).unwrap();
    assert_eq!(alice.total_posts, 2);
    assert_eq!(alice.joined_at, 100);
    assert_eq!(alice.updated_at, 200);
    assert_eq!(store.posts.len(), 2);
}

#[test]
fn post_event_twice_is_as_once() {
    let mut once = Store::new();
    let mut twice = Store::new();
    let ix = indexer();
    ix.apply(&mut once, &post_created("p1", "alice", 100));
    ix.apply(&mut twice, &post_created("p1", "alice", 100));
    ix.apply(&mut twice, &post_created("p1", "alice", 100));
    assert_eq!(rows(&once), rows(&twice));
    assert_eq!(twice.profiles.get(0).unwrap().total_posts, 1);
    assert_eq!(twice.posts.len(), 1);
}

#[test]
fn session_event_twice_is_as_once() {
    let mut once = Store::new();
    let mut twice = Store::new();
    let ix = indexer();
    let event = LedgerEvent::SessionRecorded { session: session("s1", 1500, 3, false) };
    ix.apply(&mut once, &event);
    ix.apply(&mut twice, &event);
    ix.apply(&mut twice, &event);
    assert_eq!(rows(&once), rows(&twice));
    assert_eq!(twice.sessions.len(), 1);
}

#[test]
fn reputation_event_twice_is_as_once() {
    let mut once = Store::new();
    let mut twice = Store::new();
    let ix = indexer();
    let event =
        LedgerEvent::ReputationChanged { address: "alice".to_string(), reputation: 77, timestamp: 9 };
    ix.apply(&mut once, &post_created("p1", "alice", 1));
    ix.apply(&mut twice, &post_created("p1", "alice", 1));
    ix.apply(&mut once, &event);
    ix.apply(&mut twice, &event);
    ix.apply(&mut twice, &event);
    assert_eq!(rows(&once), rows(&twice));
    assert_eq!(twice.profiles.get(0).unwrap().reputation, 77);
    assert_eq!(twice.profiles.get(0).unwrap().total_posts, 1);
    assert_eq!(twice.profiles.get(0).unwrap().updated_at, 9);
    assert_eq!(twice.profiles.get(0).unwrap().joined_at, 1);
}

#[test]
fn session_event_replaces_the_session() {
    let mut store = Store::new();
    let ix = indexer();
    ix.apply(&mut store, &LedgerEvent::SessionRecorded { session: session("s1", 0, 0, false) });
    ix.apply(&mut store, &LedgerEvent::SessionRecorded { session: session("s2", 10, 1, false) });
    ix.apply(&mut store, &LedgerEvent::SessionRecorded { session: session("s1", 1500, 3, true) });
    assert_eq!(store.sessions.len(), 2);
    assert_eq!(store.sessions.get(0).unwrap(), &session("s1", 1500, 3, true));
    assert_eq!(store.sessions.get(1).unwrap(), &session("s2", 10, 1, false));
    assert_eq!(store.posts.len(), 0);
    assert_eq!(store.profiles.len(), 0);
}

#[test]
fn reputation_event_for_unknown_address_makes_a_profile() {
    let mut store = Store::new();
    indexer().apply(
        &mut store,
        &LedgerEvent::ReputationChanged { address: "zed".to_string(), reputation: -5, timestamp: 42 },
    );
    assert_eq!(
        store.profiles.get(0).unwrap(),
        &Profile {
            address: "zed".to_string(),
            reputation: -5,
            total_posts: 0,
            total_attention_earned: 0,
            joined_at: 42,
            updated_at: 42,
        }
    );
}

#[test]
fn post_event_with_taken_id_changes_nothing() {
    let mut store = Store::new();
    let ix = indexer();
    ix.apply(&mut store, &post_created("p1", "alice", 100));
    let before = rows(&store);
    ix.apply(&mut store, &post_created("p1", "bob", 300));
    assert_eq!(before, rows(&store));
    assert_eq!(store.posts.len(), 1);
    assert_eq!(store.posts.get(0).unwrap().author, "alice");
    assert_eq!(store.posts.get(0).unwrap().created_at, 100);
    assert_eq!(store.profiles.len(), 1);
    assert_eq!(store.profiles.get(0).unwrap().total_posts, 1);
}

#[test]
fn replayed_batch_with_reputation_before_first_post() {
    let events = vec![
        LedgerEvent::ReputationChanged { address: "a".to_string(), reputation: 7, timestamp: 100 },
        post_created("p1", "a", 200),
    ];
    let ix = indexer();
    let mut store = Store::new();
    ix.index_events(&mut store, &events);
    assert_eq!(
        store.profiles.get(0).unwrap(),
        &Profile {
            address: "a".to_string(),
            reputation: 7,
            total_posts: 1,
            total_attention_earned: 0,
            joined_at: 100,
            updated_at: 200,
        }
    );
    let once = rows(&store);
    ix.index_events(&mut store, &events);
    assert_eq!(once, rows(&store));
    assert_eq!(store.profiles.get(0).unwrap().updated_at, 200);
    ix.index_events(&mut store, &events);
    assert_eq!(once, rows(&store));
}

#[test]
fn replayed_batch_with_everything_mixed() {
    let events = vec![
        post_created("p1", "a", 50),
        LedgerEvent::ReputationChanged { address: "a".to_string(), reputation: 10, timestamp: 300 },
        LedgerEvent::SessionRecorded { session: session("s1", 1, 0, false) },
        LedgerEvent::ReputationChanged { address: "b".to_string(), reputation: 3, timestamp: 20 },
        post_created("p2", "b", 10),
        LedgerEvent::SessionRecorded { session: session("s2", 9, 9, true) },
        LedgerEvent::ReputationChanged { address: "a".to_string(), reputation: 20, timestamp: 100 },
        LedgerEvent::SessionRecorded { session: session("s1", 2, 5, true) },
        post_created("p1", "c", 400),
        post_created("p3", "a", 90),
    ];
    let ix = indexer();
    let mut store = Store::new();
    ix.index_events(&mut store, &events);
    let once = rows(&store);
    assert_eq!(store.profiles.len(), 2);
    let a = store.profiles.get(0).unwrap();
    assert_eq!(a.reputation, 20);
    assert_eq!(a.total_posts, 2);
    assert_eq!(a.joined_at, 50);
    assert_eq!(a.updated_at, 300);
    let b = store.profiles.get(1).unwrap();
    assert_eq!(b.reputation, 3);
    assert_eq!(b.total_posts, 1);
    assert_eq!(b.updated_at, 20);
    assert_eq!(store.sessions.get(0).unwrap(), &session("s1", 2, 5, true));
    ix.index_events(&mut store, &events);
    assert_eq!(once, rows(&store));
}

#[test]
fn time_of_last_change_never_goes_back() {
    let mut store = Store::new();
    let ix = indexer();
    ix.apply(&mut store, &post_created("p1", "a", 500));
    ix.apply(
        &mut store,
        &LedgerEvent::ReputationChanged { address: "a".to_string(), reputation: 9, timestamp: 100 },
    );
    assert_eq!(store.profiles.get(0).unwrap().reputation, 9);
    assert_eq!(store.profiles.get(0).unwrap().updated_at, 500);
    ix.apply(&mut store, &post_created("p2", "a", 300));
    assert_eq!(store.profiles.get(0).unwrap().total_posts, 2);
    assert_eq!(store.profiles.get(0).unwrap().updated_at, 500);
    ix.apply(
        &mut store,
        &LedgerEvent::ReputationChanged { address: "a".to_string(), reputation: 9, timestamp: 700 },
    );
    assert_eq!(store.profiles.get(0).unwrap().updated_at, 700);
}

#[test]
fn batch_is_applied_in_order() {
    let mut store = Store::new();
    let events = vec![
        post_created("p1", "alice", 100),
        LedgerEvent::ReputationChanged { address: "alice".to_string(), reputation: 10, timestamp: 110 },
        post_created("p2", "bob", 120),
        LedgerEvent::ReputationChanged { address: "alice".to_string(), reputation: 20, timestamp: 130 },
        LedgerEvent::SessionRecorded { session: session("s1", 5, 0, false) },
        post_created("p1", "alice", 100),
    ];
    indexer().index_events(&mut store, &events);
    assert_eq!(store.posts.len(), 2);
    assert_eq!(store.profiles.len(), 2);
    assert_eq!(store.sessions.len(), 1);
    let alice = store.profiles.get(0).unwrap();
    assert_eq!(alice.reputation, 20);
    assert_eq!(alice.total_posts, 1);
    assert_eq!(alice.updated_at, 130);
    assert_eq!(store.rankings.len(), 0);
}

#[test]
fn replayed_batch_leaves_the_mirror_as_it_was() {
    let mut once = Store::new();
    let mut twice = Store::new();
    let events = vec![
        post_created("p1", "alice", 100),
        post_created("p2", "alice", 120),
        LedgerEvent::SessionRecorded { session: session("s1", 5, 0, false) },
    ];
    let ix = indexer();
    ix.index_events(&mut once, &events);
    ix.index_events(&mut twice, &events);
    ix.index_events(&mut twice, &events);
    assert_eq!(rows(&once), rows(&twice));
    assert_eq!(twice.profiles.get(0).unwrap().total_posts, 2);
}

#[test]
fn empty_batch_changes_nothing() {
    let mut store = Store::new();
    let ix = indexer();
    ix.apply(&mut store, &post_created("p1", "alice", 100));
    let before = rows(&store);
    ix.index_events(&mut store, &Vec::new());
    assert_eq!(before, rows(&store));
}

#[test]
fn post_count_stops_at_the_largest_value() {
    let mut store = Store::new();
    store.profiles.upsert(Profile {
        address: "alice".to_string(),
        reputation: 50,
        total_posts: i64::MAX,
        total_attention_earned: 0,
        joined_at: 0,
        updated_at: 0,
    });
    assert!(store.record_post("p1".to_string(), "alice".to_string(), "h".to_string(), 5));
    assert_eq!(store.profiles.get(0).unwrap().total_posts, i64::MAX);
    assert_eq!(store.profiles.get(0).unwrap().updated_at, 5);
}
