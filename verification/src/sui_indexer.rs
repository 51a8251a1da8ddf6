//! The event ingestor: applies decoded ledger events to the mirror.
//!
//! The ledger delivers an event at least once, so a batch may come again.
//! Events are applied so that a batch delivered twice leaves the mirror as
//! the batch delivered once: a post is stored and counted when its id is
//! first seen and left alone afterwards; a session's row is replaced by the
//! recorded state; a profile takes the reputation that the event sets, and
//! its time of last change never goes back.

use crate::models::{AttentionSession, AttentionSessionView, Post, Profile, ProfileView};
use crate::schedule::{next_step, step_after, TaskEvent, TaskStep};
use crate::store::{new_post, profile_after_post, profile_after_reputation, Store, StoreView};
use crate::table::{has_key, lemma_position_unique, lemma_upsert, position, upsert};
use vstd::prelude::*;

verus! {

/// A decoded ledger event.
#[derive(Debug, PartialEq, Eq)]
pub enum LedgerEvent {
    /// A post was created at `timestamp`.
    PostCreated { post_id: String, author: String, content_hash: String, timestamp: i64 },
    /// A reading session was opened, ended or claimed; `session` is its
    /// state after the event.
    SessionRecorded { session: AttentionSession },
    /// The reputation of `address` became `reputation` at `timestamp`.
    ReputationChanged { address: String, reputation: i64, timestamp: i64 },
}

/// What a `LedgerEvent` holds.
pub enum LedgerEventView {
    PostCreated { post_id: Seq<char>, author: Seq<char>, content_hash: Seq<char>, timestamp: i64 },
    SessionRecorded { session: AttentionSessionView },
    ReputationChanged { address: Seq<char>, reputation: i64, timestamp: i64 },
}

impl View for LedgerEvent {
    type V = LedgerEventView;

    open spec fn view(&self) -> LedgerEventView {
        match self {
            LedgerEvent::PostCreated { post_id, author, content_hash, timestamp } => {
                LedgerEventView::PostCreated {
                    post_id: post_id@,
                    author: author@,
                    content_hash: content_hash@,
                    timestamp: *timestamp,
                }
            },
            LedgerEvent::SessionRecorded { session } => LedgerEventView::SessionRecorded {
                session: session@,
            },
            LedgerEvent::ReputationChanged { address, reputation, timestamp } => {
                LedgerEventView::ReputationChanged {
                    address: address@,
                    reputation: *reputation,
                    timestamp: *timestamp,
                }
            },
        }
    }
}

/// The mirror after `event`.
pub open spec fn apply_event(s: StoreView, event: LedgerEventView) -> StoreView {
    match event {
        LedgerEventView::PostCreated { post_id, author, content_hash, timestamp } => s.record_post(
            post_id,
            author,
            content_hash,
            timestamp,
        ),
        LedgerEventView::SessionRecorded { session } => s.record_session(session),
        LedgerEventView::ReputationChanged { address, reputation, timestamp } => {
            s.record_reputation(address, reputation, timestamp)
        },
    }
}

/// The mirror after the first `n` of `events`, applied in order.
pub open spec fn apply_events(s: StoreView, events: Seq<LedgerEventView>, n: int) -> StoreView
    decreases n,
{
    if n <= 0 {
        s
    } else {
        apply_event(apply_events(s, events, n - 1), events[n - 1])
    }
}

/// The mirror has taken `event` in: the post it creates is there, or the
/// session it records has a row, or the profile whose reputation it sets is
/// there and was last changed no earlier than the event.
pub open spec fn holds(s: StoreView, event: LedgerEventView) -> bool {
    match event {
        LedgerEventView::PostCreated { post_id, author, content_hash, timestamp } => s.has_post(
            post_id,
        ),
        LedgerEventView::SessionRecorded { session } => has_key::<AttentionSession>(
            s.sessions,
            session.id,
        ),
        LedgerEventView::ReputationChanged { address, reputation, timestamp } => has_key::<
            Profile,
        >(s.profiles, address) && s.profiles[position::<Profile>(s.profiles, address)].updated_at
            >= timestamp,
    }
}

/// The reputation that `event` gives `address`, if it gives it one.
pub open spec fn reputation_set(event: LedgerEventView, address: Seq<char>) -> Option<i64> {
    match event {
        LedgerEventView::ReputationChanged { address: a, reputation, timestamp } => if a
            == address {
            Some(reputation)
        } else {
            None
        },
        _ => None,
    }
}

/// The state that `event` gives the session with id `id`, if it records
/// that session.
pub open spec fn session_set(event: LedgerEventView, id: Seq<char>) -> Option<
    AttentionSessionView,
> {
    match event {
        LedgerEventView::SessionRecorded { session } => if session.id == id {
            Some(session)
        } else {
            None
        },
        _ => None,
    }
}

/// The reputation that the last of the first `n` events to set one gives
/// `address`.
pub open spec fn last_reputation(events: Seq<LedgerEventView>, n: int, address: Seq<char>) -> Option<
    i64,
>
    decreases n,
{
    if n <= 0 {
        None
    } else {
        match reputation_set(events[n - 1], address) {
            Some(r) => Some(r),
            None => last_reputation(events, n - 1, address),
        }
    }
}

/// The state that the last of the first `n` events to record it gives the
/// session with id `id`.
pub open spec fn last_session(events: Seq<LedgerEventView>, n: int, id: Seq<char>) -> Option<
    AttentionSessionView,
>
    decreases n,
{
    if n <= 0 {
        None
    } else {
        match session_set(events[n - 1], id) {
            Some(x) => Some(x),
            None => last_session(events, n - 1, id),
        }
    }
}

proof fn lemma_last_session_id(events: Seq<LedgerEventView>, n: int, id: Seq<char>)
    ensures
        last_session(events, n, id) matches Some(x) ==> x.id == id,
    decreases n,
{
    if n > 0 {
        lemma_last_session_id(events, n - 1, id);
    }
}

/// What one event changes and what it leaves: rows keep their place and
/// their key; a profile's time of last change never goes back and its
/// reputation changes only where the event sets it; posts and sessions that
/// the event does not name stay as they are; the ranking is not touched.
pub proof fn lemma_apply_event_frame(s: StoreView, event: LedgerEventView)
    requires
        s.wf(),
    ensures
        apply_event(s, event).wf(),
        holds(apply_event(s, event), event),
        apply_event(s, event).rankings == s.rankings,
        apply_event(s, event).profiles.len() >= s.profiles.len(),
        forall|i: int|
            0 <= i < s.profiles.len() ==> (#[trigger] apply_event(s, event).profiles[i]).address
                == s.profiles[i].address && apply_event(s, event).profiles[i].updated_at
                >= s.profiles[i].updated_at && (reputation_set(event, s.profiles[i].address)
                is None ==> apply_event(s, event).profiles[i].reputation
                == s.profiles[i].reputation),
        forall|a: Seq<char>|
            (#[trigger] reputation_set(event, a)) matches Some(r) ==> has_key::<Profile>(
                apply_event(s, event).profiles,
                a,
            ) && apply_event(s, event).profiles[position::<Profile>(
                apply_event(s, event).profiles,
                a,
            )].reputation == r,
        apply_event(s, event).posts.len() >= s.posts.len(),
        forall|i: int|
            0 <= i < s.posts.len() ==> (#[trigger] apply_event(s, event).posts[i]) == s.posts[i],
        apply_event(s, event).sessions.len() >= s.sessions.len(),
        forall|i: int|
            0 <= i < s.sessions.len() ==> (#[trigger] apply_event(s, event).sessions[i]).id
                == s.sessions[i].id && (session_set(event, s.sessions[i].id) is None
                ==> apply_event(s, event).sessions[i] == s.sessions[i]),
        forall|id: Seq<char>|
            (#[trigger] session_set(event, id)) matches Some(x) ==> has_key::<AttentionSession>(
                apply_event(s, event).sessions,
                id,
            ) && apply_event(s, event).sessions[position::<AttentionSession>(
                apply_event(s, event).sessions,
                id,
            )] == x,
{
    let t = apply_event(s, event);
    match event {
        LedgerEventView::PostCreated { post_id, author, content_hash, timestamp } => {
            if !s.has_post(post_id) {
                let row = profile_after_post(s.profiles, author, timestamp);
                if has_key::<Profile>(s.profiles, author) {
                    let p = position::<Profile>(s.profiles, author);
                    assert(s.profiles[p].address == author);
                }
                assert(row.address == author);
                lemma_upsert::<Profile>(s.profiles, row);
                assert forall|i: int| 0 <= i < s.profiles.len() implies (
                #[trigger] t.profiles[i]).address == s.profiles[i].address
                    && t.profiles[i].updated_at >= s.profiles[i].updated_at
                    && t.profiles[i].reputation == s.profiles[i].reputation by {
                    if s.profiles[i].address == author {
                        lemma_position_unique::<Profile>(s.profiles, author, i);
                        lemma_position_unique::<Profile>(t.profiles, author, i);
                    }
                }
                let fresh = new_post(post_id, author, content_hash, timestamp);
                lemma_upsert::<Post>(s.posts, fresh);
                assert(t.posts == upsert::<Post>(s.posts, fresh));
            }
        },
        LedgerEventView::SessionRecorded { session } => {
            lemma_upsert::<AttentionSession>(s.sessions, session);
        },
        LedgerEventView::ReputationChanged { address, reputation, timestamp } => {
            let row = profile_after_reputation(s.profiles, address, reputation, timestamp);
            if has_key::<Profile>(s.profiles, address) {
                let p = position::<Profile>(s.profiles, address);
                assert(s.profiles[p].address == address);
            }
            assert(row.address == address);
            lemma_upsert::<Profile>(s.profiles, row);
            assert forall|i: int| 0 <= i < s.profiles.len() implies (
            #[trigger] t.profiles[i]).address == s.profiles[i].address
                && t.profiles[i].updated_at >= s.profiles[i].updated_at && (reputation_set(
                event,
                s.profiles[i].address,
            ) is None ==> t.profiles[i].reputation == s.profiles[i].reputation) by {
                if s.profiles[i].address == address {
                    lemma_position_unique::<Profile>(s.profiles, address, i);
                    lemma_position_unique::<Profile>(t.profiles, address, i);
                }
            }
        },
    }
}

/// Applying an event keeps every table's keys distinct.
pub proof fn lemma_apply_event_wf(s: StoreView, event: LedgerEventView)
    requires
        s.wf(),
    ensures
        apply_event(s, event).wf(),
{
    lemma_apply_event_frame(s, event);
}

/// What the mirror has taken in, it keeps through any further event.
pub proof fn lemma_holds_stays(s: StoreView, event: LedgerEventView, held: LedgerEventView)
    requires
        s.wf(),
        holds(s, held),
    ensures
        holds(apply_event(s, event), held),
{
    let t = apply_event(s, event);
    lemma_apply_event_frame(s, event);
    match held {
        LedgerEventView::PostCreated { post_id, author, content_hash, timestamp } => {
            let i = position::<Post>(s.posts, post_id);
            assert(t.posts[i] == s.posts[i]);
        },
        LedgerEventView::SessionRecorded { session } => {
            let i = position::<AttentionSession>(s.sessions, session.id);
            assert(t.sessions[i].id == session.id);
        },
        LedgerEventView::ReputationChanged { address, reputation, timestamp } => {
            let i = position::<Profile>(s.profiles, address);
            assert(t.profiles[i].address == address);
            lemma_position_unique::<Profile>(t.profiles, address, i);
        },
    }
}

/// The mirror after an event that it had taken in before: a post creation
/// changes nothing; a session takes the recorded state; a profile takes the
/// reputation and keeps its time of last change.
pub open spec fn held_effect(s: StoreView, event: LedgerEventView) -> StoreView {
    match event {
        LedgerEventView::PostCreated { post_id, author, content_hash, timestamp } => s,
        LedgerEventView::SessionRecorded { session } => StoreView {
            sessions: s.sessions.update(
                position::<AttentionSession>(s.sessions, session.id),
                session,
            ),
            ..s
        },
        LedgerEventView::ReputationChanged { address, reputation, timestamp } => StoreView {
            profiles: s.profiles.update(
                position::<Profile>(s.profiles, address),
                ProfileView { reputation, ..s.profiles[position::<Profile>(s.profiles, address)] },
            ),
            ..s
        },
    }
}

proof fn lemma_apply_held_event(s: StoreView, event: LedgerEventView)
    requires
        s.wf(),
        holds(s, event),
    ensures
        apply_event(s, event) == held_effect(s, event),
{
    match event {
        LedgerEventView::PostCreated { post_id, author, content_hash, timestamp } => {},
        LedgerEventView::SessionRecorded { session } => {},
        LedgerEventView::ReputationChanged { address, reputation, timestamp } => {
            let p = position::<Profile>(s.profiles, address);
            assert(s.profiles[p].address == address);
        },
    }
}

/// An event that is applied twice in a row leaves the mirror as it is after
/// the first time: no row is added again and no count rises again.
pub proof fn lemma_apply_event_idempotent(s: StoreView, event: LedgerEventView)
    requires
        s.wf(),
    ensures
        apply_event(apply_event(s, event), event) == apply_event(s, event),
{
    let once = apply_event(s, event);
    lemma_apply_event_frame(s, event);
    lemma_apply_held_event(once, event);
    match event {
        LedgerEventView::PostCreated { post_id, author, content_hash, timestamp } => {},
        LedgerEventView::SessionRecorded { session } => {
            assert(session_set(event, session.id) == Some(session));
            assert(held_effect(once, event).sessions =~= once.sessions);
        },
        LedgerEventView::ReputationChanged { address, reputation, timestamp } => {
            assert(reputation_set(event, address) == Some(reputation));
            assert(held_effect(once, event).profiles =~= once.profiles);
        },
    }
}

/// After a pass over a batch, the mirror is well-formed, has taken in every
/// event of the batch, and holds for each profile and session the state that
/// the last event to name it gave it.
pub proof fn lemma_apply_events(s: StoreView, events: Seq<LedgerEventView>, n: int)
    requires
        s.wf(),
        0 <= n <= events.len(),
    ensures
        apply_events(s, events, n).wf(),
        forall|j: int| 0 <= j < n ==> holds(apply_events(s, events, n), #[trigger] events[j]),
        forall|a: Seq<char>|
            (#[trigger] last_reputation(events, n, a)) matches Some(r) ==> has_key::<Profile>(
                apply_events(s, events, n).profiles,
                a,
            ) && apply_events(s, events, n).profiles[position::<Profile>(
                apply_events(s, events, n).profiles,
                a,
            )].reputation == r,
        forall|id: Seq<char>|
            (#[trigger] last_session(events, n, id)) matches Some(x) ==> has_key::<
                AttentionSession,
            >(apply_events(s, events, n).sessions, id) && apply_events(
                s,
                events,
                n,
            ).sessions[position::<AttentionSession>(apply_events(s, events, n).sessions, id)] == x,
    decreases n,
{
    if n > 0 {
        lemma_apply_events(s, events, n - 1);
        let before = apply_events(s, events, n - 1);
        let event = events[n - 1];
        let after = apply_events(s, events, n);
        lemma_apply_event_frame(before, event);
        assert forall|j: int| 0 <= j < n implies holds(after, #[trigger] events[j]) by {
            if j < n - 1 {
                lemma_holds_stays(before, event, events[j]);
            }
        }
        assert forall|a: Seq<char>| (#[trigger] last_reputation(events, n, a)) is Some implies has_key::<
            Profile,
        >(after.profiles, a) && after.profiles[position::<Profile>(after.profiles, a)].reputation
            == last_reputation(events, n, a).unwrap() by {
            if reputation_set(event, a) is None {
                assert(last_reputation(events, n - 1, a) is Some);
                let i = position::<Profile>(before.profiles, a);
                assert(before.profiles[i].address == a);
                assert(after.profiles[i].address == a);
                lemma_position_unique::<Profile>(after.profiles, a, i);
            }
        }
        assert forall|id: Seq<char>| (#[trigger] last_session(events, n, id)) is Some implies has_key::<
            AttentionSession,
        >(after.sessions, id) && after.sessions[position::<AttentionSession>(after.sessions, id)]
            == last_session(events, n, id).unwrap() by {
            if session_set(event, id) is None {
                assert(last_session(events, n - 1, id) is Some);
                let i = position::<AttentionSession>(before.sessions, id);
                assert(before.sessions[i].id == id);
                assert(after.sessions[i].id == id);
                lemma_position_unique::<AttentionSession>(after.sessions, id, i);
            }
        }
    }
}

/// The mirror `s` after the first `n` events of a batch all of which it had
/// taken in before: each profile has the reputation that the last event to
/// set it gave it, each session the state that the last event to record it
/// gave it, and nothing else has changed.
pub open spec fn replayed(s: StoreView, events: Seq<LedgerEventView>, n: int) -> StoreView {
    StoreView {
        profiles: Seq::new(
            s.profiles.len(),
            |i: int|
                ProfileView {
                    reputation: match last_reputation(events, n, s.profiles[i].address) {
                        Some(r) => r,
                        None => s.profiles[i].reputation,
                    },
                    ..s.profiles[i]
                },
        ),
        sessions: Seq::new(
            s.sessions.len(),
            |i: int|
                match last_session(events, n, s.sessions[i].id) {
                    Some(x) => x,
                    None => s.sessions[i],
                },
        ),
        ..s
    }
}

proof fn lemma_replay(s: StoreView, events: Seq<LedgerEventView>, m: int, n: int)
    requires
        s.wf(),
        0 <= n <= m <= events.len(),
        forall|j: int| 0 <= j < m ==> holds(s, #[trigger] events[j]),
    ensures
        apply_events(s, events, n) == replayed(s, events, n),
    decreases n,
{
    if n <= 0 {
        assert(replayed(s, events, n).profiles =~= s.profiles);
        assert(replayed(s, events, n).sessions =~= s.sessions);
    } else {
        lemma_replay(s, events, m, n - 1);
        let before = replayed(s, events, n - 1);
        let event = events[n - 1];
        let after = replayed(s, events, n);
        assert forall|i: int| 0 <= i < s.sessions.len() implies (#[trigger] before.sessions[i]).id
            == s.sessions[i].id by {
            lemma_last_session_id(events, n - 1, s.sessions[i].id);
        }
        assert(before.wf()) by {
            assert forall|i: int, j: int| 0 <= i < j < before.profiles.len() implies (
            #[trigger] before.profiles[i]).address != (#[trigger] before.profiles[j]).address by {
                assert(s.profiles[i].address != s.profiles[j].address);
            }
            assert forall|i: int, j: int| 0 <= i < j < before.sessions.len() implies (
            #[trigger] before.sessions[i]).id != (#[trigger] before.sessions[j]).id by {
                assert(s.sessions[i].id != s.sessions[j].id);
            }
        }
        assert(holds(s, event));
        match event {
            LedgerEventView::PostCreated { post_id, author, content_hash, timestamp } => {
                lemma_apply_held_event(before, event);
                assert(after.profiles =~= before.profiles);
                assert(after.sessions =~= before.sessions);
            },
            LedgerEventView::SessionRecorded { session } => {
                let p = position::<AttentionSession>(s.sessions, session.id);
                assert(s.sessions[p].id == session.id);
                assert(before.sessions[p].id == session.id);
                lemma_position_unique::<AttentionSession>(before.sessions, session.id, p);
                lemma_apply_held_event(before, event);
                assert(after.profiles =~= before.profiles);
                assert forall|i: int| 0 <= i < s.sessions.len() implies after.sessions[i]
                    == before.sessions.update(p, session)[i] by {
                    if i != p {
                        if i < p {
                            assert(s.sessions[i].id != s.sessions[p].id);
                        } else {
                            assert(s.sessions[p].id != s.sessions[i].id);
                        }
                    }
                }
                assert(after.sessions =~= before.sessions.update(p, session));
            },
            LedgerEventView::ReputationChanged { address, reputation, timestamp } => {
                let p = position::<Profile>(s.profiles, address);
                assert(s.profiles[p].address == address);
                assert(before.profiles[p].address == address);
                lemma_position_unique::<Profile>(before.profiles, address, p);
                lemma_apply_held_event(before, event);
                assert(after.sessions =~= before.sessions);
                let row = ProfileView { reputation, ..before.profiles[p] };
                assert forall|i: int| 0 <= i < s.profiles.len() implies after.profiles[i]
                    == before.profiles.update(p, row)[i] by {
                    if i != p {
                        if i < p {
                            assert(s.profiles[i].address != s.profiles[p].address);
                        } else {
                            assert(s.profiles[p].address != s.profiles[i].address);
                        }
                    }
                }
                assert(after.profiles =~= before.profiles.update(p, row));
            },
        }
    }
}

/// A batch that is delivered again leaves the mirror as it is after the
/// first delivery, whatever the batch holds and in whatever order.
pub proof fn lemma_apply_events_idempotent(s: StoreView, events: Seq<LedgerEventView>)
    requires
        s.wf(),
    ensures
        apply_events(
            apply_events(s, events, events.len() as int),
            events,
            events.len() as int,
        ) == apply_events(s, events, events.len() as int),
{
    let n = events.len() as int;
    let once = apply_events(s, events, n);
    lemma_apply_events(s, events, n);
    lemma_replay(once, events, n, n);
    let twice = replayed(once, events, n);
    assert forall|i: int| 0 <= i < once.profiles.len() implies twice.profiles[i]
        == once.profiles[i] by {
        let a = once.profiles[i].address;
        if last_reputation(events, n, a) is Some {
            lemma_position_unique::<Profile>(once.profiles, a, i);
        }
    }
    assert(twice.profiles =~= once.profiles);
    assert forall|i: int| 0 <= i < once.sessions.len() implies twice.sessions[i]
        == once.sessions[i] by {
        let id = once.sessions[i].id;
        if last_session(events, n, id) is Some {
            lemma_position_unique::<AttentionSession>(once.sessions, id, i);
        }
    }
    assert(twice.sessions =~= once.sessions);
}

/// Seconds between the end of one ingestion pass and the start of the next.
pub const INDEXING_INTERVAL_SECS: u64 = 2;

/// The event ingestor.
pub struct SuiIndexer {
    rpc_url: String,
}

impl SuiIndexer {
    /// An ingestor that reads the ledger at `rpc_url`.
    pub fn new(rpc_url: String) -> (indexer: Self)
        ensures
            indexer.rpc_url_view() == rpc_url@,
    {
        SuiIndexer { rpc_url }
    }

    /// The characters of the ledger endpoint's address.
    pub closed spec fn rpc_url_view(&self) -> Seq<char> {
        self.rpc_url@
    }

    /// The address of the ledger endpoint.
    pub fn rpc_url(&self) -> (url: &String)
        ensures
            url@ == self.rpc_url_view(),
    {
        &self.rpc_url
    }

    /// The step of the ingestion task that follows `event`: a pass at the
    /// start and after every pause, and after every pass a pause of
    /// `INDEXING_INTERVAL_SECS` seconds, with the failure reported first
    /// where the pass failed.
    pub fn run(&self, event: TaskEvent) -> (step: TaskStep)
        ensures
            step == next_step(INDEXING_INTERVAL_SECS, event),
    {
        step_after(INDEXING_INTERVAL_SECS, event)
    }

    /// Applies one event to the mirror.
    pub fn apply(&self, store: &mut Store, event: &LedgerEvent)
        requires
            old(store).wf(),
        ensures
            final(store).wf(),
            final(store)@ == apply_event(old(store)@, event@),
    {
        match event {
            LedgerEvent::PostCreated { post_id, author, content_hash, timestamp } => {
                let _ = store.record_post(
                    post_id.clone(),
                    author.clone(),
                    content_hash.clone(),
                    *timestamp,
                );
            },
            LedgerEvent::SessionRecorded { session } => {
                store.record_session(session.clone());
            },
            LedgerEvent::ReputationChanged { address, reputation, timestamp } => {
                store.record_reputation(address.clone(), *reputation, *timestamp);
            },
        }
    }

    /// One ingestion pass: applies `events`, the batch that the ledger
    /// handed out, in order.
    pub fn index_events(&self, store: &mut Store, events: &Vec<LedgerEvent>)
        requires
            old(store).wf(),
        ensures
            final(store).wf(),
            final(store)@ == apply_events(
                old(store)@,
                events@.map_values(|e: LedgerEvent| e@),
                events@.len() as int,
            ),
    {
        let ghost views = events@.map_values(|e: LedgerEvent| e@);
        let mut i: usize = 0;
        while i < events.len()
            invariant
                i <= events.len(),
                store.wf(),
                views == events@.map_values(|e: LedgerEvent| e@),
                store@ == apply_events(old(store)@, views, i as int),
            decreases events.len() - i,
        {
            self.apply(store, &events[i]);
            i += 1;
        }
    }
}

} // verus!
