//! The mirror of ledger state: four tables under unique keys.
//!
//! Nothing here ties a row to the rows it names: a post may name an author
//! without a profile, and a ranking record may outlive its post.

use crate::models::{
    AttentionSession, AttentionSessionView, Post, PostView, Profile, ProfileView, RankingRecord,
    RankingRecordView,
};
use crate::score::DEFAULT_REPUTATION;
use crate::table::{distinct_keys, has_key, position, upsert, Table};
use vstd::prelude::*;

verus! {

/// The four tables.
pub struct Store {
    pub profiles: Table<Profile>,
    pub posts: Table<Post>,
    pub sessions: Table<AttentionSession>,
    pub rankings: Table<RankingRecord>,
}

/// What a `Store` holds: the rows of each table, in table order.
pub struct StoreView {
    pub profiles: Seq<ProfileView>,
    pub posts: Seq<PostView>,
    pub sessions: Seq<AttentionSessionView>,
    pub rankings: Seq<RankingRecordView>,
}

impl StoreView {
    /// Every table has distinct keys.
    pub open spec fn wf(self) -> bool {
        &&& distinct_keys::<Profile>(self.profiles)
        &&& distinct_keys::<Post>(self.posts)
        &&& distinct_keys::<AttentionSession>(self.sessions)
        &&& distinct_keys::<RankingRecord>(self.rankings)
    }

    /// The reputation on record for `address`, if it has a profile.
    pub open spec fn reputation_of(self, address: Seq<char>) -> Option<i64> {
        reputation_in(self.profiles, address)
    }

    /// There is a post with id `id`.
    pub open spec fn has_post(self, id: Seq<char>) -> bool {
        has_key::<Post>(self.posts, id)
    }

    /// The store once the creation of a post has been recorded at time `at`.
    ///
    /// Where the id is new, the post is added and counted on the profile of
    /// its author, who gets a profile with it if there was none. Where the id
    /// is taken, nothing changes.
    pub open spec fn record_post(
        self,
        id: Seq<char>,
        author: Seq<char>,
        content_hash: Seq<char>,
        at: i64,
    ) -> StoreView {
        if self.has_post(id) {
            self
        } else {
            StoreView {
                profiles: with_post_counted(self.profiles, author, at),
                posts: self.posts.push(new_post(id, author, content_hash, at)),
                ..self
            }
        }
    }

    /// The store once `session` has been recorded: it replaces the session
    /// of the same id, or is added.
    pub open spec fn record_session(self, session: AttentionSessionView) -> StoreView {
        StoreView { sessions: upsert::<AttentionSession>(self.sessions, session), ..self }
    }

    /// The store once the reputation of `address` has been set at time `at`.
    pub open spec fn record_reputation(self, address: Seq<char>, reputation: i64, at: i64) -> StoreView {
        StoreView { profiles: with_reputation(self.profiles, address, reputation, at), ..self }
    }
}

/// The profile of an address that is seen for the first time at time `at`.
pub open spec fn new_profile(address: Seq<char>, at: i64) -> ProfileView {
    ProfileView {
        address,
        reputation: DEFAULT_REPUTATION,
        total_posts: 0,
        total_attention_earned: 0,
        joined_at: at,
        updated_at: at,
    }
}

/// A post as it is when it is created at time `at`: on the first level, with
/// no attention and no replies.
pub open spec fn new_post(id: Seq<char>, author: Seq<char>, content_hash: Seq<char>, at: i64) -> PostView {
    PostView {
        id,
        author,
        content_hash,
        level: 1,
        attention_accumulated: 0,
        reply_count: 0,
        created_at: at,
        updated_at: at,
    }
}

/// The later of two times.
pub open spec fn later(a: i64, b: i64) -> i64 {
    if a >= b {
        a
    } else {
        b
    }
}

/// `profile` with one more post to its name, as of time `at`. The count
/// stops at the largest value it can hold, and the time of the last change
/// never goes back.
pub open spec fn counted(profile: ProfileView, at: i64) -> ProfileView {
    ProfileView {
        total_posts: if profile.total_posts < i64::MAX {
            (profile.total_posts + 1) as i64
        } else {
            profile.total_posts
        },
        updated_at: later(profile.updated_at, at),
        ..profile
    }
}

/// The profile of `address` once a post of its has been counted at time
/// `at`: the profile on record, or a fresh one, with one more post.
pub open spec fn profile_after_post(profiles: Seq<ProfileView>, address: Seq<char>, at: i64) -> ProfileView {
    if has_key::<Profile>(profiles, address) {
        counted(profiles[position::<Profile>(profiles, address)], at)
    } else {
        counted(new_profile(address, at), at)
    }
}

/// `profiles`, with one more post counted for `address`.
pub open spec fn with_post_counted(profiles: Seq<ProfileView>, address: Seq<char>, at: i64) -> Seq<ProfileView> {
    upsert::<Profile>(profiles, profile_after_post(profiles, address, at))
}

/// The profile of `address` once its reputation has been set to
/// `reputation` at time `at`: the profile on record with the new reputation,
/// its time of last change not before `at`; or a fresh profile with that
/// reputation.
pub open spec fn profile_after_reputation(
    profiles: Seq<ProfileView>,
    address: Seq<char>,
    reputation: i64,
    at: i64,
) -> ProfileView {
    if has_key::<Profile>(profiles, address) {
        let profile = profiles[position::<Profile>(profiles, address)];
        ProfileView { reputation, updated_at: later(profile.updated_at, at), ..profile }
    } else {
        ProfileView { reputation, ..new_profile(address, at) }
    }
}

/// `profiles`, with the reputation of `address` set to `reputation` as of
/// time `at`.
pub open spec fn with_reputation(
    profiles: Seq<ProfileView>,
    address: Seq<char>,
    reputation: i64,
    at: i64,
) -> Seq<ProfileView> {
    upsert::<Profile>(profiles, profile_after_reputation(profiles, address, reputation, at))
}

/// The reputation that `profiles` holds for `address`, if any.
pub open spec fn reputation_in(profiles: Seq<ProfileView>, address: Seq<char>) -> Option<i64> {
    if has_key::<Profile>(profiles, address) {
        Some(profiles[position::<Profile>(profiles, address)].reputation)
    } else {
        None
    }
}

impl View for Store {
    type V = StoreView;

    open spec fn view(&self) -> StoreView {
        StoreView {
            profiles: self.profiles@,
            posts: self.posts@,
            sessions: self.sessions@,
            rankings: self.rankings@,
        }
    }
}

impl Store {
    /// The store's invariant.
    pub open spec fn wf(&self) -> bool {
        self@.wf()
    }

    /// A store with no rows.
    pub fn new() -> (store: Self)
        ensures
            store.wf(),
            store@.profiles.len() == 0,
            store@.posts.len() == 0,
            store@.sessions.len() == 0,
            store@.rankings.len() == 0,
    {
        Store {
            profiles: Table::new(),
            posts: Table::new(),
            sessions: Table::new(),
            rankings: Table::new(),
        }
    }

    /// Records the creation of a post at time `at` and tells whether the
    /// post was added, which it is where its id was not taken.
    pub fn record_post(&mut self, id: String, author: String, content_hash: String, at: i64) -> (added: bool)
        requires
            old(self).wf(),
        ensures
            final(self).wf(),
            final(self)@ == old(self)@.record_post(id@, author@, content_hash@, at),
            added == !old(self)@.has_post(id@),
    {
        if self.posts.find(&id).is_some() {
            return false;
        }
        let profile = match self.profiles.find(&author) {
            Some(i) => self.profiles.row(i).clone(),
            None => Profile {
                address: author.clone(),
                reputation: DEFAULT_REPUTATION,
                total_posts: 0,
                total_attention_earned: 0,
                joined_at: at,
                updated_at: at,
            },
        };
        let counted = Profile {
            address: profile.address,
            reputation: profile.reputation,
            total_posts: if profile.total_posts < i64::MAX {
                profile.total_posts + 1
            } else {
                profile.total_posts
            },
            total_attention_earned: profile.total_attention_earned,
            joined_at: profile.joined_at,
            updated_at: if profile.updated_at >= at {
                profile.updated_at
            } else {
                at
            },
        };
        self.profiles.upsert(counted);
        let post = Post {
            id,
            author,
            content_hash,
            level: 1,
            attention_accumulated: 0,
            reply_count: 0,
            created_at: at,
            updated_at: at,
        };
        self.posts.upsert(post);
        true
    }

    /// Records a session: it replaces the session of the same id, or is
    /// added.
    pub fn record_session(&mut self, session: AttentionSession)
        requires
            old(self).wf(),
        ensures
            final(self).wf(),
            final(self)@ == old(self)@.record_session(session@),
    {
        self.sessions.upsert(session);
    }

    /// Sets the reputation of `address` as of time `at`; an address without
    /// a profile gets one.
    pub fn record_reputation(&mut self, address: String, reputation: i64, at: i64)
        requires
            old(self).wf(),
        ensures
            final(self).wf(),
            final(self)@ == old(self)@.record_reputation(address@, reputation, at),
    {
        let updated = match self.profiles.find(&address) {
            Some(i) => {
                let profile = self.profiles.row(i);
                Profile {
                    address: profile.address.clone(),
                    reputation,
                    total_posts: profile.total_posts,
                    total_attention_earned: profile.total_attention_earned,
                    joined_at: profile.joined_at,
                    updated_at: if profile.updated_at >= at {
                        profile.updated_at
                    } else {
                        at
                    },
                }
            },
            None => Profile {
                address,
                reputation,
                total_posts: 0,
                total_attention_earned: 0,
                joined_at: at,
                updated_at: at,
            },
        };
        self.profiles.upsert(updated);
    }
}

/// Looks up the reputation of `address` among `profiles`.
pub fn lookup_reputation(profiles: &Table<Profile>, address: &String) -> (r: Option<i64>)
    requires
        profiles.wf(),
    ensures
        r == reputation_in(profiles@, address@),
{
    match profiles.find(address) {
        Some(i) => match profiles.get(i) {
            Some(p) => Some(p.reputation),
            None => None,
        },
        None => None,
    }
}

} // verus!
