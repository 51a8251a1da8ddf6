//! The rows of the mirrored ledger state and the shapes of data exchanged
//! with the request-serving layer.
//!
//! Timestamps are whole seconds since the Unix epoch. Scores are whole
//! millionths. Each row type has a view in which every string is the sequence
//! of its characters; contracts are stated over these views.

use crate::table::Keyed;
use vstd::prelude::*;

verus! {

// ---------------------------------------------------------------- profiles
/// A participant, keyed by address.
#[derive(Debug, PartialEq, Eq)]
pub struct Profile {
    pub address: String,
    pub reputation: i64,
    pub total_posts: i64,
    pub total_attention_earned: i64,
    pub joined_at: i64,
    pub updated_at: i64,
}

/// What a `Profile` holds.
pub struct ProfileView {
    pub address: Seq<char>,
    pub reputation: i64,
    pub total_posts: i64,
    pub total_attention_earned: i64,
    pub joined_at: i64,
    pub updated_at: i64,
}

impl View for Profile {
    type V = ProfileView;

    open spec fn view(&self) -> ProfileView {
        ProfileView {
            address: self.address@,
            reputation: self.reputation,
            total_posts: self.total_posts,
            total_attention_earned: self.total_attention_earned,
            joined_at: self.joined_at,
            updated_at: self.updated_at,
        }
    }
}

impl Clone for Profile {
    fn clone(&self) -> (res: Self)
        ensures
            res == *self,
    {
        Profile {
            address: self.address.clone(),
            reputation: self.reputation,
            total_posts: self.total_posts,
            total_attention_earned: self.total_attention_earned,
            joined_at: self.joined_at,
            updated_at: self.updated_at,
        }
    }
}

impl Keyed for Profile {
    open spec fn key_of(row: ProfileView) -> Seq<char> {
        row.address
    }

    fn key(&self) -> (k: &String) {
        &self.address
    }
}

// ------------------------------------------------------------------- posts
/// A request to create a post.
#[derive(Debug, Clone, PartialEq, Eq)]
pub struct CreatePostRequest {
    pub author: String,
    pub content_hash: String,
}

/// A content item, keyed by id. `author` names a profile that need not
/// exist.
#[derive(Debug, PartialEq, Eq)]
pub struct Post {
    pub id: String,
    pub author: String,
    pub content_hash: String,
    pub level: i16,
    pub attention_accumulated: i64,
    pub reply_count: i64,
    pub created_at: i64,
    pub updated_at: i64,
}

/// What a `Post` holds.
pub struct PostView {
    pub id: Seq<char>,
    pub author: Seq<char>,
    pub content_hash: Seq<char>,
    pub level: i16,
    pub attention_accumulated: i64,
    pub reply_count: i64,
    pub created_at: i64,
    pub updated_at: i64,
}

impl View for Post {
    type V = PostView;

    open spec fn view(&self) -> PostView {
        PostView {
            id: self.id@,
            author: self.author@,
            content_hash: self.content_hash@,
            level: self.level,
            attention_accumulated: self.attention_accumulated,
            reply_count: self.reply_count,
            created_at: self.created_at,
            updated_at: self.updated_at,
        }
    }
}

impl Clone for Post {
    fn clone(&self) -> (res: Self)
        ensures
            res == *self,
    {
        Post {
            id: self.id.clone(),
            author: self.author.clone(),
            content_hash: self.content_hash.clone(),
            level: self.level,
            attention_accumulated: self.attention_accumulated,
            reply_count: self.reply_count,
            created_at: self.created_at,
            updated_at: self.updated_at,
        }
    }
}

impl Keyed for Post {
    open spec fn key_of(row: PostView) -> Seq<char> {
        row.id
    }

    fn key(&self) -> (k: &String) {
        &self.id
    }
}

/// A post as the feed shows it: with the reputation that entered its score
/// and the score itself.
#[derive(Debug, PartialEq, Eq)]
pub struct FeedPost {
    pub post: Post,
    pub author_reputation: i64,
    pub ranking_score: i128,
}

/// What a `FeedPost` holds.
pub struct FeedPostView {
    pub post: PostView,
    pub author_reputation: i64,
    pub ranking_score: i128,
}

impl View for FeedPost {
    type V = FeedPostView;

    open spec fn view(&self) -> FeedPostView {
        FeedPostView {
            post: self.post@,
            author_reputation: self.author_reputation,
            ranking_score: self.ranking_score,
        }
    }
}

// --------------------------------------------------------------- attention
/// A request to open a reading session.
#[derive(Debug, Clone, PartialEq, Eq)]
pub struct StartSessionRequest {
    pub reader: String,
    pub post_id: String,
}

/// A reading session, keyed by id. `reader` names a profile and `post_id`
/// a post; neither need exist.
#[derive(Debug, PartialEq, Eq)]
pub struct AttentionSession {
    pub id: String,
    pub reader: String,
    pub post_id: String,
    pub duration_ms: i64,
    pub reward: i64,
    pub claimed: bool,
}

/// What an `AttentionSession` holds.
pub struct AttentionSessionView {
    pub id: Seq<char>,
    pub reader: Seq<char>,
    pub post_id: Seq<char>,
    pub duration_ms: i64,
    pub reward: i64,
    pub claimed: bool,
}

impl View for AttentionSession {
    type V = AttentionSessionView;

    open spec fn view(&self) -> AttentionSessionView {
        AttentionSessionView {
            id: self.id@,
            reader: self.reader@,
            post_id: self.post_id@,
            duration_ms: self.duration_ms,
            reward: self.reward,
            claimed: self.claimed,
        }
    }
}

impl Clone for AttentionSession {
    fn clone(&self) -> (res: Self)
        ensures
            res == *self,
    {
        AttentionSession {
            id: self.id.clone(),
            reader: self.reader.clone(),
            post_id: self.post_id.clone(),
            duration_ms: self.duration_ms,
            reward: self.reward,
            claimed: self.claimed,
        }
    }
}

impl Keyed for AttentionSession {
    open spec fn key_of(row: AttentionSessionView) -> Seq<char> {
        row.id
    }

    fn key(&self) -> (k: &String) {
        &self.id
    }
}

/// A request to end a reading session.
#[derive(Debug, Clone, PartialEq, Eq)]
pub struct EndSessionRequest {
    pub duration_ms: i64,
}

// ------------------------------------------------------------ truth claims
/// A request to open a truth claim on a post.
#[derive(Debug, Clone, PartialEq, Eq)]
pub struct CreateClaimRequest {
    pub post_id: String,
    pub claimer: String,
    pub claim_text: String,
}

/// A truth claim and the votes cast on it.
#[derive(Debug, Clone, PartialEq, Eq)]
pub struct TruthClaim {
    pub id: String,
    pub post_id: String,
    pub claimer: String,
    pub votes_yes: i64,
    pub votes_no: i64,
    pub resolved: bool,
}

/// A vote on a truth claim.
#[derive(Debug, Clone, PartialEq, Eq)]
pub struct VoteRequest {
    pub voter: String,
    /// `true` is a vote for, `false` a vote against.
    pub vote: bool,
}

// ------------------------------------------------------------------- debug
/// The state of the service, as it reports it.
#[derive(Debug, Clone, PartialEq, Eq)]
pub struct HealthStatus {
    pub status: String,
    pub database: String,
    pub version: String,
}

// ----------------------------------------------------------------- ranking
/// The score of one post and the four terms it is the sum of, keyed by the
/// post's id.
#[derive(Debug, PartialEq, Eq)]
pub struct RankingRecord {
    pub post_id: String,
    pub score: i128,
    pub level_score: i128,
    pub reputation_score: i128,
    pub attention_score: i128,
    pub time_score: i128,
    pub calculated_at: i64,
}

/// What a `RankingRecord` holds.
pub struct RankingRecordView {
    pub post_id: Seq<char>,
    pub score: i128,
    pub level_score: i128,
    pub reputation_score: i128,
    pub attention_score: i128,
    pub time_score: i128,
    pub calculated_at: i64,
}

impl View for RankingRecord {
    type V = RankingRecordView;

    open spec fn view(&self) -> RankingRecordView {
        RankingRecordView {
            post_id: self.post_id@,
            score: self.score,
            level_score: self.level_score,
            reputation_score: self.reputation_score,
            attention_score: self.attention_score,
            time_score: self.time_score,
            calculated_at: self.calculated_at,
        }
    }
}

impl Clone for RankingRecord {
    fn clone(&self) -> (res: Self)
        ensures
            res == *self,
    {
        RankingRecord {
            post_id: self.post_id.clone(),
            score: self.score,
            level_score: self.level_score,
            reputation_score: self.reputation_score,
            attention_score: self.attention_score,
            time_score: self.time_score,
            calculated_at: self.calculated_at,
        }
    }
}

impl Keyed for RankingRecord {
    open spec fn key_of(row: RankingRecordView) -> Seq<char> {
        row.post_id
    }

    fn key(&self) -> (k: &String) {
        &self.post_id
    }
}

} // verus!
