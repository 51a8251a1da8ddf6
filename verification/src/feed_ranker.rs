//! The ranking engine: scores every post from the current state of the
//! store and keeps one ranking record per post.

use crate::models::{Post, PostView, Profile, RankingRecord, RankingRecordView};
use crate::schedule::{next_step, step_after, TaskEvent, TaskStep};
use crate::score::{
    compute_score, reputation_term, score_parts, DEFAULT_REPUTATION, RECENT_WINDOW_SECS,
};
use crate::order::{descending_order, lemma_ranking_order_is_listing, outranks, rank_indices};
use crate::store::{lookup_reputation, Store, StoreView};
use crate::table::{distinct_keys, has_key, lemma_position_unique, lemma_upsert, position, upsert};
use vstd::prelude::*;

verus! {

/// The record that a ranking pass at time `now` computes for `post`, whose
/// author has reputation `reputation` on record (`None` where the author
/// has no profile).
pub open spec fn record_for(post: PostView, reputation: Option<i64>, now: i64) -> RankingRecordView {
    let parts = score_parts(
        post.level as int,
        reputation,
        post.attention_accumulated as int,
        now - post.created_at,
    );
    RankingRecordView {
        post_id: post.id,
        score: parts.score,
        level_score: parts.level_score,
        reputation_score: parts.reputation_score,
        attention_score: parts.attention_score,
        time_score: parts.time_score,
        calculated_at: now,
    }
}

/// The record of the post at index `i` of `s.posts`.
pub open spec fn record_at(s: StoreView, now: i64, i: int) -> RankingRecordView {
    record_for(s.posts[i], s.reputation_of(s.posts[i].author), now)
}

/// The ranking table once the first `n` posts of `s` have been scored at
/// time `now`: each record in turn replaces the one of its post, or is
/// appended.
pub open spec fn ranked(s: StoreView, now: i64, n: int) -> Seq<RankingRecordView>
    decreases n,
{
    if n <= 0 {
        s.rankings
    } else {
        upsert::<RankingRecord>(ranked(s, now, n - 1), record_at(s, now, n - 1))
    }
}

/// The store after a complete ranking pass at time `now`.
pub open spec fn after_pass(s: StoreView, now: i64) -> StoreView {
    StoreView { rankings: ranked(s, now, s.posts.len() as int), ..s }
}

/// What a ranking pass leaves behind, after its first `n` posts: keys stay
/// distinct; each post scored so far has exactly its record; records already
/// present keep their place, and those of other posts keep their content.
pub proof fn lemma_ranked(s: StoreView, now: i64, n: int)
    requires
        s.wf(),
        0 <= n <= s.posts.len(),
    ensures
        distinct_keys::<RankingRecord>(ranked(s, now, n)),
        ranked(s, now, n).len() >= s.rankings.len(),
        forall|j: int|
            0 <= j < n ==> has_key::<RankingRecord>(ranked(s, now, n), (#[trigger] s.posts[j]).id),
        forall|j: int|
            0 <= j < n ==> ranked(s, now, n)[position::<RankingRecord>(
                ranked(s, now, n),
                (#[trigger] s.posts[j]).id,
            )] == record_at(s, now, j),
        forall|i: int|
            0 <= i < s.rankings.len() ==> (#[trigger] ranked(s, now, n)[i]).post_id
                == s.rankings[i].post_id,
        forall|i: int|
            0 <= i < s.rankings.len() && !(exists|j: int|
                0 <= j < n && (#[trigger] s.posts[j]).id == s.rankings[i].post_id) ==> (
            #[trigger] ranked(s, now, n)[i]) == s.rankings[i],
    decreases n,
{
    if n > 0 {
        lemma_ranked(s, now, n - 1);
        let before = ranked(s, now, n - 1);
        let rec = record_at(s, now, n - 1);
        let after = ranked(s, now, n);
        lemma_upsert::<RankingRecord>(before, rec);
        assert forall|j: int| 0 <= j < n implies has_key::<RankingRecord>(
            after,
            (#[trigger] s.posts[j]).id,
        ) && after[position::<RankingRecord>(after, s.posts[j].id)] == record_at(s, now, j) by {
            if j < n - 1 {
                let p = position::<RankingRecord>(before, s.posts[j].id);
                assert(has_key::<RankingRecord>(before, s.posts[j].id));
                assert(before[p].post_id == s.posts[j].id);
                assert(s.posts[j].id != s.posts[n - 1].id);
                assert(after[p] == before[p]);
                lemma_position_unique::<RankingRecord>(after, s.posts[j].id, p);
            }
        }
        assert forall|i: int|
            0 <= i < s.rankings.len() && !(exists|j: int|
                0 <= j < n && (#[trigger] s.posts[j]).id == s.rankings[i].post_id) implies (
        #[trigger] after[i]) == s.rankings[i] by {
            assert(before[i].post_id == s.rankings[i].post_id);
            assert(s.posts[n - 1].id != s.rankings[i].post_id);
            assert forall|j: int| 0 <= j < n - 1 implies (#[trigger] s.posts[j]).id
                != s.rankings[i].post_id by {}
            assert(before[i] == s.rankings[i]);
        }
    }
}

/// A post whose author has no profile is scored with the default
/// reputation.
pub proof fn lemma_missing_author_scores_default(s: StoreView, now: i64, j: int)
    requires
        0 <= j < s.posts.len(),
        !has_key::<Profile>(s.profiles, s.posts[j].author),
    ensures
        record_at(s, now, j).reputation_score == reputation_term(DEFAULT_REPUTATION as int),
        record_at(s, now, j) == record_for(s.posts[j], Some(DEFAULT_REPUTATION), now),
{
}

/// After a pass, each post has one ranking record and no more.
pub proof fn lemma_one_record_per_post(s: StoreView, now: i64, j: int)
    requires
        s.wf(),
        0 <= j < s.posts.len(),
    ensures
        after_pass(s, now).wf(),
        exists|i: int|
            0 <= i < after_pass(s, now).rankings.len() && (#[trigger] after_pass(
                s,
                now,
            ).rankings[i]).post_id == s.posts[j].id,
        forall|a: int, b: int|
            0 <= a < after_pass(s, now).rankings.len() && 0 <= b < after_pass(s, now).rankings.len()
                && (#[trigger] after_pass(s, now).rankings[a]).post_id == s.posts[j].id && (
            #[trigger] after_pass(s, now).rankings[b]).post_id == s.posts[j].id ==> a == b,
{
    lemma_ranked(s, now, s.posts.len() as int);
    let rankings = after_pass(s, now).rankings;
    assert(has_key::<RankingRecord>(rankings, s.posts[j].id));
    let p = position::<RankingRecord>(rankings, s.posts[j].id);
    assert(rankings[p].post_id == s.posts[j].id);
    assert forall|a: int, b: int|
        0 <= a < rankings.len() && 0 <= b < rankings.len() && (#[trigger] rankings[a]).post_id
            == s.posts[j].id && (#[trigger] rankings[b]).post_id == s.posts[j].id implies a
        == b by {
        lemma_position_unique::<RankingRecord>(rankings, s.posts[j].id, a);
        lemma_position_unique::<RankingRecord>(rankings, s.posts[j].id, b);
    }
}

/// Two records agree in everything but the time of computation.
pub open spec fn same_scores(a: RankingRecordView, b: RankingRecordView) -> bool {
    a == RankingRecordView { calculated_at: a.calculated_at, ..b }
}

/// No post is younger than an hour at one of the two times and not at the
/// other.
pub open spec fn recency_unchanged(s: StoreView, now1: i64, now2: i64) -> bool {
    forall|j: int|
        0 <= j < s.posts.len() ==> (now1 - (#[trigger] s.posts[j]).created_at
            < RECENT_WINDOW_SECS) == (now2 - s.posts[j].created_at < RECENT_WINDOW_SECS)
}

proof fn lemma_second_pass(s: StoreView, now1: i64, now2: i64, m: int)
    requires
        s.wf(),
        recency_unchanged(s, now1, now2),
        0 <= m <= s.posts.len(),
    ensures
        ranked(after_pass(s, now1), now2, m).len() == after_pass(s, now1).rankings.len(),
        forall|i: int|
            0 <= i < after_pass(s, now1).rankings.len() ==> same_scores(
                #[trigger] ranked(after_pass(s, now1), now2, m)[i],
                after_pass(s, now1).rankings[i],
            ),
        now1 == now2 ==> ranked(after_pass(s, now1), now2, m) == after_pass(s, now1).rankings,
    decreases m,
{
    let once = after_pass(s, now1);
    lemma_ranked(s, now1, s.posts.len() as int);
    assert(once.wf());
    if m > 0 {
        lemma_second_pass(s, now1, now2, m - 1);
        lemma_ranked(once, now2, m - 1);
        let before = ranked(once, now2, m - 1);
        let rec = record_at(once, now2, m - 1);
        let key = s.posts[m - 1].id;
        let p = position::<RankingRecord>(once.rankings, key);
        assert(has_key::<RankingRecord>(once.rankings, key));
        assert(once.rankings[p] == record_at(s, now1, m - 1));
        assert(same_scores(before[p], once.rankings[p]));
        lemma_position_unique::<RankingRecord>(before, key, p);
        let after = ranked(once, now2, m);
        assert(after == before.update(p, rec));
        assert(same_scores(rec, once.rankings[p]));
        if now1 == now2 {
            assert(after =~= once.rankings);
        }
    }
}

/// A second pass over unchanged data changes no score: where no post has
/// crossed the one-hour mark between the two passes, every record keeps its
/// place, its score and its four terms, and only the time of computation is
/// renewed. A second pass at the same time changes nothing at all.
pub proof fn lemma_pass_idempotent(s: StoreView, now1: i64, now2: i64)
    requires
        s.wf(),
        recency_unchanged(s, now1, now2),
    ensures
        after_pass(after_pass(s, now1), now2).rankings.len() == after_pass(s, now1).rankings.len(),
        forall|i: int|
            0 <= i < after_pass(s, now1).rankings.len() ==> same_scores(
                #[trigger] after_pass(after_pass(s, now1), now2).rankings[i],
                after_pass(s, now1).rankings[i],
            ),
        now1 == now2 ==> after_pass(after_pass(s, now1), now2) == after_pass(s, now1),
{
    lemma_second_pass(s, now1, now2, s.posts.len() as int);
}

/// The scores of `rankings`, in table order.
pub open spec fn scores_of(rankings: Seq<RankingRecordView>) -> Seq<i128> {
    rankings.map_values(|r: RankingRecordView| r.score)
}

/// How many of `n` items a listing bounded by `limit` holds: `limit` of
/// them, all of them where there are fewer, none where `limit` is not
/// positive.
pub open spec fn bounded_count(limit: i64, n: nat) -> nat {
    if limit <= 0 {
        0
    } else if limit >= n {
        n
    } else {
        limit as nat
    }
}

/// The first `limit` pairs of post id and score in listing order: highest
/// score first, and among equal scores the record that stands first in the
/// ranking table, which is the one whose post was ranked first.
pub open spec fn top_posts(rankings: Seq<RankingRecordView>, limit: i64) -> Seq<(Seq<char>, i128)> {
    let order = descending_order(scores_of(rankings));
    Seq::new(
        bounded_count(limit, rankings.len()),
        |k: int| (rankings[order[k]].post_id, rankings[order[k]].score),
    )
}

/// Seconds between the end of one ranking pass and the start of the next.
pub const RANKING_INTERVAL_SECS: u64 = 300;

/// The ranking engine. What it works on is the store; it holds no state of
/// its own.
pub struct FeedRanker {}

/// Builds the ranking record of `post`.
pub fn score_post(post: &Post, reputation: Option<i64>, now: i64) -> (rec: RankingRecord)
    ensures
        rec@ == record_for(post@, reputation, now),
{
    let parts = compute_score(
        post.level,
        reputation,
        post.attention_accumulated,
        post.created_at,
        now,
    );
    RankingRecord {
        post_id: post.id.clone(),
        score: parts.score,
        level_score: parts.level_score,
        reputation_score: parts.reputation_score,
        attention_score: parts.attention_score,
        time_score: parts.time_score,
        calculated_at: now,
    }
}

impl FeedRanker {
    /// The ranking engine.
    pub fn new() -> (ranker: Self) {
        FeedRanker {  }
    }

    /// The step of the ranking task that follows `event`: a pass at the
    /// start and after every pause, and after every pass a pause of
    /// `RANKING_INTERVAL_SECS` seconds, with the failure reported first
    /// where the pass failed.
    pub fn run(&self, event: TaskEvent) -> (step: TaskStep)
        ensures
            step == next_step(RANKING_INTERVAL_SECS, event),
    {
        step_after(RANKING_INTERVAL_SECS, event)
    }

    /// One ranking pass at time `now`: every post is scored anew from the
    /// store as it stands, and its record replaces the one from the pass
    /// before, in the same place, or is appended where the post has none.
    /// Records of posts that are not in the store are left alone. Afterwards
    /// each post has one record.
    pub fn update_rankings(&self, store: &mut Store, now: i64)
        requires
            old(store).wf(),
        ensures
            final(store).wf(),
            final(store)@ == after_pass(old(store)@, now),
            forall|i: int|
                0 <= i < old(store)@.rankings.len() && !old(store)@.has_post(
                    (#[trigger] old(store)@.rankings[i]).post_id,
                ) ==> final(store)@.rankings[i] == old(store)@.rankings[i],
            forall|j: int|
                0 <= j < old(store)@.posts.len() ==> has_key::<RankingRecord>(
                    final(store)@.rankings,
                    (#[trigger] old(store)@.posts[j]).id,
                ),
            forall|j: int|
                0 <= j < old(store)@.posts.len() ==> final(store)@.rankings[position::<
                    RankingRecord,
                >(final(store)@.rankings, (#[trigger] old(store)@.posts[j]).id)] == record_at(
                    old(store)@,
                    now,
                    j,
                ),
    {
        let n = store.posts.len();
        let mut i: usize = 0;
        while i < n
            invariant
                i <= n,
                n == store.posts@.len(),
                old(store).wf(),
                store.posts@ == old(store).posts@,
                store.profiles@ == old(store).profiles@,
                store.sessions@ == old(store).sessions@,
                store.rankings@ == ranked(old(store)@, now, i as int),
                store.rankings.wf(),
            decreases n - i,
        {
            proof {
                lemma_ranked(old(store)@, now, i as int + 1);
            }
            let post = store.posts.row(i);
            let reputation = lookup_reputation(&store.profiles, &post.author);
            let rec = score_post(post, reputation, now);
            store.rankings.upsert(rec);
            i += 1;
        }
        proof {
            lemma_ranked(old(store)@, now, n as int);
            assert forall|i: int|
                0 <= i < old(store)@.rankings.len() && !old(store)@.has_post(
                    (#[trigger] old(store)@.rankings[i]).post_id,
                ) implies store@.rankings[i] == old(store)@.rankings[i] by {
                assert forall|j: int| 0 <= j < n implies (#[trigger] old(store)@.posts[j]).id
                    != old(store)@.rankings[i].post_id by {}
                assert(ranked(old(store)@, now, n as int)[i] == old(store)@.rankings[i]);
            }
        }
    }

    /// The `limit` best-ranked posts, each with its score, best first. Ties
    /// keep the order of the ranking table. A `limit` below one gives the
    /// empty list.
    pub fn get_top_posts(&self, store: &Store, limit: i64) -> (top: Vec<(String, i128)>)
        ensures
            top@.len() == bounded_count(limit, store@.rankings.len()),
            forall|k: int|
                0 <= k < top@.len() ==> (#[trigger] top@[k]).0@ == top_posts(
                    store@.rankings,
                    limit,
                )[k].0,
            forall|k: int|
                0 <= k < top@.len() ==> (#[trigger] top@[k]).1 == top_posts(
                    store@.rankings,
                    limit,
                )[k].1,
            limit >= 0 ==> top@.len() <= limit,
            forall|a: int, b: int|
                0 <= a < b < top@.len() ==> (#[trigger] top@[a]).1 >= (#[trigger] top@[b]).1,
    {
        let n = store.rankings.len();
        let mut scores: Vec<i128> = Vec::new();
        let mut i: usize = 0;
        while i < n
            invariant
                i <= n,
                n == store.rankings@.len(),
                scores@ == scores_of(store@.rankings).take(i as int),
            decreases n - i,
        {
            scores.push(store.rankings.row(i).score);
            assert(scores@ =~= scores_of(store@.rankings).take(i + 1));
            i += 1;
        }
        assert(scores@ =~= scores_of(store@.rankings));
        let order = rank_indices(&scores);
        let count: usize = if limit <= 0 {
            0
        } else if limit as u64 >= n as u64 {
            n
        } else {
            limit as usize
        };
        let ghost listing = descending_order(scores@);
        proof {
            lemma_ranking_order_is_listing(scores@, n as int);
        }
        let mut top: Vec<(String, i128)> = Vec::new();
        let mut k: usize = 0;
        while k < count
            invariant
                k <= count <= n,
                n == store.rankings@.len(),
                order@.len() == n,
                scores@ == scores_of(store@.rankings),
                listing == descending_order(scores@),
                order@.map_values(|i: usize| i as int) == listing,
                forall|j: int| 0 <= j < order@.len() ==> #[trigger] order@[j] < n,
                count == bounded_count(limit, store@.rankings.len()),
                top@.len() == k,
                forall|j: int|
                    0 <= j < k ==> (#[trigger] top@[j]).0@ == store@.rankings[listing[j]].post_id,
                forall|j: int|
                    0 <= j < k ==> (#[trigger] top@[j]).1 == store@.rankings[listing[j]].score,
            decreases count - k,
        {
            assert(listing[k as int] == order@[k as int] as int);
            let rec = store.rankings.row(order[k]);
            top.push((rec.post_id.clone(), rec.score));
            k += 1;
        }
        assert forall|a: int, b: int| 0 <= a < b < top@.len() implies (#[trigger] top@[a]).1 >= (
        #[trigger] top@[b]).1 by {
            assert(outranks(scores@, listing[a], listing[b]));
        }
        top
    }
}

} // verus!
