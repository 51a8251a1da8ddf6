//! Creating posts and reading them back, one at a time or as the feed.

use crate::feed_ranker::bounded_count;
use crate::models::{CreatePostRequest, FeedPost, FeedPostView, Post, RankingRecord, RankingRecordView};
use crate::order::{descending_order, lemma_ranking_order_is_listing, outranks, rank_indices};
use crate::score::{effective_reputation, DEFAULT_REPUTATION};
use crate::store::{lookup_reputation, Store, StoreView};
use crate::table::{has_key, position, Table};
use vstd::prelude::*;

verus! {

/// Why a post was not created.
#[derive(Debug, PartialEq, Eq)]
pub enum PostError {
    /// The request names no content hash, or one that is blank.
    ContentHashRequired,
    /// The id drawn for the post is taken; the post was not stored.
    InsertFailed,
}

/// The author of a post whose request names none.
pub const ANONYMOUS: &'static str = "anonymous";

/// The most posts that the feed lists.
pub const FEED_LIMIT: i64 = 200;

/// The number of characters of a drawn post id.
pub const POST_ID_LEN: usize = 36;

/// `c` is white space: it has the Unicode property `White_Space`, which is
/// what the standard library goes by when it trims.
pub open spec fn is_white_space(c: char) -> bool {
    let n = c as u32;
    ||| 0x09 <= n <= 0x0D
    ||| n == 0x20
    ||| n == 0x85
    ||| n == 0xA0
    ||| n == 0x1680
    ||| 0x2000 <= n <= 0x200A
    ||| n == 0x2028
    ||| n == 0x2029
    ||| n == 0x202F
    ||| n == 0x205F
    ||| n == 0x3000
}

/// Every character of `s` is white space.
pub open spec fn is_blank(s: Seq<char>) -> bool {
    forall|i: int| 0 <= i < s.len() ==> is_white_space(#[trigger] s[i])
}

/// The number of white-space characters that `s` begins with.
pub open spec fn leading(s: Seq<char>) -> nat
    decreases s.len(),
{
    if s.len() > 0 && is_white_space(s.first()) {
        1 + leading(s.drop_first())
    } else {
        0
    }
}

/// The number of white-space characters that `s` ends with.
pub open spec fn trailing(s: Seq<char>) -> nat
    decreases s.len(),
{
    if s.len() > 0 && is_white_space(s.last()) {
        1 + trailing(s.drop_last())
    } else {
        0
    }
}

/// `s` without the white space it begins with and the white space it ends
/// with.
pub open spec fn trimmed(s: Seq<char>) -> Seq<char> {
    if leading(s) >= s.len() {
        Seq::empty()
    } else {
        s.subrange(leading(s) as int, s.len() - trailing(s))
    }
}

proof fn lemma_leading(s: Seq<char>)
    ensures
        leading(s) <= s.len(),
        forall|i: int| 0 <= i < leading(s) ==> is_white_space(#[trigger] s[i]),
        leading(s) < s.len() ==> !is_white_space(s[leading(s) as int]),
    decreases s.len(),
{
    if s.len() > 0 && is_white_space(s.first()) {
        let rest = s.drop_first();
        lemma_leading(rest);
        assert forall|i: int| 0 <= i < leading(s) implies is_white_space(#[trigger] s[i]) by {
            if i > 0 {
                assert(s[i] == rest[i - 1]);
            }
        }
        if leading(s) < s.len() {
            assert(s[leading(s) as int] == rest[leading(rest) as int]);
        }
    }
}

proof fn lemma_trailing(s: Seq<char>)
    ensures
        trailing(s) <= s.len(),
        forall|i: int| s.len() - trailing(s) <= i < s.len() ==> is_white_space(#[trigger] s[i]),
        trailing(s) < s.len() ==> !is_white_space(s[s.len() - trailing(s) - 1]),
    decreases s.len(),
{
    if s.len() > 0 && is_white_space(s.last()) {
        let rest = s.drop_last();
        lemma_trailing(rest);
        assert forall|i: int| s.len() - trailing(s) <= i < s.len() implies is_white_space(
            #[trigger] s[i],
        ) by {
            if i < s.len() - 1 {
                assert(s[i] == rest[i]);
            }
        }
        if trailing(s) < s.len() {
            assert(s[s.len() - trailing(s) - 1] == rest[rest.len() - trailing(rest) - 1]);
        }
    }
}

/// Trimming cuts white space and nothing else, and leaves none at either
/// end: what is cut in front and behind is white space throughout; a blank
/// string is trimmed to nothing, and no other is; what is left of a string
/// that is not blank is the stretch between the two cuts, and it begins and
/// ends with a character that is not white space.
pub proof fn lemma_trimmed(s: Seq<char>)
    ensures
        forall|i: int| 0 <= i < leading(s) <= s.len() ==> is_white_space(#[trigger] s[i]),
        forall|i: int| 0 <= s.len() - trailing(s) <= i < s.len() ==> is_white_space(#[trigger] s[i]),
        is_blank(s) <==> trimmed(s).len() == 0,
        !is_blank(s) ==> leading(s) + trailing(s) < s.len() && trimmed(s) == s.subrange(
            leading(s) as int,
            s.len() - trailing(s),
        ) && !is_white_space(trimmed(s).first()) && !is_white_space(trimmed(s).last()),
{
    lemma_leading(s);
    lemma_trailing(s);
    if leading(s) < s.len() {
        let first = leading(s) as int;
        assert(!is_white_space(s[first]));
        if s.len() - trailing(s) <= first {
            assert(is_white_space(s[first]));
        }
        let last = s.len() - trailing(s) - 1;
        assert(trimmed(s).first() == s[first]);
        assert(trimmed(s).last() == s[last]);
    }
}

/// `str::trim`: the slice of `s` that is left when the white space that it
/// begins and ends with is cut off, white space being what has the Unicode
/// property `White_Space`.
#[verifier::external_body]
fn trim<'a>(s: &'a str) -> (t: &'a str)
    ensures
        t@ == trimmed(s@),
{
    s.trim()
}

/// `uuid::Uuid::new_v4`, rendered by `to_string`: a random identifier in
/// its hyphenated form, which has 36 characters. Nothing is claimed of which
/// identifier comes back; in particular it may be one that is in use. The
/// call panics where the operating system yields no random bytes.
#[verifier::external_body]
fn fresh_post_id() -> (id: String)
    ensures
        id@.len() == POST_ID_LEN,
{
    uuid::Uuid::new_v4().to_string()
}

/// The author that a request stands for.
pub open spec fn author_or_anonymous(author: Option<&str>) -> Seq<char> {
    match author {
        Some(a) => a@,
        None => ANONYMOUS@,
    }
}

/// Builds the request for a post with content hash `content`, which is
/// taken as it is, and refuses an empty one.
pub fn accept_request(content: &str, author: Option<&str>) -> (r: Result<CreatePostRequest, PostError>)
    ensures
        match r {
            Ok(request) => content@.len() > 0 && request.content_hash@ == content@
                && request.author@ == author_or_anonymous(author),
            Err(e) => e == PostError::ContentHashRequired && content@.len() == 0,
        },
{
    if content.is_empty() {
        return Err(PostError::ContentHashRequired);
    }
    let author = match author {
        Some(a) => a.to_owned(),
        None => ANONYMOUS.to_owned(),
    };
    Ok(CreatePostRequest { author, content_hash: content.to_owned() })
}

/// Reads a request off its two fields: the content hash is trimmed and must
/// not be blank; a missing author is the anonymous one.
pub fn normalize_request(content_hash: Option<&str>, author: Option<&str>) -> (r: Result<
    CreatePostRequest,
    PostError,
>)
    ensures
        match r {
            Ok(request) => !lacks_content(content_hash) && request.content_hash@ == trimmed(
                content_hash.unwrap()@,
            ) && request.author@ == author_or_anonymous(author),
            Err(e) => e == PostError::ContentHashRequired && lacks_content(content_hash),
        },
{
    match content_hash {
        Some(raw) => {
            proof {
                lemma_trimmed(raw@);
            }
            accept_request(trim(raw), author)
        },
        None => Err(PostError::ContentHashRequired),
    }
}

/// Stores the post that `request` asks for under `id`, at time `now`, and
/// returns the id. Where the id is taken, nothing is stored.
pub fn insert_post(store: &mut Store, id: String, request: CreatePostRequest, now: i64) -> (r: Result<
    String,
    PostError,
>)
    requires
        old(store).wf(),
    ensures
        final(store).wf(),
        final(store)@ == old(store)@.record_post(id@, request.author@, request.content_hash@, now),
        match r {
            Ok(stored) => stored@ == id@ && !old(store)@.has_post(id@),
            Err(e) => e == PostError::InsertFailed && old(store)@.has_post(id@) && final(store)@
                == old(store)@,
        },
{
    let stored = id.clone();
    if store.record_post(id, request.author, request.content_hash, now) {
        Ok(stored)
    } else {
        Err(PostError::InsertFailed)
    }
}

/// The request names no content hash, or one that is blank.
pub open spec fn lacks_content(content_hash: Option<&str>) -> bool {
    content_hash.is_none() || is_blank(content_hash.unwrap()@)
}

/// Creates a post from the two fields of a request, under an id drawn at
/// random, and returns the id.
///
/// A request that lacks content is refused; no other request is refused for
/// what it holds. Whether a request that is not refused is stored depends on
/// the id that was drawn: the post is stored under it unless it was taken,
/// which it can only be where some post has an id of the length of the drawn
/// one. Where no post is stored, the store is left as it is.
pub fn create_post(store: &mut Store, content_hash: Option<&str>, author: Option<&str>, now: i64) -> (r:
    Result<String, PostError>)
    requires
        old(store).wf(),
    ensures
        final(store).wf(),
        match r {
            Ok(id) => !lacks_content(content_hash) && id@.len() == POST_ID_LEN && !old(
                store,
            )@.has_post(id@) && final(store)@ == old(store)@.record_post(
                id@,
                author_or_anonymous(author),
                trimmed(content_hash.unwrap()@),
                now,
            ),
            Err(PostError::InsertFailed) => !lacks_content(content_hash) && final(store)@ == old(
                store,
            )@ && exists|id: Seq<char>|
                id.len() == POST_ID_LEN && #[trigger] old(store)@.has_post(id),
            Err(PostError::ContentHashRequired) => lacks_content(content_hash) && final(store)@
                == old(store)@,
        },
{
    match normalize_request(content_hash, author) {
        Ok(request) => {
            let id = fresh_post_id();
            insert_post(store, id, request, now)
        },
        Err(e) => Err(e),
    }
}

/// The post with id `id`, if there is one.
pub fn get_post(store: &Store, id: &String) -> (r: Option<Post>)
    requires
        store.wf(),
    ensures
        match r {
            Some(post) => store@.has_post(id@) && post@ == store@.posts[position::<Post>(
                store@.posts,
                id@,
            )],
            None => !store@.has_post(id@),
        },
{
    match store.posts.find(id) {
        Some(i) => Some(store.posts.row(i).clone()),
        None => None,
    }
}

/// The score on record for the post with id `post_id`; zero where it has
/// not been ranked.
pub open spec fn score_in(rankings: Seq<RankingRecordView>, post_id: Seq<char>) -> i128 {
    if has_key::<RankingRecord>(rankings, post_id) {
        rankings[position::<RankingRecord>(rankings, post_id)].score
    } else {
        0
    }
}

/// The post at index `i`, as the feed shows it.
pub open spec fn feed_row(s: StoreView, i: int) -> FeedPostView {
    FeedPostView {
        post: s.posts[i],
        author_reputation: effective_reputation(s.reputation_of(s.posts[i].author)) as i64,
        ranking_score: score_in(s.rankings, s.posts[i].id),
    }
}

/// The score of each post, in table order.
pub open spec fn feed_scores(s: StoreView) -> Seq<i128> {
    Seq::new(s.posts.len(), |i: int| score_in(s.rankings, s.posts[i].id))
}

/// The feed: the first `FEED_LIMIT` posts in listing order, highest score
/// first, and among equal scores the post that was stored first.
pub open spec fn feed(s: StoreView) -> Seq<FeedPostView> {
    let order = descending_order(feed_scores(s));
    Seq::new(bounded_count(FEED_LIMIT, s.posts.len()), |k: int| feed_row(s, order[k]))
}

/// Looks up the score of the post with id `post_id`.
pub fn lookup_score(rankings: &Table<RankingRecord>, post_id: &String) -> (score: i128)
    requires
        rankings.wf(),
    ensures
        score == score_in(rankings@, post_id@),
{
    match rankings.find(post_id) {
        Some(i) => rankings.row(i).score,
        None => 0,
    }
}

/// The feed of the store as it stands.
pub fn get_feed(store: &Store) -> (rows: Vec<FeedPost>)
    requires
        store.wf(),
    ensures
        rows@.len() == feed(store@).len(),
        rows@.len() <= FEED_LIMIT,
        forall|k: int| 0 <= k < rows@.len() ==> (#[trigger] rows@[k])@ == feed(store@)[k],
        forall|a: int, b: int|
            0 <= a < b < rows@.len() ==> (#[trigger] rows@[a]).ranking_score >= (
            #[trigger] rows@[b]).ranking_score,
{
    let n = store.posts.len();
    let mut scores: Vec<i128> = Vec::new();
    let mut i: usize = 0;
    while i < n
        invariant
            i <= n,
            n == store.posts@.len(),
            store.wf(),
            scores@ == feed_scores(store@).take(i as int),
        decreases n - i,
    {
        scores.push(lookup_score(&store.rankings, &store.posts.row(i).id));
        assert(scores@ =~= feed_scores(store@).take(i + 1));
        i += 1;
    }
    assert(scores@ =~= feed_scores(store@));
    let order = rank_indices(&scores);
    let count: usize = if FEED_LIMIT as u64 >= n as u64 {
        n
    } else {
        FEED_LIMIT as usize
    };
    let ghost listing = descending_order(scores@);
    proof {
        lemma_ranking_order_is_listing(scores@, n as int);
    }
    let mut rows: Vec<FeedPost> = Vec::new();
    let mut k: usize = 0;
    while k < count
        invariant
            k <= count <= n,
            n == store.posts@.len(),
            store.wf(),
            order@.len() == n,
            scores@ == feed_scores(store@),
            listing == descending_order(scores@),
            order@.map_values(|i: usize| i as int) == listing,
            forall|j: int| 0 <= j < order@.len() ==> #[trigger] order@[j] < n,
            count == bounded_count(FEED_LIMIT, store@.posts.len()),
            rows@.len() == k,
            forall|j: int| 0 <= j < k ==> (#[trigger] rows@[j])@ == feed_row(store@, listing[j]),
        decreases count - k,
    {
        assert(listing[k as int] == order@[k as int] as int);
        let post = store.posts.row(order[k]);
        let author_reputation = match lookup_reputation(&store.profiles, &post.author) {
            Some(r) => r,
            None => DEFAULT_REPUTATION,
        };
        rows.push(
            FeedPost { post: post.clone(), author_reputation, ranking_score: scores[order[k]] },
        );
        k += 1;
    }
    assert forall|a: int, b: int| 0 <= a < b < rows@.len() implies (
    #[trigger] rows@[a]).ranking_score >= (#[trigger] rows@[b]).ranking_score by {
        assert(outranks(scores@, listing[a], listing[b]));
        assert(rows@[a]@ == feed_row(store@, listing[a]));
        assert(rows@[b]@ == feed_row(store@, listing[b]));
    }
    rows
}

} // verus!
