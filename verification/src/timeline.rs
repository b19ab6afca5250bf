//! The timeline merger: a de-duplicated, time-ordered buffer of fetched posts,
//! and a cursor into the remote timeline.
//!
//! The buffer maps timestamps to posts. Insertion order is irrelevant except
//! that a later insert at an already-present timestamp overwrites the earlier
//! post; iteration order is timestamp order. The buffer grows monotonically:
//! nothing is ever evicted.

use vstd::prelude::*;
use crate::error::FetchError;

verus! {

broadcast use vstd::set::group_set_axioms;

/// How many items one fetch asks for: a fetch returns a single page of at most
/// this many posts.
pub const PAGE_SIZE: i32 = 30;

/// How long the render loop sleeps between polls, in milliseconds.
pub const POLL_INTERVAL_MS: u64 = 5000;

/// One fetched post.
#[derive(Debug)]
pub struct Post {
    /// Creation time, in seconds since the epoch.
    pub timestamp: i64,
    /// The author's handle, without the leading at sign.
    pub handle: Vec<u8>,
    /// The post's text.
    pub text: Vec<u8>,
}

/// Ghost image of a [`Post`].
pub ghost struct PostView {
    pub timestamp: int,
    pub handle: Seq<u8>,
    pub text: Seq<u8>,
}

impl View for Post {
    type V = PostView;

    open spec fn view(&self) -> PostView {
        PostView { timestamp: self.timestamp as int, handle: self.handle@, text: self.text@ }
    }
}

impl Post {
    /// Copies a post.
    pub fn dup(&self) -> (r: Post)
        ensures
            r@ == self@,
    {
        Post {
            timestamp: self.timestamp,
            handle: crate::creds::dup_bytes(&self.handle),
            text: crate::creds::dup_bytes(&self.text),
        }
    }
}

/// The ghost image of a sequence of posts.
pub open spec fn posts_view(s: Seq<Post>) -> Seq<PostView> {
    s.map_values(|p: Post| p@)
}

/// Timestamps strictly increase along the sequence; in particular every
/// timestamp occurs at most once.
pub open spec fn sorted(s: Seq<PostView>) -> bool {
    forall|i: int, j: int| 0 <= i < j < s.len() ==> s[i].timestamp < s[j].timestamp
}

/// The first post of `s` carrying timestamp `ts`, if any.
pub open spec fn seq_get(s: Seq<PostView>, ts: int) -> Option<PostView>
    decreases s.len(),
{
    if s.len() == 0 {
        None
    } else if s[0].timestamp == ts {
        Some(s[0])
    } else {
        seq_get(s.skip(1), ts)
    }
}

/// The set of timestamps occurring in `s`.
pub open spec fn page_stamps(s: Seq<PostView>) -> Set<int> {
    Set::new(|t: int| exists|k: int| 0 <= k < s.len() && s[k].timestamp == t)
}

/// The last post of `page` carrying timestamp `ts`, if any.
pub open spec fn last_with_stamp(page: Seq<PostView>, ts: int) -> Option<PostView>
    decreases page.len(),
{
    if page.len() == 0 {
        None
    } else if page.last().timestamp == ts {
        Some(page.last())
    } else {
        last_with_stamp(page.drop_last(), ts)
    }
}

/// What a buffer holds at timestamp `ts` after a page is merged over a prior
/// entry `prev`: the page's last post with that timestamp wins, else the prior
/// entry stays.
pub open spec fn merged_get(prev: Option<PostView>, page: Seq<PostView>, ts: int) -> Option<
    PostView,
> {
    match last_with_stamp(page, ts) {
        Some(p) => Some(p),
        None => prev,
    }
}

/// `seq_get` finds a post exactly when the timestamp occurs in the sequence.
proof fn lemma_get_some_iff(s: Seq<PostView>)
    ensures
        forall|ts: int| #[trigger] page_stamps(s).contains(ts) <==> seq_get(s, ts) is Some,
    decreases s.len(),
{
    if s.len() == 0 {
        assert forall|ts: int| #[trigger]
            page_stamps(s).contains(ts) <==> seq_get(s, ts) is Some by {
            assert(!page_stamps(s).contains(ts));
        }
    } else {
        let rest = s.skip(1);
        lemma_get_some_iff(rest);
        assert forall|ts: int| #[trigger]
            page_stamps(s).contains(ts) <==> seq_get(s, ts) is Some by {
            if s[0].timestamp == ts {
                assert(0 <= 0 < s.len() && s[0].timestamp == ts);
                assert(page_stamps(s).contains(ts));
            } else {
                assert(seq_get(s, ts) == seq_get(rest, ts));
                assert(page_stamps(rest).contains(ts) <==> seq_get(rest, ts) is Some);
                if page_stamps(s).contains(ts) {
                    let k = choose|k: int| 0 <= k < s.len() && s[k].timestamp == ts;
                    assert(k > 0);
                    assert(rest[k - 1] == s[k]);
                    assert(page_stamps(rest).contains(ts));
                }
                if page_stamps(rest).contains(ts) {
                    let k = choose|k: int| 0 <= k < rest.len() && rest[k].timestamp == ts;
                    assert(s[k + 1] == rest[k]);
                    assert(page_stamps(s).contains(ts));
                }
            }
        }
    }
}

/// Replacing the post at a matched timestamp changes `seq_get` only there.
proof fn lemma_get_update(s: Seq<PostView>, i: int, p: PostView)
    requires
        sorted(s),
        0 <= i < s.len(),
        s[i].timestamp == p.timestamp,
    ensures
        forall|ts: int| #[trigger]
            seq_get(s.update(i, p), ts) == (if ts == p.timestamp {
                Some(p)
            } else {
                seq_get(s, ts)
            }),
    decreases s.len(),
{
    let u = s.update(i, p);
    if i == 0 {
        assert forall|ts: int| #[trigger]
            seq_get(u, ts) == (if ts == p.timestamp {
                Some(p)
            } else {
                seq_get(s, ts)
            }) by {
            if ts != p.timestamp {
                assert(u.skip(1) =~= s.skip(1));
            }
        }
    } else {
        assert(sorted(s.skip(1)));
        assert(s.skip(1)[i - 1] == s[i]);
        lemma_get_update(s.skip(1), i - 1, p);
        assert forall|ts: int| #[trigger]
            seq_get(u, ts) == (if ts == p.timestamp {
                Some(p)
            } else {
                seq_get(s, ts)
            }) by {
            assert(s[0].timestamp < s[i].timestamp);
            assert(u[0] == s[0]);
            if ts == s[0].timestamp {
            } else {
                assert(u.skip(1) =~= s.skip(1).update(i - 1, p));
                assert(seq_get(u, ts) == seq_get(u.skip(1), ts));
            }
        }
    }
}

/// Inserting a post at its sorted position changes `seq_get` only at its
/// timestamp.
proof fn lemma_get_insert(s: Seq<PostView>, i: int, p: PostView)
    requires
        sorted(s),
        0 <= i <= s.len(),
        forall|k: int| 0 <= k < i ==> s[k].timestamp < p.timestamp,
        forall|k: int| i <= k < s.len() ==> s[k].timestamp > p.timestamp,
    ensures
        forall|ts: int| #[trigger]
            seq_get(s.insert(i, p), ts) == (if ts == p.timestamp {
                Some(p)
            } else {
                seq_get(s, ts)
            }),
    decreases s.len(),
{
    let u = s.insert(i, p);
    assert(u.len() == s.len() + 1);
    if i == 0 {
        assert forall|ts: int| #[trigger]
            seq_get(u, ts) == (if ts == p.timestamp {
                Some(p)
            } else {
                seq_get(s, ts)
            }) by {
            assert(u[0] == p);
            if ts != p.timestamp {
                assert(u.skip(1) =~= s);
            }
        }
    } else {
        assert(sorted(s.skip(1)));
        lemma_get_insert(s.skip(1), i - 1, p);
        assert forall|ts: int| #[trigger]
            seq_get(u, ts) == (if ts == p.timestamp {
                Some(p)
            } else {
                seq_get(s, ts)
            }) by {
            assert(u[0] == s[0]);
            assert(s[0].timestamp < p.timestamp);
            if ts == s[0].timestamp {
            } else {
                assert(u.skip(1) =~= s.skip(1).insert(i - 1, p));
                assert(seq_get(u, ts) == seq_get(u.skip(1), ts));
            }
        }
    }
}

/// In a sorted sequence every timestamp occurs once, so the number of distinct
/// timestamps equals the length.
pub proof fn lemma_size_counts_stamps(s: Seq<PostView>)
    requires
        sorted(s),
    ensures
        page_stamps(s).finite(),
        page_stamps(s).len() == s.len(),
    decreases s.len(),
{
    if s.len() == 0 {
        assert(page_stamps(s) =~= Set::<int>::empty());
    } else {
        let rest = s.skip(1);
        assert(sorted(rest));
        lemma_size_counts_stamps(rest);
        assert forall|t: int| #[trigger] page_stamps(s).contains(t) implies page_stamps(
            rest,
        ).insert(s[0].timestamp).contains(t) by {
            let k = choose|k: int| 0 <= k < s.len() && s[k].timestamp == t;
            if k > 0 {
                assert(rest[k - 1].timestamp == t);
            }
        }
        assert forall|t: int| #[trigger]
            page_stamps(rest).insert(s[0].timestamp).contains(t) implies page_stamps(s).contains(
            t,
        ) by {
            if t == s[0].timestamp {
                assert(s[0].timestamp == t);
            } else {
                let k = choose|k: int| 0 <= k < rest.len() && rest[k].timestamp == t;
                assert(s[k + 1].timestamp == t);
            }
        }
        assert(page_stamps(s) =~= page_stamps(rest).insert(s[0].timestamp));
        assert(!page_stamps(rest).contains(s[0].timestamp)) by {
            if page_stamps(rest).contains(s[0].timestamp) {
                let k = choose|k: int|
                    0 <= k < rest.len() && rest[k].timestamp == s[0].timestamp;
                assert(s[k + 1].timestamp == s[0].timestamp);
            }
        }
    }
}

/// Appending one post to a page moves `last_with_stamp` to it at its own
/// timestamp and leaves every other timestamp alone.
proof fn lemma_last_with_stamp_push(s: Seq<PostView>, p: PostView)
    ensures
        forall|ts: int| #[trigger]
            last_with_stamp(s.push(p), ts) == (if p.timestamp == ts {
                Some(p)
            } else {
                last_with_stamp(s, ts)
            }),
{
    assert forall|ts: int| #[trigger]
        last_with_stamp(s.push(p), ts) == (if p.timestamp == ts {
            Some(p)
        } else {
            last_with_stamp(s, ts)
        }) by {
        assert(s.push(p).last() == p);
        assert(s.push(p).drop_last() =~= s);
    }
}

/// A page names a timestamp exactly when its last post with it exists.
pub proof fn lemma_last_with_stamp_some_iff(page: Seq<PostView>)
    ensures
        forall|ts: int|
            (#[trigger] last_with_stamp(page, ts)) is Some <==> page_stamps(page).contains(ts),
    decreases page.len(),
{
    if page.len() == 0 {
        assert forall|ts: int|
            (#[trigger] last_with_stamp(page, ts)) is Some <==> page_stamps(page).contains(
            ts,
        ) by {
            assert(!page_stamps(page).contains(ts));
        }
    } else {
        let rest = page.drop_last();
        lemma_last_with_stamp_some_iff(rest);
        assert forall|ts: int|
            (#[trigger] last_with_stamp(page, ts)) is Some <==> page_stamps(page).contains(
            ts,
        ) by {
            if page.last().timestamp == ts {
                assert(0 <= page.len() - 1 < page.len() && page[page.len() - 1].timestamp == ts);
                assert(page_stamps(page).contains(ts));
            } else {
                assert(last_with_stamp(page, ts) == last_with_stamp(rest, ts));
                if page_stamps(rest).contains(ts) {
                    let k = choose|k: int| 0 <= k < rest.len() && rest[k].timestamp == ts;
                    assert(page[k] == rest[k]);
                    assert(page_stamps(page).contains(ts));
                }
                if page_stamps(page).contains(ts) {
                    let k = choose|k: int| 0 <= k < page.len() && page[k].timestamp == ts;
                    assert(k < page.len() - 1);
                    assert(rest[k] == page[k]);
                    assert(page_stamps(rest).contains(ts));
                }
            }
        }
    }
}

/// The de-duplicated, time-ordered buffer of fetched posts.
#[derive(Debug)]
pub struct PostBuffer {
    posts: Vec<Post>,
}

impl View for PostBuffer {
    type V = Seq<PostView>;

    closed spec fn view(&self) -> Seq<PostView> {
        posts_view(self.posts@)
    }
}

impl PostBuffer {
    /// Timestamps strictly increase along the buffer.
    pub open spec fn wf(self) -> bool {
        sorted(self@)
    }

    /// The post stored at timestamp `ts`, if any.
    pub open spec fn spec_get(self, ts: int) -> Option<PostView> {
        seq_get(self@, ts)
    }

    /// The set of timestamps the buffer holds.
    pub open spec fn stamps(self) -> Set<int> {
        page_stamps(self@)
    }

    /// An empty buffer.
    pub fn new() -> (r: PostBuffer)
        ensures
            r.wf(),
            r@.len() == 0,
    {
        let r = PostBuffer { posts: Vec::new() };
        proof {
            assert(r@ =~= Seq::<PostView>::empty());
        }
        r
    }

    /// The number of posts held.
    pub fn len(&self) -> (r: usize)
        ensures
            r == self@.len(),
    {
        self.posts.len()
    }

    /// The post at position `i` in timestamp order.
    pub fn post_at(&self, i: usize) -> (r: &Post)
        requires
            i < self@.len(),
        ensures
            r@ == self@[i as int],
    {
        &self.posts[i]
    }

    /// Inserts a post keyed by its timestamp; a post already stored at the same
    /// timestamp is silently overwritten.
    pub fn insert(&mut self, p: Post)
        requires
            old(self).wf(),
        ensures
            final(self).wf(),
            forall|ts: int| #[trigger]
                final(self).spec_get(ts) == (if ts == p@.timestamp {
                    Some(p@)
                } else {
                    old(self).spec_get(ts)
                }),
            final(self).stamps() == old(self).stamps().insert(p@.timestamp),
    {
        let ghost s0 = self@;
        let mut i: usize = 0;
        while i < self.posts.len() && self.posts[i].timestamp < p.timestamp
            invariant
                i <= self.posts.len(),
                *self == *old(self),
                forall|k: int| 0 <= k < i ==> self@[k].timestamp < p@.timestamp,
            decreases self.posts.len() - i,
        {
            i = i + 1;
        }
        assert forall|k: int| i <= k < s0.len() implies s0[k].timestamp >= p@.timestamp by {
            assert(s0[i as int] == self.posts@[i as int]@);
            if k > i {
                assert(s0[i as int].timestamp < s0[k].timestamp);
            }
        }
        if i < self.posts.len() && self.posts[i].timestamp == p.timestamp {
            self.posts.remove(i);
            self.posts.insert(i, p);
            proof {
                assert(self@ =~= s0.update(i as int, p@));
                lemma_get_update(s0, i as int, p@);
                assert(sorted(self@));
            }
        } else {
            assert(forall|k: int| i <= k < s0.len() ==> s0[k].timestamp > p@.timestamp);
            self.posts.insert(i, p);
            proof {
                assert(self@ =~= s0.insert(i as int, p@));
                lemma_get_insert(s0, i as int, p@);
                assert forall|a: int, b: int| 0 <= a < b < self@.len() implies self@[a].timestamp
                    < self@[b].timestamp by {
                    if a < i && b > i {
                        assert(self@[a] == s0[a]);
                        assert(self@[b] == s0[b - 1]);
                    }
                }
            }
        }
        proof {
            lemma_get_some_iff(s0);
            lemma_get_some_iff(self@);
            assert forall|t: int|
                page_stamps(self@).contains(t) <==> page_stamps(s0).insert(p@.timestamp).contains(
                t,
            ) by {
                assert(page_stamps(self@).contains(t) <==> seq_get(self@, t) is Some);
                assert(page_stamps(s0).contains(t) <==> seq_get(s0, t) is Some);
                assert(seq_get(self@, t) == (if t == p@.timestamp {
                    Some(p@)
                } else {
                    seq_get(s0, t)
                }));
            }
            assert(self.stamps() =~= old(self).stamps().insert(p@.timestamp));
        }
    }

    /// Merges one fetched page: each post is inserted keyed by its timestamp,
    /// in page order, so for a shared timestamp the post standing later in the
    /// page wins. Merging into an empty buffer yields one post per distinct
    /// timestamp fetched.
    pub fn merge(&mut self, page: &Vec<Post>)
        requires
            old(self).wf(),
        ensures
            final(self).wf(),
            forall|ts: int| #[trigger]
                final(self).spec_get(ts) == merged_get(
                    old(self).spec_get(ts),
                    posts_view(page@),
                    ts,
                ),
            final(self).stamps() == old(self).stamps() + page_stamps(posts_view(page@)),
            old(self)@.len() == 0 ==> final(self)@.len() == page_stamps(posts_view(page@)).len(),
    {
        let ghost pv = posts_view(page@);
        let mut i: usize = 0;
        while i < page.len()
            invariant
                i <= page.len(),
                pv == posts_view(page@),
                self.wf(),
                forall|ts: int| #[trigger]
                    self.spec_get(ts) == merged_get(
                        old(self).spec_get(ts),
                        pv.take(i as int),
                        ts,
                    ),
                self.stamps() == old(self).stamps() + page_stamps(pv.take(i as int)),
            decreases page.len() - i,
        {
            let ghost done = pv.take(i as int);
            let p = page[i].dup();
            assert(p@ == pv[i as int]);
            self.insert(p);
            proof {
                assert(pv.take(i as int + 1) =~= done.push(pv[i as int]));
                lemma_last_with_stamp_push(done, pv[i as int]);
                assert forall|t: int| #[trigger]
                    page_stamps(done.push(pv[i as int])).contains(t) <==> page_stamps(
                    done,
                ).insert(pv[i as int].timestamp).contains(t) by {
                    let u = done.push(pv[i as int]);
                    if page_stamps(u).contains(t) {
                        let k = choose|k: int| 0 <= k < u.len() && u[k].timestamp == t;
                        if k < done.len() {
                            assert(done[k].timestamp == t);
                        }
                    }
                    if page_stamps(done).contains(t) {
                        let k = choose|k: int| 0 <= k < done.len() && done[k].timestamp == t;
                        assert(u[k].timestamp == t);
                    }
                    if t == pv[i as int].timestamp {
                        assert(u[done.len() as int].timestamp == t);
                    }
                }
                assert(page_stamps(done.push(pv[i as int])) =~= page_stamps(done).insert(
                    pv[i as int].timestamp,
                ));
                assert(self.stamps() =~= old(self).stamps() + page_stamps(
                    pv.take(i as int + 1),
                ));
            }
            i = i + 1;
        }
        proof {
            assert(pv.take(page.len() as int) =~= pv);
            if old(self)@.len() == 0 {
                assert(old(self).stamps() =~= Set::<int>::empty());
                assert(self.stamps() =~= page_stamps(pv));
                lemma_size_counts_stamps(self@);
            }
        }
    }

    /// The posts in reverse timestamp order, newest first.
    pub fn rev_posts(&self) -> (r: Vec<Post>)
        ensures
            posts_view(r@) == self@.reverse(),
    {
        let mut r: Vec<Post> = Vec::new();
        let mut k: usize = 0;
        while k < self.posts.len()
            invariant
                k <= self.posts.len(),
                posts_view(r@) =~= self@.reverse().take(k as int),
            decreases self.posts.len() - k,
        {
            let p = self.posts[self.posts.len() - 1 - k].dup();
            proof {
                assert(p@ == self@[self@.len() - 1 - k as int]);
                assert(self@.reverse()[k as int] == self@[self@.len() - 1 - k as int]);
            }
            let ghost r0 = r@;
            r.push(p);
            proof {
                let rev = self@.reverse();
                assert(posts_view(r0).len() == r0.len());
                assert(r0.len() == k as int);
                assert(r@ == r0.push(p));
                assert(r@.len() == k as int + 1);
                assert forall|j: int| 0 <= j < k as int + 1 implies posts_view(r@)[j] == rev.take(
                    k as int + 1,
                )[j] by {
                    if j < k as int {
                        assert(r@[j] == r0[j]);
                        assert(posts_view(r0)[j] == rev.take(k as int)[j]);
                    } else {
                        assert(posts_view(r@)[j] == r@[j]@);
                        assert(r@[j]@ == rev[k as int]);
                    }
                }
                assert(posts_view(r@) =~= self@.reverse().take(k as int + 1));
            }
            k = k + 1;
        }
        proof {
            assert(posts_view(r@) =~= self@.reverse());
        }
        r
    }
}

/// Law: merging a later page over an earlier one, for any timestamp the later
/// page names, yields the later page's last post with that timestamp — the
/// later-inserted post wins.
pub proof fn lemma_later_page_wins(
    prev: Option<PostView>,
    p1: Seq<PostView>,
    p2: Seq<PostView>,
    ts: int,
)
    requires
        page_stamps(p2).contains(ts),
    ensures
        merged_get(merged_get(prev, p1, ts), p2, ts) == last_with_stamp(p2, ts),
        last_with_stamp(p2, ts) is Some,
{
    lemma_last_with_stamp_some_iff(p2);
}

/// Law: a well-formed buffer read in reverse timestamp order presents strictly
/// decreasing — in particular non-increasing — timestamps.
pub proof fn lemma_reverse_stamps_decrease(b: PostBuffer)
    requires
        b.wf(),
    ensures
        forall|i: int, j: int|
            0 <= i < j < b@.len() ==> b@.reverse()[i].timestamp > b@.reverse()[j].timestamp,
        forall|i: int, j: int|
            0 <= i < j < b@.len() ==> b@.reverse()[i].timestamp >= b@.reverse()[j].timestamp,
{
    assert forall|i: int, j: int| 0 <= i < j < b@.len() implies b@.reverse()[i].timestamp
        > b@.reverse()[j].timestamp by {
        assert(b@.reverse()[i] == b@[b@.len() - 1 - i]);
        assert(b@.reverse()[j] == b@[b@.len() - 1 - j]);
    }
}

/// One fetched page: the cursor the fetch returned, and the posts newer than
/// the cursor it replaced.
#[derive(Debug)]
pub struct Page {
    /// The remote position to fetch newer items than, next time.
    pub cursor: Option<u64>,
    /// The fetched posts.
    pub posts: Vec<Post>,
}

/// Owns the cursor into the remote timeline and the merged post buffer.
#[derive(Debug)]
pub struct TimelineMerger {
    /// The remote position reached by the last successful fetch.
    pub cursor: Option<u64>,
    /// All posts fetched so far, keyed by timestamp.
    pub buffer: PostBuffer,
}

impl TimelineMerger {
    /// A merger with a fresh cursor and an empty buffer.
    pub fn new() -> (r: TimelineMerger)
        ensures
            r.cursor is None,
            r.buffer.wf(),
            r.buffer@.len() == 0,
    {
        TimelineMerger { cursor: None, buffer: PostBuffer::new() }
    }

    /// Consumes the merger and returns the updated one: on a successful fetch
    /// the cursor is replaced wholesale by the fetched one and every fetched
    /// post is merged into the buffer; a transport error is handed back
    /// unchanged and aborts the poll loop upstream.
    pub fn update(self, fetch: Result<Page, FetchError>) -> (r: Result<TimelineMerger, FetchError>)
        requires
            self.buffer.wf(),
        ensures
            match fetch {
                Ok(page) => {
                    &&& r is Ok
                    &&& r->Ok_0.cursor == page.cursor
                    &&& r->Ok_0.buffer.wf()
                    &&& forall|ts: int| #[trigger]
                        r->Ok_0.buffer.spec_get(ts) == merged_get(
                            self.buffer.spec_get(ts),
                            posts_view(page.posts@),
                            ts,
                        )
                    &&& r->Ok_0.buffer.stamps() == self.buffer.stamps() + page_stamps(
                        posts_view(page.posts@),
                    )
                },
                Err(e) => r == Err::<TimelineMerger, FetchError>(e),
            },
    {
        match fetch {
            Ok(page) => {
                let mut buffer = self.buffer;
                buffer.merge(&page.posts);
                Ok(TimelineMerger { cursor: page.cursor, buffer })
            },
            Err(e) => Err(e),
        }
    }
}

} // verus!
