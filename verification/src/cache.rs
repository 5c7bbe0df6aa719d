//! The channels that were built lately.

use crate::channel::{all_stampable, build_channel, channel_of, Channel, ChannelView};
use crate::dates::{present_stamp, time_of_the_clock};
use crate::openalex::Work;
use crate::request::{key_of, CacheKey, CacheKeyView, FeedRequest, FeedRequestView};
use crate::text::same_texts;
use vstd::prelude::*;

verus! {

/// After how many seconds the cache is cleared.
pub const CACHE_SECONDS: u64 = 3600;

/// The channels of the requests that were served lately.
pub struct ChannelCache {
    entries: Vec<(FeedRequest, Channel)>,
}

/// The channels of a cache by their requests.
pub type Cached = Map<FeedRequestView, ChannelView>;

/// Whether `channel` is cached under a request with the key `key`.
pub open spec fn served_under(cached: Cached, key: CacheKeyView, channel: ChannelView) -> bool {
    exists|request: FeedRequestView| #[trigger]
        cached.contains_key(request) && key_of(request) == key && cached[request] == channel
}

/// Whether a request with the key `key` is cached.
pub open spec fn key_cached(cached: Cached, key: CacheKeyView) -> bool {
    exists|request: FeedRequestView| #[trigger]
        cached.contains_key(request) && key_of(request) == key
}

/// Whether no two requests that are cached have the same key.
pub open spec fn keys_distinct(cached: Cached) -> bool {
    forall|a: FeedRequestView, b: FeedRequestView| #[trigger]
        cached.contains_key(a) && #[trigger] cached.contains_key(b) && key_of(a) == key_of(b)
            ==> a == b
}

/// The place of a request among the entries of a cache.
pub closed spec fn stands_at(entries: Seq<(FeedRequest, Channel)>, request: FeedRequestView, i: int) -> bool {
    0 <= i < entries.len() && entries[i].0.deep_view() == request
}

impl View for ChannelCache {
    type V = Cached;

    closed spec fn view(&self) -> Cached {
        Map::new(
            |request: FeedRequestView| exists|i: int| stands_at(self.entries@, request, i),
            |request: FeedRequestView|
                self.entries@[choose|i: int| stands_at(self.entries@, request, i)].1.deep_view(),
        )
    }
}

impl ChannelCache {
    /// No request stands in the cache twice.
    #[verifier::type_invariant]
    spec fn wf(&self) -> bool {
        forall|i: int, j: int|
            0 <= i < j < self.entries@.len() ==> (#[trigger] self.entries@[i]).0.deep_view() != (
            #[trigger] self.entries@[j]).0.deep_view()
    }

    /// What a cache holds under the request of one of its entries.
    proof fn lemma_entry(&self, i: int)
        requires
            self.wf(),
            0 <= i < self.entries@.len(),
        ensures
            self@.contains_key(self.entries@[i].0.deep_view()),
            self@[self.entries@[i].0.deep_view()] == self.entries@[i].1.deep_view(),
    {
        let request = self.entries@[i].0.deep_view();
        assert(stands_at(self.entries@, request, i));
        let k = choose|k: int| stands_at(self.entries@, request, k);
        assert(k == i);
    }

    /// An empty cache.
    pub fn new() -> (res: ChannelCache)
        ensures
            res@ == Cached::empty(),
    {
        let res = ChannelCache { entries: Vec::new() };
        assert(res@ =~= Cached::empty());
        res
    }

    /// Forgets all channels.
    pub fn clear(&mut self)
        ensures
            final(self)@ == Cached::empty(),
    {
        self.entries = Vec::new();
        assert(self@ =~= Cached::empty());
    }

    /// A channel that is cached under a request with the key `key`, if there is one.
    pub fn find_cached(&self, key: &CacheKey) -> (res: Option<Channel>)
        ensures
            match res {
                Some(channel) => served_under(self@, key.deep_view(), channel.deep_view()),
                None => !key_cached(self@, key.deep_view()),
            },
    {
        proof {
            use_type_invariant(self);
        }
        let mut i: usize = 0;
        while i < self.entries.len()
            invariant
                self.wf(),
                i <= self.entries@.len(),
                forall|j: int|
                    0 <= j < i ==> key_of((#[trigger] self.entries@[j]).0.deep_view())
                        != key.deep_view(),
            decreases self.entries@.len() - i,
        {
            if same_key(&self.entries[i].0.cache_key(), key) {
                proof {
                    self.lemma_entry(i as int);
                }
                return Some(self.entries[i].1.clone());
            }
            i = i + 1;
        }
        None
    }

    /// The channel to answer `request` with, if it needs not be built.
    pub fn channel_if_cached(&self, request: &FeedRequest) -> (res: Option<Channel>)
        ensures
            match res {
                Some(channel) => served_under(
                    self@,
                    key_of(request.deep_view()),
                    channel.deep_view(),
                ),
                None => !key_cached(self@, key_of(request.deep_view())),
            },
    {
        self.find_cached(&request.cache_key())
    }

    /// The channel to answer `request` with, built now of `works` and cached; none, and nothing
    /// cached, where the date of a work cannot be written as a timestamp.
    pub fn build_and_cache(&mut self, request: FeedRequest, works: &Vec<Work>) -> (res: Option<
        Channel,
    >)
        ensures
            res is Some <==> all_stampable(works@),
            match res {
                Some(channel) => {
                    &&& final(self)@ == old(self)@.insert(request.deep_view(), channel.deep_view())
                    &&& exists|now: Seq<char>|
                        time_of_the_clock(now) && present_stamp(now) && channel.deep_view() == #[trigger] channel_of(
                            request.deep_view(),
                            works@,
                            now,
                        )
                },
                None => final(self)@ == old(self)@,
            },
    {
        let channel: Channel = build_channel(&request, works)?;
        self.insert(request, channel.clone());
        Some(channel)
    }

    /// Caches the channel that was built for `request`.
    pub fn insert(&mut self, request: FeedRequest, channel: Channel)
        ensures
            final(self)@ == old(self)@.insert(request.deep_view(), channel.deep_view()),
    {
        proof {
            use_type_invariant(&*self);
        }
        let ghost before = *self;
        let ghost goal = self@.insert(request.deep_view(), channel.deep_view());
        let mut entries: Vec<(FeedRequest, Channel)> = Vec::new();
        std::mem::swap(&mut entries, &mut self.entries);
        let mut i: usize = 0;
        while i < entries.len() && !same_request(&entries[i].0, &request)
            invariant
                entries@ == before.entries@,
                i <= entries@.len(),
                forall|j: int|
                    0 <= j < i ==> (#[trigger] entries@[j]).0.deep_view() != request.deep_view(),
            decreases entries@.len() - i,
        {
            i = i + 1;
        }
        if i < entries.len() {
            entries[i] = (request, channel);
        } else {
            entries.push((request, channel));
        }
        let ghost after = entries@;
        let ghost from = before.entries@;
        assert(after[i as int] == (request, channel));
        assert(forall|j: int|
            0 <= j < after.len() && j != i ==> after[j] == #[trigger] from[j]);
        assert forall|a: int, b: int| 0 <= a < b < after.len() implies (
        #[trigger] after[a]).0.deep_view() != (#[trigger] after[b]).0.deep_view() by {
            if a != i && b != i {
                assert(after[a] == from[a] && after[b] == from[b]);
            } else if a != i {
                assert(after[a] == from[a]);
                if i < from.len() {
                    assert(from[i as int].0.deep_view() == request.deep_view());
                }
            } else {
                assert(after[b] == from[b]);
                assert(from[i as int].0.deep_view() == request.deep_view());
            }
        }
        self.entries = entries;
        proof {
            assert forall|r: FeedRequestView| self@.contains_key(r) == goal.contains_key(r) by {
                if self@.contains_key(r) && r != request.deep_view() {
                    let k = choose|k: int| stands_at(after, r, k);
                    assert(after[k] == from[k]);
                    assert(stands_at(from, r, k));
                }
                if before@.contains_key(r) && r != request.deep_view() {
                    let k = choose|k: int| stands_at(from, r, k);
                    assert(after[k] == from[k]);
                    assert(stands_at(after, r, k));
                }
                if r == request.deep_view() {
                    assert(stands_at(after, r, i as int));
                }
            }
            assert forall|r: FeedRequestView| self@.contains_key(r) implies self@[r] == goal[r] by {
                if r == request.deep_view() {
                    self.lemma_entry(i as int);
                } else {
                    let k = choose|k: int| stands_at(after, r, k);
                    assert(after[k] == from[k]);
                    self.lemma_entry(k);
                    before.lemma_entry(k);
                }
            }
            assert(self@ =~= goal);
        }
    }
}

/// Whether two keys are the same.
fn same_key(a: &CacheKey, b: &CacheKey) -> (res: bool)
    ensures
        res == (a.deep_view() == b.deep_view()),
{
    same_texts(&a.0, &b.0) && same_texts(&a.1, &b.1) && a.2 == b.2 && same_texts(&a.3, &b.3)
}

/// Whether two requests are the same, title and all.
fn same_request(a: &FeedRequest, b: &FeedRequest) -> (res: bool)
    ensures
        res == (a.deep_view() == b.deep_view()),
{
    let same_title: bool = match (&a.title, &b.title) {
        (Some(x), Some(y)) => *x == *y,
        (None, None) => true,
        _ => false,
    };
    same_title && same_key(&a.cache_key(), &b.cache_key())
}

/// Whether a cache that was last cleared `elapsed` seconds ago is to be cleared, so that feeds
/// refresh and the cache doesn't grow unbounded.
pub fn is_stale(elapsed: u64) -> (res: bool)
    ensures
        res == (elapsed >= CACHE_SECONDS),
{
    elapsed >= CACHE_SECONDS
}

/// What was just cached is served under its key, and only that, where the key was not cached
/// before.
pub proof fn cached_channel_is_served(
    cached: Cached,
    request: FeedRequestView,
    channel: ChannelView,
    served: ChannelView,
)
    requires
        !key_cached(cached, key_of(request)),
    ensures
        served_under(cached.insert(request, channel), key_of(request), served) <==> served
            == channel,
{
    let after = cached.insert(request, channel);
    assert(after.contains_key(request));
    if served_under(after, key_of(request), served) {
        let r = choose|r: FeedRequestView| #[trigger]
            after.contains_key(r) && key_of(r) == key_of(request) && after[r] == served;
        if r != request {
            assert(cached.contains_key(r));
        }
    }
}

/// Caching a channel changes nothing for other keys.
pub proof fn other_keys_are_unaffected(
    cached: Cached,
    request: FeedRequestView,
    channel: ChannelView,
    key: CacheKeyView,
    served: ChannelView,
)
    requires
        key != key_of(request),
    ensures
        served_under(cached.insert(request, channel), key, served) <==> served_under(
            cached,
            key,
            served,
        ),
        key_cached(cached.insert(request, channel), key) <==> key_cached(cached, key),
{
    let after = cached.insert(request, channel);
    assert forall|r: FeedRequestView| r != request implies (#[trigger] after.contains_key(r)
        <==> cached.contains_key(r)) by {}
    if served_under(cached, key, served) {
        let r = choose|r: FeedRequestView| #[trigger]
            cached.contains_key(r) && key_of(r) == key && cached[r] == served;
        assert(after.contains_key(r));
    }
    if key_cached(cached, key) {
        let r = choose|r: FeedRequestView| #[trigger]
            cached.contains_key(r) && key_of(r) == key;
        assert(after.contains_key(r));
    }
    if served_under(after, key, served) {
        let r = choose|r: FeedRequestView| #[trigger]
            after.contains_key(r) && key_of(r) == key && after[r] == served;
        assert(cached.contains_key(r));
    }
    if key_cached(after, key) {
        let r = choose|r: FeedRequestView| #[trigger]
            after.contains_key(r) && key_of(r) == key;
        assert(cached.contains_key(r));
    }
}

/// As long as channels are built only for keys that are not cached, every key has one channel
/// at most.
pub proof fn keys_stay_distinct(cached: Cached, request: FeedRequestView, channel: ChannelView)
    requires
        keys_distinct(cached),
        !key_cached(cached, key_of(request)),
    ensures
        keys_distinct(cached.insert(request, channel)),
{
    let after = cached.insert(request, channel);
    assert forall|a: FeedRequestView, b: FeedRequestView| #[trigger]
        after.contains_key(a) && #[trigger] after.contains_key(b) && key_of(a) == key_of(
            b,
        ) implies a == b by {
        if a != request {
            assert(cached.contains_key(a));
        }
        if b != request {
            assert(cached.contains_key(b));
        }
    }
}

/// The request with the authors, journals, earliest date and topics of `key`, and a title.
pub open spec fn request_with(key: CacheKeyView, title: Option<Seq<char>>) -> FeedRequestView {
    FeedRequestView {
        author_ids: key.0,
        source_ids: key.1,
        from: key.2,
        topics: key.3,
        title,
    }
}

/// A channel is served under a key exactly where it is cached under a request with just these
/// authors, journals, earliest date and topics, whatever its title; and the cache is cleared every
/// hour.
pub proof fn channels_are_served_by_all_but_the_title(
    cached: Cached,
    key: CacheKeyView,
    channel: ChannelView,
)
    ensures
        served_under(cached, key, channel) <==> exists|title: Option<Seq<char>>|
            cached.contains_key(#[trigger] request_with(key, title)) && cached[request_with(
                key,
                title,
            )] == channel,
        key_cached(cached, key) <==> exists|title: Option<Seq<char>>|
            cached.contains_key(#[trigger] request_with(key, title)),
        CACHE_SECONDS == 60 * 60,
{
    if served_under(cached, key, channel) {
        let r = choose|r: FeedRequestView| #[trigger]
            cached.contains_key(r) && key_of(r) == key && cached[r] == channel;
        assert(r == request_with(key, r.title));
    }
    if key_cached(cached, key) {
        let r = choose|r: FeedRequestView| #[trigger] cached.contains_key(r) && key_of(r) == key;
        assert(r == request_with(key, r.title));
    }
}

} // verus!
