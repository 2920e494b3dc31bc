//! The stream engine: produces at most one encoded frame per tick and
//! subscription, deduplicated two ways.
//!
//! Per peer, a frame whose pixel hash equals the last one sent to that
//! peer for that identifier is skipped. Across peers, encoded frames
//! are cached by `(options, pixel hash)`, so the same frame is encoded
//! once however many peers watch it; the cache evicts its
//! least-recently-used entries to keep at most `CACHE_CAP` payload
//! bytes.
//!
//! The engine decides; the caller performs the outside work. One tick
//! for one subscription is: read the pixels, call `begin_tick`; on
//! `Encode`, run the JPEG encoder and hand the result to
//! `finish_encode`; enqueue any payload handed back, and call
//! `mark_sent` once the packet was accepted for sending.

use vstd::prelude::*;
use crate::hashing::{seahash_of, content_hash};
use crate::state::{StreamKey, StreamOptions, Subscription};

verus! {

/// Aggregate payload bytes the encode cache may hold.
pub const CACHE_CAP: usize = 2097152;

/// One captured frame: RGB pixels, row-major, three bytes per pixel.
pub struct TextureFrame {
    pub pixels: Vec<u8>,
    pub width: u32,
    pub height: u32,
}

impl TextureFrame {
    /// The pixel buffer is exactly one RGB byte triple per pixel.
    pub open spec fn wf(self) -> bool {
        self.pixels@.len() == self.width * self.height * 3
    }
}

/// One cached encoded frame.
struct CacheEntry {
    options: StreamOptions,
    hash: u64,
    payload: Vec<u8>,
}

/// The mathematical value of a cache entry.
pub struct CacheEntryModel {
    pub options: StreamOptions,
    pub hash: u64,
    pub payload: Seq<u8>,
}

impl View for CacheEntry {
    type V = CacheEntryModel;

    closed spec fn view(&self) -> CacheEntryModel {
        CacheEntryModel { options: self.options, hash: self.hash, payload: self.payload@ }
    }
}

/// The cache key of the `i`th entry.
pub open spec fn cache_key_at(s: Seq<CacheEntryModel>, i: int) -> (StreamOptions, u64) {
    (s[i].options, s[i].hash)
}

/// Whether some entry carries key `k`.
pub open spec fn cache_has(s: Seq<CacheEntryModel>, k: (StreamOptions, u64)) -> bool {
    exists|i: int| 0 <= i < s.len() && cache_key_at(s, i) == k
}

/// Cache keys are pairwise distinct.
pub open spec fn cache_keys_unique(s: Seq<CacheEntryModel>) -> bool {
    forall|i: int, j: int| 0 <= i < j < s.len() ==> cache_key_at(s, i) != cache_key_at(s, j)
}

/// The index of the entry carrying key `k`.
pub open spec fn cache_index_of(s: Seq<CacheEntryModel>, k: (StreamOptions, u64)) -> int {
    choose|i: int| 0 <= i < s.len() && cache_key_at(s, i) == k
}

/// The payload cached under key `k`.
pub open spec fn cache_lookup(s: Seq<CacheEntryModel>, k: (StreamOptions, u64)) -> Seq<u8> {
    s[cache_index_of(s, k)].payload
}

/// The aggregate payload size of the cache.
pub open spec fn cache_total(s: Seq<CacheEntryModel>) -> nat
    decreases s.len(),
{
    if s.len() == 0 {
        0
    } else {
        s[0].payload.len() + cache_total(s.drop_first())
    }
}

/// Marking the entry under `k` most recently used: it moves to the
/// back, everything else keeps its order.
pub open spec fn cache_bump(s: Seq<CacheEntryModel>, k: (StreamOptions, u64)) -> Seq<
    CacheEntryModel,
> {
    if cache_has(s, k) {
        let i = cache_index_of(s, k);
        s.remove(i).push(s[i])
    } else {
        s
    }
}

/// A cache hit only refreshes recency: the bumped cache carries
/// exactly the same keys with exactly the same payloads, so entries
/// keep serving every subscriber while they stay cached.
pub proof fn lemma_bump_keeps_entries(
    s: Seq<CacheEntryModel>,
    k: (StreamOptions, u64),
    q: (StreamOptions, u64),
)
    requires
        cache_keys_unique(s),
    ensures
        cache_keys_unique(cache_bump(s, k)),
        cache_has(cache_bump(s, k), q) == cache_has(s, q),
        cache_has(s, q) ==> cache_lookup(cache_bump(s, k), q) == cache_lookup(s, q),
{
    if cache_has(s, k) {
        let i = cache_index_of(s, k);
        assert(0 <= i < s.len() && cache_key_at(s, i) == k);
        let t = s.remove(i).push(s[i]);
        let last = t.len() - 1;
        // Where each position of the bumped cache came from.
        let from = |w: int|
            if w < i {
                w
            } else if w < last {
                w + 1
            } else {
                i
            };
        assert(forall|w: int| 0 <= w < t.len() ==> t[w] == s[from(w)]);
        assert forall|u: int, v: int| 0 <= u < v < t.len() implies cache_key_at(t, u)
            != cache_key_at(t, v) by {
            let u0 = from(u);
            let v0 = from(v);
            assert(cache_key_at(t, u) == cache_key_at(s, u0));
            assert(cache_key_at(t, v) == cache_key_at(s, v0));
            if u0 < v0 {
                assert(cache_key_at(s, u0) != cache_key_at(s, v0));
            } else {
                assert(cache_key_at(s, v0) != cache_key_at(s, u0));
            }
        }
        assert forall|p: (StreamOptions, u64)| #[trigger] cache_has(t, p) == cache_has(s, p) by {
            if cache_has(t, p) {
                let w = choose|w: int| 0 <= w < t.len() && cache_key_at(t, w) == p;
                assert(cache_key_at(s, from(w)) == p);
            }
            if cache_has(s, p) {
                let w = choose|w: int| 0 <= w < s.len() && cache_key_at(s, w) == p;
                if w < i {
                    assert(cache_key_at(t, w) == p);
                } else if w == i {
                    assert(cache_key_at(t, last) == p);
                } else {
                    assert(cache_key_at(t, w - 1) == p);
                }
            }
        }
        if cache_has(s, q) {
            assert(cache_has(t, q));
            let w = cache_index_of(t, q);
            assert(0 <= w < t.len() && cache_key_at(t, w) == q);
            assert(cache_key_at(s, from(w)) == q);
            lemma_cache_index(s, from(w));
            assert(t[w] == s[from(w)]);
        }
    }
}

/// Evicting from the least recently used end until `need` more bytes
/// fit under the cap.
pub open spec fn cache_evict(s: Seq<CacheEntryModel>, need: nat) -> Seq<CacheEntryModel>
    decreases s.len(),
{
    if cache_total(s) + need <= CACHE_CAP {
        s
    } else if s.len() == 0 {
        s
    } else {
        cache_evict(s.drop_first(), need)
    }
}

/// The cache after storing `payload` under a fresh key: evict until it
/// fits, then append as most recently used.
pub open spec fn cache_insert(
    s: Seq<CacheEntryModel>,
    options: StreamOptions,
    hash: u64,
    payload: Seq<u8>,
) -> Seq<CacheEntryModel> {
    cache_evict(s, payload.len()).push(CacheEntryModel { options, hash, payload })
}

/// Removing any entry takes exactly its payload out of the total.
proof fn lemma_total_remove(s: Seq<CacheEntryModel>, i: int)
    requires
        0 <= i < s.len(),
    ensures
        cache_total(s) == cache_total(s.remove(i)) + s[i].payload.len(),
    decreases s.len(),
{
    if i == 0 {
        assert(s.remove(0) =~= s.drop_first());
    } else {
        assert(s.remove(i).drop_first() =~= s.drop_first().remove(i - 1));
        lemma_total_remove(s.drop_first(), i - 1);
    }
}

/// Appending an entry adds exactly its payload to the total.
proof fn lemma_total_push(s: Seq<CacheEntryModel>, e: CacheEntryModel)
    ensures
        cache_total(s.push(e)) == cache_total(s) + e.payload.len(),
    decreases s.len(),
{
    reveal_with_fuel(cache_total, 2);
    if s.len() == 0 {
        assert(s.push(e)[0] == e);
        assert(s.push(e).drop_first() =~= Seq::<CacheEntryModel>::empty());
        assert(cache_total(Seq::<CacheEntryModel>::empty()) == 0);
    } else {
        assert(s.push(e)[0] == s[0]);
        assert(s.push(e).drop_first() =~= s.drop_first().push(e));
        lemma_total_push(s.drop_first(), e);
    }
}

/// With pairwise-distinct cache keys, the chosen index of the `w`th
/// entry's key is `w` itself.
proof fn lemma_cache_index(s: Seq<CacheEntryModel>, w: int)
    requires
        cache_keys_unique(s),
        0 <= w < s.len(),
    ensures
        cache_has(s, cache_key_at(s, w)),
        cache_index_of(s, cache_key_at(s, w)) == w,
{
    let q = cache_key_at(s, w);
    assert(cache_has(s, q));
    let c = cache_index_of(s, q);
    if c != w {
        if c < w {
            assert(cache_key_at(s, c) != cache_key_at(s, w));
        } else {
            assert(cache_key_at(s, w) != cache_key_at(s, c));
        }
    }
}

/// Eviction keeps a suffix: keys stay pairwise distinct, the total
/// only shrinks, and every surviving entry was there before.
proof fn lemma_evict_keeps(s: Seq<CacheEntryModel>, need: nat)
    requires
        cache_keys_unique(s),
    ensures
        cache_keys_unique(cache_evict(s, need)),
        cache_total(cache_evict(s, need)) <= cache_total(s),
        need <= CACHE_CAP ==> cache_total(cache_evict(s, need)) + need <= CACHE_CAP,
    decreases s.len(),
{
    if cache_total(s) + need <= CACHE_CAP {
    } else if s.len() == 0 {
    } else {
        assert(forall|i: int|
            0 <= i < s.drop_first().len() ==> cache_key_at(s.drop_first(), i) == cache_key_at(
                s,
                i + 1,
            ));
        lemma_evict_keeps(s.drop_first(), need);
    }
}

/// What the engine asks of its caller for one subscription's tick.
pub enum TickStep {
    /// Nothing to do: no pixels, or the peer already has this frame.
    Skip,
    /// The frame was already encoded for these options: enqueue this
    /// payload, then report the enqueue with `mark_sent`.
    Send { payload: Vec<u8>, hash: u64 },
    /// A new frame: encode the pixels at this quality and hand the
    /// result to `finish_encode`.
    Encode { quality: u16, hash: u64 },
}

/// Whether the per-peer dedup fires: the last frame sent to `k` had
/// exactly this hash.
pub open spec fn dedup_hit(ls: Map<(u64, Seq<char>), u64>, k: (u64, Seq<char>), h: u64) -> bool {
    ls.dom().contains(k) && ls[k] == h
}

/// One last-sent record: the hash most recently enqueued for a peer
/// and identifier.
struct SentEntry {
    key: StreamKey,
    hash: u64,
}

/// The key of the `i`th last-sent record.
spec fn sent_key_at(s: Seq<SentEntry>, i: int) -> (u64, Seq<char>) {
    s[i].key@
}

/// Whether some last-sent record carries key `k`.
spec fn sent_has_key(s: Seq<SentEntry>, k: (u64, Seq<char>)) -> bool {
    exists|i: int| 0 <= i < s.len() && sent_key_at(s, i) == k
}

/// Last-sent keys are pairwise distinct.
spec fn sent_keys_unique(s: Seq<SentEntry>) -> bool {
    forall|i: int, j: int| 0 <= i < j < s.len() ==> sent_key_at(s, i) != sent_key_at(s, j)
}

/// The index of the last-sent record carrying key `k`.
spec fn sent_index_of(s: Seq<SentEntry>, k: (u64, Seq<char>)) -> int {
    choose|i: int| 0 <= i < s.len() && sent_key_at(s, i) == k
}

/// The map a sequence of last-sent records stands for.
spec fn sent_view(s: Seq<SentEntry>) -> Map<(u64, Seq<char>), u64> {
    Map::new(
        |k: (u64, Seq<char>)| sent_has_key(s, k),
        |k: (u64, Seq<char>)| s[sent_index_of(s, k)].hash,
    )
}

/// With pairwise-distinct keys, the chosen index of the `w`th record's
/// key is `w` itself.
proof fn lemma_sent_index(s: Seq<SentEntry>, w: int)
    requires
        sent_keys_unique(s),
        0 <= w < s.len(),
    ensures
        sent_has_key(s, sent_key_at(s, w)),
        sent_index_of(s, sent_key_at(s, w)) == w,
{
    let q = sent_key_at(s, w);
    assert(sent_has_key(s, q));
    let c = sent_index_of(s, q);
    if c != w {
        if c < w {
            assert(sent_key_at(s, c) != sent_key_at(s, w));
        } else {
            assert(sent_key_at(s, w) != sent_key_at(s, c));
        }
    }
}

/// Appending a record with a fresh key inserts it into the map view.
proof fn lemma_sent_view_push(s: Seq<SentEntry>, e: SentEntry)
    requires
        sent_keys_unique(s),
        !sent_has_key(s, e.key@),
    ensures
        sent_keys_unique(s.push(e)),
        sent_view(s.push(e)) == sent_view(s).insert(e.key@, e.hash),
{
    let t = s.push(e);
    let k = e.key@;
    let n = s.len() as int;
    assert(sent_key_at(t, n) == k);
    assert forall|i: int, j: int| 0 <= i < j < t.len() implies sent_key_at(t, i) != sent_key_at(
        t,
        j,
    ) by {
        if j < n {
            assert(sent_key_at(t, i) == sent_key_at(s, i));
            assert(sent_key_at(t, j) == sent_key_at(s, j));
        } else {
            assert(sent_key_at(t, i) == sent_key_at(s, i));
        }
    }
    assert forall|q: (u64, Seq<char>)| #[trigger] sent_has_key(t, q) == (sent_has_key(s, q) || q
        == k) by {
        if sent_has_key(t, q) {
            let w = choose|w: int| 0 <= w < t.len() && sent_key_at(t, w) == q;
            if w < n {
                assert(sent_key_at(s, w) == q);
            }
        }
        if sent_has_key(s, q) {
            let w = choose|w: int| 0 <= w < s.len() && sent_key_at(s, w) == q;
            assert(sent_key_at(t, w) == q);
        }
    }
    assert forall|q: (u64, Seq<char>)| sent_has_key(t, q) implies t[sent_index_of(t, q)].hash
        == sent_view(s).insert(k, e.hash)[q] by {
        if q == k {
            lemma_sent_index(t, n);
        } else {
            let w = choose|w: int| 0 <= w < s.len() && sent_key_at(s, w) == q;
            lemma_sent_index(s, w);
            assert(sent_key_at(t, w) == q);
            lemma_sent_index(t, w);
        }
    }
    assert(sent_view(t) =~= sent_view(s).insert(k, e.hash));
}

/// Overwriting the record at `i` with one carrying the same key
/// updates that key's hash in the map view.
proof fn lemma_sent_view_update(s: Seq<SentEntry>, i: int, e: SentEntry)
    requires
        sent_keys_unique(s),
        0 <= i < s.len(),
        e.key@ == sent_key_at(s, i),
    ensures
        sent_keys_unique(s.update(i, e)),
        sent_view(s.update(i, e)) == sent_view(s).insert(e.key@, e.hash),
{
    let t = s.update(i, e);
    let k = e.key@;
    assert(forall|w: int| 0 <= w < s.len() ==> sent_key_at(t, w) == sent_key_at(s, w));
    assert forall|q: (u64, Seq<char>)| #[trigger] sent_has_key(t, q) == sent_has_key(s, q) by {
        if sent_has_key(t, q) {
            let w = choose|w: int| 0 <= w < t.len() && sent_key_at(t, w) == q;
            assert(sent_key_at(s, w) == q);
        }
        if sent_has_key(s, q) {
            let w = choose|w: int| 0 <= w < s.len() && sent_key_at(s, w) == q;
            assert(sent_key_at(t, w) == q);
        }
    }
    assert forall|q: (u64, Seq<char>)| sent_has_key(t, q) implies t[sent_index_of(t, q)].hash
        == sent_view(s).insert(k, e.hash)[q] by {
        let w = sent_index_of(t, q);
        lemma_sent_index(t, w);
        lemma_sent_index(s, w);
        if q == k {
            lemma_sent_index(s, i);
            assert(w == i);
        }
    }
    assert(sent_has_key(t, k)) by {
        assert(sent_key_at(t, i) == k);
    }
    assert(sent_view(t) =~= sent_view(s).insert(k, e.hash));
}

/// Removing the record at `i` removes exactly its key from the map
/// view.
proof fn lemma_sent_view_remove(s: Seq<SentEntry>, i: int)
    requires
        sent_keys_unique(s),
        0 <= i < s.len(),
    ensures
        sent_keys_unique(s.remove(i)),
        sent_view(s.remove(i)) == sent_view(s).remove(sent_key_at(s, i)),
{
    let t = s.remove(i);
    let k = sent_key_at(s, i);
    assert(forall|w: int| 0 <= w < i ==> sent_key_at(t, w) == sent_key_at(s, w));
    assert(forall|w: int| i <= w < t.len() ==> sent_key_at(t, w) == sent_key_at(s, w + 1));
    assert forall|u: int, v: int| 0 <= u < v < t.len() implies sent_key_at(t, u) != sent_key_at(
        t,
        v,
    ) by {
        let u0: int = if u < i {
            u
        } else {
            u + 1
        };
        let v0: int = if v < i {
            v
        } else {
            v + 1
        };
        assert(sent_key_at(s, u0) != sent_key_at(s, v0));
    }
    assert forall|q: (u64, Seq<char>)| #[trigger]
        sent_has_key(t, q) == (sent_has_key(s, q) && q != k) by {
        if sent_has_key(t, q) {
            let w = choose|w: int| 0 <= w < t.len() && sent_key_at(t, w) == q;
            let w0: int = if w < i {
                w
            } else {
                w + 1
            };
            assert(sent_key_at(s, w0) == q);
            assert(w0 != i);
            if w0 < i {
                assert(sent_key_at(s, w0) != sent_key_at(s, i));
            } else {
                assert(sent_key_at(s, i) != sent_key_at(s, w0));
            }
        }
        if sent_has_key(s, q) && q != k {
            let w = choose|w: int| 0 <= w < s.len() && sent_key_at(s, w) == q;
            if w < i {
                assert(sent_key_at(t, w) == q);
            } else {
                assert(w != i);
                assert(sent_key_at(t, w - 1) == q);
            }
        }
    }
    assert forall|q: (u64, Seq<char>)| sent_has_key(t, q) implies t[sent_index_of(t, q)].hash
        == sent_view(s)[q] by {
        let w = sent_index_of(t, q);
        lemma_sent_index(t, w);
        let w0: int = if w < i {
            w
        } else {
            w + 1
        };
        assert(sent_key_at(s, w0) == q);
        lemma_sent_index(s, w0);
        assert(t[w] == s[w0]);
    }
    assert(sent_view(t) =~= sent_view(s).remove(k));
}

/// A copy of a byte vector.
fn clone_bytes(v: &Vec<u8>) -> (r: Vec<u8>)
    ensures
        r@ == v@,
{
    let mut r: Vec<u8> = Vec::new();
    let n = v.len();
    for i in 0..n
        invariant
            n == v@.len(),
            r@ =~= v@.subrange(0, i as int),
    {
        r.push(v[i]);
    }
    proof {
        assert(r@ =~= v@);
    }
    r
}

/// The engine's whole private state.
pub struct StreamEngine {
    cache: Vec<CacheEntry>,
    cache_bytes: usize,
    sent: Vec<SentEntry>,
}

impl StreamEngine {
    /// The encode cache, oldest entry first.
    pub closed spec fn cache_view(self) -> Seq<CacheEntryModel> {
        self.cache@.map_values(|e: CacheEntry| e@)
    }

    /// The last-sent map: `(peer, identifier)` to the hash last
    /// enqueued for it.
    pub closed spec fn sent_map(self) -> Map<(u64, Seq<char>), u64> {
        sent_view(self.sent@)
    }

    /// Cache keys distinct, byte accounting exact, cap respected,
    /// last-sent keys distinct.
    pub closed spec fn wf(self) -> bool {
        &&& cache_keys_unique(self.cache_view())
        &&& self.cache_bytes == cache_total(self.cache_view())
        &&& cache_total(self.cache_view()) <= CACHE_CAP
        &&& sent_keys_unique(self.sent@)
    }

    /// A fresh engine: empty cache, nothing sent yet.
    pub fn new() -> (e: StreamEngine)
        ensures
            e.wf(),
            e.cache_view() == Seq::<CacheEntryModel>::empty(),
            e.sent_map() == Map::<(u64, Seq<char>), u64>::empty(),
    {
        let e = StreamEngine { cache: Vec::new(), cache_bytes: 0, sent: Vec::new() };
        proof {
            assert(e.cache_view() =~= Seq::<CacheEntryModel>::empty());
            assert(e.sent_map() =~= Map::<(u64, Seq<char>), u64>::empty());
        }
        e
    }

    /// Index of the cache entry under `(options, hash)`, if any.
    fn cache_find(&self, options: StreamOptions, hash: u64) -> (r: Option<usize>)
        ensures
            match r {
                Some(i) => i < self.cache_view().len() && cache_key_at(self.cache_view(), i as int)
                    == (options, hash),
                None => !cache_has(self.cache_view(), (options, hash)),
            },
    {
        let n = self.cache.len();
        for i in 0..n
            invariant
                n == self.cache@.len(),
                n == self.cache_view().len(),
                forall|j: int|
                    0 <= j < i ==> cache_key_at(self.cache_view(), j) != (options, hash),
        {
            if self.cache[i].options == options && self.cache[i].hash == hash {
                return Some(i);
            }
        }
        None
    }

    /// Index of the last-sent record under `key`, if any.
    fn sent_find(&self, key: &StreamKey) -> (r: Option<usize>)
        ensures
            match r {
                Some(i) => i < self.sent@.len() && sent_key_at(self.sent@, i as int) == key@,
                None => !sent_has_key(self.sent@, key@),
            },
    {
        let n = self.sent.len();
        for i in 0..n
            invariant
                n == self.sent@.len(),
                forall|j: int| 0 <= j < i ==> sent_key_at(self.sent@, j) != key@,
        {
            if self.sent[i].key.peer_id == key.peer_id && self.sent[i].key.identifier
                == key.identifier {
                return Some(i);
            }
        }
        None
    }

    /// First half of one subscription's tick. Decides what this tick
    /// needs: nothing (no pixels, or the peer already has this frame),
    /// a send of already-encoded bytes, or one encode. A cache hit
    /// marks the entry most recently used; nothing else changes here.
    pub fn begin_tick(&mut self, sub: &Subscription, pixels: Option<&TextureFrame>) -> (step:
        TickStep)
        requires
            old(self).wf(),
        ensures
            final(self).wf(),
            final(self).sent_map() == old(self).sent_map(),
            match pixels {
                None => step is Skip && final(self).cache_view() == old(self).cache_view(),
                Some(f) => {
                    let h = seahash_of(f.pixels@);
                    let k = (sub.options, h);
                    if dedup_hit(old(self).sent_map(), sub.key@, h) {
                        step is Skip && final(self).cache_view() == old(self).cache_view()
                    } else if cache_has(old(self).cache_view(), k) {
                        &&& step matches TickStep::Send { payload, hash } && payload@
                            == cache_lookup(old(self).cache_view(), k) && hash == h
                        &&& final(self).cache_view() == cache_bump(old(self).cache_view(), k)
                    } else {
                        &&& step matches TickStep::Encode { quality, hash } && quality
                            == sub.options.quality && hash == h
                        &&& final(self).cache_view() == old(self).cache_view()
                    }
                },
            },
    {
        let f = match pixels {
            None => {
                return TickStep::Skip;
            },
            Some(f) => f,
        };
        let h = content_hash(f.pixels.as_slice());
        match self.sent_find(&sub.key) {
            Some(i) => {
                if self.sent[i].hash == h {
                    proof {
                        lemma_sent_index(self.sent@, i as int);
                        assert(dedup_hit(self.sent_map(), sub.key@, h));
                    }
                    return TickStep::Skip;
                }
                proof {
                    lemma_sent_index(self.sent@, i as int);
                }
            },
            None => {},
        }
        match self.cache_find(sub.options, h) {
            Some(i) => {
                let ghost pre = self.cache_view();
                proof {
                    lemma_cache_index(pre, i as int);
                    lemma_total_remove(pre, i as int);
                    lemma_total_push(pre.remove(i as int), pre[i as int]);
                }
                let entry = self.cache.remove(i);
                let payload = clone_bytes(&entry.payload);
                self.cache.push(entry);
                proof {
                    assert(self.cache_view() =~= pre.remove(i as int).push(pre[i as int]));
                    assert forall|u: int, v: int|
                        0 <= u < v < self.cache_view().len() implies cache_key_at(
                        self.cache_view(),
                        u,
                    ) != cache_key_at(self.cache_view(), v) by {
                        let t = self.cache_view();
                        let u0: int = if u < i {
                            u
                        } else if u < t.len() - 1 {
                            u + 1
                        } else {
                            i as int
                        };
                        let v0: int = if v < i {
                            v
                        } else if v < t.len() - 1 {
                            v + 1
                        } else {
                            i as int
                        };
                        assert(cache_key_at(t, u) == cache_key_at(pre, u0));
                        assert(cache_key_at(t, v) == cache_key_at(pre, v0));
                        if u0 < v0 {
                            assert(cache_key_at(pre, u0) != cache_key_at(pre, v0));
                        } else {
                            assert(cache_key_at(pre, v0) != cache_key_at(pre, u0));
                        }
                    }
                }
                TickStep::Send { payload, hash: h }
            },
            None => TickStep::Encode { quality: sub.options.quality, hash: h },
        }
    }

    /// Second half after an encode: caches the bytes under
    /// `(options, hash)` — evicting the least recently used entries so
    /// the cap holds — and hands them back for enqueueing. A failed
    /// encode (`None`) changes nothing, so the next tick retries. A
    /// payload larger than the whole cap is returned uncached.
    pub fn finish_encode(
        &mut self,
        options: StreamOptions,
        hash: u64,
        encoded: Option<Vec<u8>>,
    ) -> (r: Option<Vec<u8>>)
        requires
            old(self).wf(),
        ensures
            final(self).wf(),
            final(self).sent_map() == old(self).sent_map(),
            match encoded {
                None => r is None && final(self).cache_view() == old(self).cache_view(),
                Some(bytes) => {
                    &&& r matches Some(out) && out@ == bytes@
                    &&& if bytes@.len() > CACHE_CAP || cache_has(
                        old(self).cache_view(),
                        (options, hash),
                    ) {
                        final(self).cache_view() == old(self).cache_view()
                    } else {
                        final(self).cache_view() == cache_insert(
                            old(self).cache_view(),
                            options,
                            hash,
                            bytes@,
                        )
                    }
                },
            },
    {
        let bytes = match encoded {
            None => {
                return None;
            },
            Some(bytes) => bytes,
        };
        if bytes.len() > CACHE_CAP {
            return Some(bytes);
        }
        if self.cache_find(options, hash).is_some() {
            return Some(bytes);
        }
        let need = bytes.len();
        let ghost orig = self.cache_view();
        while self.cache_bytes > CACHE_CAP - need
            invariant
                need <= CACHE_CAP,
                cache_keys_unique(self.cache_view()),
                self.cache_bytes == cache_total(self.cache_view()),
                cache_evict(self.cache_view(), need as nat) == cache_evict(orig, need as nat),
                self.sent == old(self).sent,
            decreases self.cache@.len(),
        {
            let ghost pre = self.cache_view();
            proof {
                if self.cache.len() == 0 {
                    assert(cache_total(pre) == 0);
                }
                lemma_total_remove(pre, 0);
                assert(pre.remove(0) =~= pre.drop_first());
            }
            let victim = self.cache.remove(0);
            self.cache_bytes = self.cache_bytes - victim.payload.len();
            proof {
                assert(self.cache_view() =~= pre.drop_first());
                assert(forall|i: int|
                    0 <= i < self.cache_view().len() ==> cache_key_at(self.cache_view(), i)
                        == cache_key_at(pre, i + 1));
            }
        }
        let ghost evicted = self.cache_view();
        proof {
            assert(cache_evict(evicted, need as nat) == evicted);
            lemma_total_push(
                evicted,
                CacheEntryModel { options, hash, payload: bytes@ },
            );
        }
        let payload = clone_bytes(&bytes);
        self.cache_bytes = self.cache_bytes + bytes.len();
        self.cache.push(CacheEntry { options, hash, payload });
        proof {
            let e = CacheEntryModel { options, hash, payload: bytes@ };
            assert(self.cache_view() =~= evicted.push(e));
            assert forall|u: int, v: int|
                0 <= u < v < self.cache_view().len() implies cache_key_at(self.cache_view(), u)
                != cache_key_at(self.cache_view(), v) by {
                let t = self.cache_view();
                if v < t.len() - 1 {
                    assert(cache_key_at(evicted, u) != cache_key_at(evicted, v));
                } else {
                    assert(cache_key_at(t, u) == cache_key_at(evicted, u));
                    assert(!cache_has(orig, (options, hash)));
                    assert(cache_evict(orig, need as nat) == evicted);
                    lemma_evict_subset(orig, need as nat, u);
                }
            }
        }
        Some(bytes)
    }

    /// Records that a frame with this hash was enqueued for `key`.
    pub fn mark_sent(&mut self, key: &StreamKey, hash: u64)
        requires
            old(self).wf(),
        ensures
            final(self).wf(),
            final(self).cache_view() == old(self).cache_view(),
            final(self).sent_map() == old(self).sent_map().insert(key@, hash),
    {
        let entry = SentEntry { key: key.clone(), hash };
        match self.sent_find(key) {
            Some(i) => {
                proof {
                    lemma_sent_view_update(self.sent@, i as int, entry);
                }
                self.sent[i] = entry;
            },
            None => {
                proof {
                    lemma_sent_view_push(self.sent@, entry);
                }
                self.sent.push(entry);
            },
        }
    }

    /// Forgets the per-peer bookkeeping of a departed peer: afterwards
    /// the last-sent map holds no key of `peer_id`.
    pub fn drop_peer(&mut self, peer_id: u64)
        requires
            old(self).wf(),
        ensures
            final(self).wf(),
            final(self).cache_view() == old(self).cache_view(),
            final(self).sent_map() == old(self).sent_map().filter_keys(
                (|k: (u64, Seq<char>)| k.0 != peer_id),
            ),
    {
        let ghost target = old(self).sent_map().filter_keys(
            (|k: (u64, Seq<char>)| k.0 != peer_id),
        );
        let mut i: usize = 0;
        while i < self.sent.len()
            invariant
                i <= self.sent@.len(),
                sent_keys_unique(self.sent@),
                forall|j: int| 0 <= j < i ==> sent_key_at(self.sent@, j).0 != peer_id,
                sent_view(self.sent@).filter_keys((|k: (u64, Seq<char>)| k.0 != peer_id))
                    == target,
                self.cache == old(self).cache,
                self.cache_bytes == old(self).cache_bytes,
            decreases self.sent@.len() - i,
        {
            if self.sent[i].key.peer_id == peer_id {
                let ghost pre = self.sent@;
                proof {
                    lemma_sent_view_remove(pre, i as int);
                    let k = sent_key_at(pre, i as int);
                    assert(sent_view(pre).remove(k).filter_keys(
                        (|k: (u64, Seq<char>)| k.0 != peer_id),
                    ) =~= sent_view(pre).filter_keys((|k: (u64, Seq<char>)| k.0 != peer_id)));
                }
                self.sent.remove(i);
                proof {
                    assert forall|j: int| 0 <= j < i implies sent_key_at(self.sent@, j).0
                        != peer_id by {
                        assert(self.sent@[j] == pre[j]);
                        assert(sent_key_at(pre, j).0 != peer_id);
                    }
                }
            } else {
                i = i + 1;
            }
        }
        proof {
            assert forall|q: (u64, Seq<char>)| sent_has_key(self.sent@, q) implies q.0
                != peer_id by {
                let w = choose|w: int| 0 <= w < self.sent@.len() && sent_key_at(self.sent@, w)
                    == q;
                assert(sent_key_at(self.sent@, w).0 != peer_id);
            }
            assert(self.sent_map() =~= self.sent_map().filter_keys(
                (|k: (u64, Seq<char>)| k.0 != peer_id),
            ));
        }
    }
}

/// Cross-peer encode sharing: once one subscriber's frame is encoded
/// and cached under `(options, hash)`, the cache serves that key with
/// exactly those bytes — and `begin_tick` encodes only on a cache
/// miss, so no later tick of any peer with the same options and the
/// same pixel hash encodes again while the entry is cached. Holds for
/// payloads the cache can hold at all (at most `CACHE_CAP` bytes).
pub proof fn lemma_encode_shared(
    s: Seq<CacheEntryModel>,
    options: StreamOptions,
    hash: u64,
    payload: Seq<u8>,
)
    requires
        cache_keys_unique(s),
        !cache_has(s, (options, hash)),
        payload.len() <= CACHE_CAP,
    ensures
        cache_has(cache_insert(s, options, hash, payload), (options, hash)),
        cache_lookup(cache_insert(s, options, hash, payload), (options, hash)) == payload,
        cache_keys_unique(cache_insert(s, options, hash, payload)),
{
    let k = (options, hash);
    let kept = cache_evict(s, payload.len());
    let e = CacheEntryModel { options, hash, payload };
    let t = kept.push(e);
    let n = kept.len() as int;
    lemma_evict_keeps(s, payload.len());
    assert(cache_key_at(t, n) == k);
    assert forall|u: int| 0 <= u < n implies cache_key_at(t, u) != k by {
        lemma_evict_subset(s, payload.len(), u);
        assert(cache_key_at(kept, u) == cache_key_at(t, u));
    }
    assert forall|u: int, v: int| 0 <= u < v < t.len() implies cache_key_at(t, u) != cache_key_at(
        t,
        v,
    ) by {
        if v < n {
            assert(cache_key_at(kept, u) != cache_key_at(kept, v));
        }
    }
    lemma_cache_index(t, n);
}

/// Per-peer dedup across consecutive ticks: once a frame with hash `h`
/// is recorded sent to `(peer, identifier)`, a next tick whose pixels
/// hash to `h` again is a dedup hit, and `begin_tick` then skips —
/// nothing is enqueued for that key.
pub proof fn lemma_second_tick_deduped(ls: Map<(u64, Seq<char>), u64>, k: (u64, Seq<char>), h: u64)
    ensures
        dedup_hit(ls.insert(k, h), k, h),
{
}

/// Entries that survive eviction were in the cache before it.
proof fn lemma_evict_subset(s: Seq<CacheEntryModel>, need: nat, u: int)
    requires
        0 <= u < cache_evict(s, need).len(),
    ensures
        cache_has(s, cache_key_at(cache_evict(s, need), u)),
    decreases s.len(),
{
    if cache_total(s) + need <= CACHE_CAP {
        assert(cache_key_at(s, u) == cache_key_at(cache_evict(s, need), u));
    } else if s.len() == 0 {
    } else {
        lemma_evict_subset(s.drop_first(), need, u);
        let q = cache_key_at(cache_evict(s, need), u);
        let w = choose|w: int| 0 <= w < s.drop_first().len() && cache_key_at(s.drop_first(), w)
            == q;
        assert(cache_key_at(s, w + 1) == q);
    }
}

} // verus!
