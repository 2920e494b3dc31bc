//! Subscription state: the set of active `(peer, identifier)` streams.
//!
//! The state is a finite map from stream keys to the options the stream
//! was started with. `Start` inserts, `Stop` removes, and a disconnect
//! removes every key of the departed peer.

use vstd::prelude::*;

verus! {

/// Options of one stream subscription, immutable for its lifetime.
/// `refresh_rate` is in frames per second and lies in `1..=120`;
/// `quality` is a JPEG quality and lies in `1..=100`.
#[derive(Clone, Copy, Debug, PartialEq, Eq, Structural)]
pub struct StreamOptions {
    pub refresh_rate: u16,
    pub quality: u16,
}

/// `v` forced into `lo..=hi`.
pub open spec fn clamp_u16(v: u16, lo: u16, hi: u16) -> u16 {
    if v < lo {
        lo
    } else if v > hi {
        hi
    } else {
        v
    }
}

/// The options a start request carries, after defaults and clamping.
pub open spec fn stream_options_of(refresh_rate: Option<u16>, quality: Option<u16>) -> StreamOptions {
    StreamOptions {
        refresh_rate: clamp_u16(refresh_rate.unwrap_or(30u16), 1, 120),
        quality: clamp_u16(quality.unwrap_or(65u16), 1, 100),
    }
}

/// The production period of a subscription in milliseconds: a frame
/// at most every `1000 / refresh_rate` ms. A rate of zero cannot come
/// out of `StreamOptions::new`; it falls back to one frame a second.
pub open spec fn spec_period_ms(o: StreamOptions) -> int {
    if o.refresh_rate == 0 {
        1000int
    } else {
        1000int / o.refresh_rate as int
    }
}

impl StreamOptions {
    /// Both fields lie in their documented ranges.
    pub open spec fn valid(self) -> bool {
        1 <= self.refresh_rate <= 120 && 1 <= self.quality <= 100
    }

    /// The production period in milliseconds.
    pub fn period_ms(&self) -> (p: u64)
        ensures
            p == spec_period_ms(*self),
    {
        if self.refresh_rate == 0 {
            1000
        } else {
            1000 / (self.refresh_rate as u64)
        }
    }

    /// Builds options from the optional wire fields: absent fields take
    /// the defaults (30 Hz, quality 65), present ones are clamped into
    /// their documented ranges.
    pub fn new(refresh_rate: Option<u16>, quality: Option<u16>) -> (o: StreamOptions)
        ensures
            o == stream_options_of(refresh_rate, quality),
            o.valid(),
    {
        let r: u16 = refresh_rate.unwrap_or(30);
        let q: u16 = quality.unwrap_or(65);
        StreamOptions {
            refresh_rate: if r < 1 { 1 } else if r > 120 { 120 } else { r },
            quality: if q < 1 { 1 } else if q > 100 { 100 } else { q },
        }
    }
}

/// Identifies one subscription: the transport-minted peer id plus the
/// wire identifier of the texture source.
pub struct StreamKey {
    pub peer_id: u64,
    pub identifier: String,
}

impl View for StreamKey {
    type V = (u64, Seq<char>);

    open spec fn view(&self) -> (u64, Seq<char>) {
        (self.peer_id, self.identifier@)
    }
}

impl Clone for StreamKey {
    fn clone(&self) -> (r: Self)
        ensures
            r == *self,
    {
        StreamKey { peer_id: self.peer_id, identifier: self.identifier.clone() }
    }
}

/// One active stream: its key and the options it was started with.
pub struct Subscription {
    pub key: StreamKey,
    pub options: StreamOptions,
}

impl Clone for Subscription {
    fn clone(&self) -> (r: Self)
        ensures
            r == *self,
    {
        Subscription { key: self.key.clone(), options: self.options }
    }
}

/// The key of the `i`th entry, as a mathematical value.
pub open spec fn sub_key_at(s: Seq<Subscription>, i: int) -> (u64, Seq<char>) {
    s[i].key@
}

/// Whether some entry of `s` carries key `k`.
pub open spec fn seq_has_key(s: Seq<Subscription>, k: (u64, Seq<char>)) -> bool {
    exists|i: int| 0 <= i < s.len() && sub_key_at(s, i) == k
}

/// Keys are pairwise distinct.
pub open spec fn seq_keys_unique(s: Seq<Subscription>) -> bool {
    forall|i: int, j: int| 0 <= i < j < s.len() ==> sub_key_at(s, i) != sub_key_at(s, j)
}

/// The index of the entry carrying key `k`.
pub open spec fn key_index_of(s: Seq<Subscription>, k: (u64, Seq<char>)) -> int {
    choose|i: int| 0 <= i < s.len() && sub_key_at(s, i) == k
}

/// The map a sequence of subscriptions stands for.
pub open spec fn seq_view(s: Seq<Subscription>) -> Map<(u64, Seq<char>), StreamOptions> {
    Map::new(
        |k: (u64, Seq<char>)| seq_has_key(s, k),
        |k: (u64, Seq<char>)| s[key_index_of(s, k)].options,
    )
}

/// `m` restricted to the keys whose peer is not `peer_id`.
pub open spec fn without_peer(
    m: Map<(u64, Seq<char>), StreamOptions>,
    peer_id: u64,
) -> Map<(u64, Seq<char>), StreamOptions> {
    m.filter_keys(|k: (u64, Seq<char>)| k.0 != peer_id)
}

/// With pairwise-distinct keys, the chosen index of the `w`th entry's
/// key is `w` itself.
proof fn lemma_key_index(s: Seq<Subscription>, w: int)
    requires
        seq_keys_unique(s),
        0 <= w < s.len(),
    ensures
        seq_has_key(s, sub_key_at(s, w)),
        key_index_of(s, sub_key_at(s, w)) == w,
{
    let q = sub_key_at(s, w);
    assert(seq_has_key(s, q));
    let c = key_index_of(s, q);
    if c != w {
        if c < w {
            assert(sub_key_at(s, c) != sub_key_at(s, w));
        } else {
            assert(sub_key_at(s, w) != sub_key_at(s, c));
        }
    }
}

/// Appending an entry with a fresh key inserts it into the map view.
proof fn lemma_seq_view_push(s: Seq<Subscription>, sub: Subscription)
    requires
        seq_keys_unique(s),
        !seq_has_key(s, sub.key@),
    ensures
        seq_keys_unique(s.push(sub)),
        seq_view(s.push(sub)) == seq_view(s).insert(sub.key@, sub.options),
{
    let t = s.push(sub);
    let k = sub.key@;
    let n = s.len() as int;
    assert(sub_key_at(t, n) == k);
    assert forall|i: int, j: int| 0 <= i < j < t.len() implies sub_key_at(t, i) != sub_key_at(
        t,
        j,
    ) by {
        if j < n {
            assert(sub_key_at(t, i) == sub_key_at(s, i));
            assert(sub_key_at(t, j) == sub_key_at(s, j));
        } else {
            assert(sub_key_at(t, i) == sub_key_at(s, i));
        }
    }
    assert forall|q: (u64, Seq<char>)| #[trigger] seq_has_key(t, q) == (seq_has_key(s, q) || q
        == k) by {
        if seq_has_key(t, q) {
            let w = choose|w: int| 0 <= w < t.len() && sub_key_at(t, w) == q;
            if w < n {
                assert(sub_key_at(s, w) == q);
            }
        }
        if seq_has_key(s, q) {
            let w = choose|w: int| 0 <= w < s.len() && sub_key_at(s, w) == q;
            assert(sub_key_at(t, w) == q);
        }
    }
    assert forall|q: (u64, Seq<char>)| seq_has_key(t, q) implies t[key_index_of(t, q)].options
        == seq_view(s).insert(k, sub.options)[q] by {
        if q == k {
            lemma_key_index(t, n);
        } else {
            let w = choose|w: int| 0 <= w < s.len() && sub_key_at(s, w) == q;
            lemma_key_index(s, w);
            assert(sub_key_at(t, w) == q);
            lemma_key_index(t, w);
        }
    }
    assert(seq_view(t) =~= seq_view(s).insert(k, sub.options));
}

/// Overwriting the entry at `i` with one carrying the same key updates
/// that key's options in the map view.
proof fn lemma_seq_view_update(s: Seq<Subscription>, i: int, sub: Subscription)
    requires
        seq_keys_unique(s),
        0 <= i < s.len(),
        sub.key@ == sub_key_at(s, i),
    ensures
        seq_keys_unique(s.update(i, sub)),
        seq_view(s.update(i, sub)) == seq_view(s).insert(sub.key@, sub.options),
{
    let t = s.update(i, sub);
    let k = sub.key@;
    assert(forall|w: int| 0 <= w < s.len() ==> sub_key_at(t, w) == sub_key_at(s, w));
    assert forall|q: (u64, Seq<char>)| #[trigger] seq_has_key(t, q) == seq_has_key(s, q) by {
        if seq_has_key(t, q) {
            let w = choose|w: int| 0 <= w < t.len() && sub_key_at(t, w) == q;
            assert(sub_key_at(s, w) == q);
        }
        if seq_has_key(s, q) {
            let w = choose|w: int| 0 <= w < s.len() && sub_key_at(s, w) == q;
            assert(sub_key_at(t, w) == q);
        }
    }
    assert forall|q: (u64, Seq<char>)| seq_has_key(t, q) implies t[key_index_of(t, q)].options
        == seq_view(s).insert(k, sub.options)[q] by {
        let w = key_index_of(t, q);
        lemma_key_index(t, w);
        lemma_key_index(s, w);
        if q == k {
            lemma_key_index(s, i);
            assert(w == i);
        }
    }
    assert(seq_has_key(t, k)) by {
        assert(sub_key_at(t, i) == k);
    }
    assert(seq_view(t) =~= seq_view(s).insert(k, sub.options));
}

/// Removing the entry at `i` removes exactly its key from the map view.
proof fn lemma_seq_view_remove(s: Seq<Subscription>, i: int)
    requires
        seq_keys_unique(s),
        0 <= i < s.len(),
    ensures
        seq_keys_unique(s.remove(i)),
        seq_view(s.remove(i)) == seq_view(s).remove(sub_key_at(s, i)),
{
    let t = s.remove(i);
    let k = sub_key_at(s, i);
    assert(forall|w: int| 0 <= w < i ==> sub_key_at(t, w) == sub_key_at(s, w));
    assert(forall|w: int| i <= w < t.len() ==> sub_key_at(t, w) == sub_key_at(s, w + 1));
    assert forall|u: int, v: int| 0 <= u < v < t.len() implies sub_key_at(t, u) != sub_key_at(
        t,
        v,
    ) by {
        let u0: int = if u < i {
            u
        } else {
            u + 1
        };
        let v0: int = if v < i {
            v
        } else {
            v + 1
        };
        assert(sub_key_at(s, u0) != sub_key_at(s, v0));
    }
    assert forall|q: (u64, Seq<char>)| #[trigger] seq_has_key(t, q) == (seq_has_key(s, q) && q
        != k) by {
        if seq_has_key(t, q) {
            let w = choose|w: int| 0 <= w < t.len() && sub_key_at(t, w) == q;
            let w0: int = if w < i {
                w
            } else {
                w + 1
            };
            assert(sub_key_at(s, w0) == q);
            assert(w0 != i);
            if w0 < i {
                assert(sub_key_at(s, w0) != sub_key_at(s, i));
            } else {
                assert(sub_key_at(s, i) != sub_key_at(s, w0));
            }
        }
        if seq_has_key(s, q) && q != k {
            let w = choose|w: int| 0 <= w < s.len() && sub_key_at(s, w) == q;
            if w < i {
                assert(sub_key_at(t, w) == q);
            } else {
                assert(w != i);
                assert(sub_key_at(t, w - 1) == q);
            }
        }
    }
    assert forall|q: (u64, Seq<char>)| seq_has_key(t, q) implies t[key_index_of(t, q)].options
        == seq_view(s)[q] by {
        let w = key_index_of(t, q);
        lemma_key_index(t, w);
        let w0: int = if w < i {
            w
        } else {
            w + 1
        };
        assert(sub_key_at(s, w0) == q);
        lemma_key_index(s, w0);
        assert(t[w] == s[w0]);
    }
    assert(seq_view(t) =~= seq_view(s).remove(k));
}

/// One subscription request, as the dispatcher applies it to the set.
pub enum StreamOp {
    /// A `Start` request for `key` with `options`.
    Start { key: (u64, Seq<char>), options: StreamOptions },
    /// A `Stop` request for `key`.
    Stop { key: (u64, Seq<char>) },
}

/// The effect of one request on the subscription map: `Start` inserts,
/// `Stop` removes. These are exactly the transitions `start_stream` and
/// `stop_stream` promise.
pub open spec fn apply_stream_op(
    m: Map<(u64, Seq<char>), StreamOptions>,
    op: StreamOp,
) -> Map<(u64, Seq<char>), StreamOptions> {
    match op {
        StreamOp::Start { key, options } => m.insert(key, options),
        StreamOp::Stop { key } => m.remove(key),
    }
}

/// The subscription map after a whole run of requests.
pub open spec fn apply_stream_ops(
    m: Map<(u64, Seq<char>), StreamOptions>,
    ops: Seq<StreamOp>,
) -> Map<(u64, Seq<char>), StreamOptions>
    decreases ops.len(),
{
    if ops.len() == 0 {
        m
    } else {
        apply_stream_op(apply_stream_ops(m, ops.drop_last()), ops.last())
    }
}

/// How many `Start` requests in `ops` name the key `k`.
pub open spec fn count_starts(ops: Seq<StreamOp>, k: (u64, Seq<char>)) -> nat
    decreases ops.len(),
{
    if ops.len() == 0 {
        0
    } else {
        count_starts(ops.drop_last(), k) + (if ops.last() matches StreamOp::Start { key, .. }
            && key == k {
            1nat
        } else {
            0nat
        })
    }
}

/// How many `Stop` requests in `ops` name the key `k`.
pub open spec fn count_stops(ops: Seq<StreamOp>, k: (u64, Seq<char>)) -> nat
    decreases ops.len(),
{
    if ops.len() == 0 {
        0
    } else {
        count_stops(ops.drop_last(), k) + (if ops.last() matches StreamOp::Stop { key } && key
            == k {
            1nat
        } else {
            0nat
        })
    }
}

/// Each request finds the set in the state it presumes: a `Start` names
/// a key that is not active at that point, a `Stop` one that is.
pub open spec fn ops_well_formed(ops: Seq<StreamOp>) -> bool {
    forall|n: int|
        0 <= n < ops.len() ==> match #[trigger] ops[n] {
            StreamOp::Start { key, .. } => !apply_stream_ops(
                Map::empty(),
                ops.take(n),
            ).dom().contains(key),
            StreamOp::Stop { key } => apply_stream_ops(Map::empty(), ops.take(n)).dom().contains(
                key,
            ),
        }
}

/// For every well-formed run of `Start`/`Stop` requests applied to the
/// empty set, the active set equals the starts minus the stops: a key is
/// active exactly when its `Start` count exceeds its `Stop` count (then
/// by one), and inactive exactly when the two counts agree.
pub proof fn lemma_active_set_is_start_minus_stop(ops: Seq<StreamOp>, k: (u64, Seq<char>))
    requires
        ops_well_formed(ops),
    ensures
        apply_stream_ops(Map::empty(), ops).dom().contains(k) <==> count_starts(ops, k)
            == count_stops(ops, k) + 1,
        !apply_stream_ops(Map::empty(), ops).dom().contains(k) ==> count_starts(ops, k)
            == count_stops(ops, k),
    decreases ops.len(),
{
    if ops.len() > 0 {
        let pre = ops.drop_last();
        let n = ops.len() - 1;
        assert(pre =~= ops.take(n));
        assert forall|w: int| 0 <= w < pre.len() implies match #[trigger] pre[w] {
            StreamOp::Start { key, .. } => !apply_stream_ops(
                Map::empty(),
                pre.take(w),
            ).dom().contains(key),
            StreamOp::Stop { key } => apply_stream_ops(Map::empty(), pre.take(w)).dom().contains(
                key,
            ),
        } by {
            assert(pre.take(w) =~= ops.take(w));
            assert(pre[w] == ops[w]);
        }
        lemma_active_set_is_start_minus_stop(pre, k);
        assert(ops[n] == ops.last());
    }
}

/// The set of active subscriptions, owned by the dispatcher.
pub struct State {
    subs: Vec<Subscription>,
}

impl View for State {
    type V = Map<(u64, Seq<char>), StreamOptions>;

    closed spec fn view(&self) -> Map<(u64, Seq<char>), StreamOptions> {
        seq_view(self.subs@)
    }
}

impl State {
    /// Keys in the backing vector are pairwise distinct.
    pub closed spec fn wf(self) -> bool {
        seq_keys_unique(self.subs@)
    }

    /// An empty subscription set.
    pub fn new() -> (s: State)
        ensures
            s.wf(),
            s@ == Map::<(u64, Seq<char>), StreamOptions>::empty(),
    {
        let s = State { subs: Vec::new() };
        proof {
            assert(s@ =~= Map::<(u64, Seq<char>), StreamOptions>::empty());
        }
        s
    }

    /// Index of the entry carrying `(peer_id, identifier)`, if any.
    fn find_index(&self, peer_id: u64, identifier: &String) -> (r: Option<usize>)
        ensures
            match r {
                Some(i) => i < self.subs@.len() && sub_key_at(self.subs@, i as int) == (
                    peer_id,
                    identifier@,
                ),
                None => !seq_has_key(self.subs@, (peer_id, identifier@)),
            },
    {
        let n = self.subs.len();
        for i in 0..n
            invariant
                n == self.subs@.len(),
                forall|j: int| 0 <= j < i ==> sub_key_at(self.subs@, j) != (peer_id, identifier@),
        {
            if self.subs[i].key.peer_id == peer_id && self.subs[i].key.identifier == *identifier {
                return Some(i);
            }
        }
        None
    }

    /// Whether `key` is currently subscribed.
    pub fn contains_key(&self, key: &StreamKey) -> (r: bool)
        ensures
            r == self@.dom().contains(key@),
    {
        self.find_index(key.peer_id, &key.identifier).is_some()
    }

    /// Starts (or restarts) the stream under `key`: afterwards the set
    /// maps `key` to `options`, leaving every other entry unchanged.
    pub fn start_stream(&mut self, key: StreamKey, options: StreamOptions)
        requires
            old(self).wf(),
        ensures
            final(self).wf(),
            final(self)@ == old(self)@.insert(key@, options),
    {
        match self.find_index(key.peer_id, &key.identifier) {
            Some(i) => {
                proof {
                    lemma_seq_view_update(self.subs@, i as int, Subscription { key, options });
                }
                self.subs[i] = Subscription { key, options };
            },
            None => {
                proof {
                    lemma_seq_view_push(self.subs@, Subscription { key, options });
                }
                self.subs.push(Subscription { key, options });
            },
        }
    }

    /// Stops the stream under `key`: afterwards the set no longer
    /// contains `key`, leaving every other entry unchanged. Stopping a
    /// key that is not active leaves the set as it was.
    pub fn stop_stream(&mut self, key: &StreamKey)
        requires
            old(self).wf(),
        ensures
            final(self).wf(),
            final(self)@ == old(self)@.remove(key@),
    {
        match self.find_index(key.peer_id, &key.identifier) {
            Some(i) => {
                proof {
                    lemma_seq_view_remove(self.subs@, i as int);
                }
                self.subs.remove(i);
            },
            None => {
                proof {
                    assert(self@ =~= old(self)@.remove(key@));
                }
            },
        }
    }

    /// Tears down every subscription of `peer_id` (peer disconnect):
    /// afterwards the set holds exactly the entries of the other peers.
    pub fn cancel_all_streams(&mut self, peer_id: u64)
        requires
            old(self).wf(),
        ensures
            final(self).wf(),
            final(self)@ == without_peer(old(self)@, peer_id),
    {
        let mut i: usize = 0;
        while i < self.subs.len()
            invariant
                i <= self.subs@.len(),
                seq_keys_unique(self.subs@),
                forall|j: int| 0 <= j < i ==> sub_key_at(self.subs@, j).0 != peer_id,
                without_peer(seq_view(self.subs@), peer_id) == without_peer(old(self)@, peer_id),
            decreases self.subs@.len() - i,
        {
            if self.subs[i].key.peer_id == peer_id {
                let ghost pre = self.subs@;
                proof {
                    lemma_seq_view_remove(pre, i as int);
                    let k = sub_key_at(pre, i as int);
                    assert(without_peer(seq_view(pre).remove(k), peer_id) =~= without_peer(
                        seq_view(pre),
                        peer_id,
                    ));
                }
                self.subs.remove(i);
                proof {
                    assert forall|j: int| 0 <= j < i implies sub_key_at(self.subs@, j).0
                        != peer_id by {
                        assert(self.subs@[j] == pre[j]);
                        assert(sub_key_at(pre, j).0 != peer_id);
                    }
                }
            } else {
                i = i + 1;
            }
        }
        proof {
            assert forall|q: (u64, Seq<char>)| seq_has_key(self.subs@, q) implies q.0
                != peer_id by {
                let w = choose|w: int| 0 <= w < self.subs@.len() && sub_key_at(self.subs@, w) == q;
                assert(sub_key_at(self.subs@, w).0 != peer_id);
            }
            assert(self@ =~= without_peer(self@, peer_id));
        }
    }

    /// A snapshot of the active subscriptions, in the set's internal
    /// order: every returned entry is in the set with its options, and
    /// every active key appears exactly once.
    pub fn streams_to_send(&self) -> (r: Vec<Subscription>)
        requires
            self.wf(),
        ensures
            seq_keys_unique(r@),
            forall|w: int|
                0 <= w < r@.len() ==> self@.contains_pair(
                    #[trigger] sub_key_at(r@, w),
                    r@[w].options,
                ),
            forall|k: (u64, Seq<char>)| self@.dom().contains(k) ==> seq_has_key(r@, k),
    {
        let n = self.subs.len();
        let mut r: Vec<Subscription> = Vec::new();
        for i in 0..n
            invariant
                n == self.subs@.len(),
                seq_keys_unique(self.subs@),
                r@ =~= self.subs@.subrange(0, i as int),
        {
            let entry = self.subs[i].clone();
            r.push(entry);
        }
        proof {
            assert(r@ =~= self.subs@);
            assert forall|w: int| 0 <= w < r@.len() implies self@.contains_pair(
                sub_key_at(r@, w),
                r@[w].options,
            ) by {
                lemma_key_index(self.subs@, w);
            }
        }
        r
    }
}

} // verus!
