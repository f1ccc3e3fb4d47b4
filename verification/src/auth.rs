//! Bearer authentication for the local API: where the secret comes from,
//! how a request is judged, and the per-peer lockout after repeated
//! failures.

use std::time::Instant;

use vstd::prelude::*;

use crate::clock::{elapsed_nanos, instant_now};
use crate::house::opt_view;
use crate::paths::{path_join, Paths};
use crate::text::has_prefix;
use crate::tokens::{authorize_outcome, grants, AuthFail, Scope, TokenError, TokenRecord,
    TokenStore, TokenView};

verus! {

/// Failures within this window (nanoseconds) count toward lockout.
pub const FAIL_WINDOW_NS: u64 = 60_000_000_000;

/// Windowed failures that lock the peer.
pub const FAIL_LIMIT: u32 = 5;

/// How long a peer stays locked (nanoseconds).
pub const LOCKOUT_NS: u64 = 60_000_000_000;

/// Above this many tracked peers, idle ones are dropped.
pub const PRUNE_ABOVE: usize = 1024;

/// The latest clock reading the limiter works with.
pub const CLOCK_LIMIT_NS: u64 = 0xffff_fff0_0000_0000;

/// The address of the peer that made a request.
#[derive(Debug, Clone, Copy, PartialEq, Eq, Structural, Hash)]
pub enum PeerIp {
    V4(u32),
    V6(u128),
}

/// Failure history of one peer.
struct Bucket {
    failures: Vec<u64>,
    locked_until: Option<u64>,
}

/// A peer's failure history as plain values.
pub struct BucketView {
    pub failures: Seq<u64>,
    pub locked_until: Option<u64>,
}

impl View for Bucket {
    type V = BucketView;

    closed spec fn view(&self) -> BucketView {
        BucketView { failures: self.failures@, locked_until: self.locked_until }
    }
}

/// A peer with no history.
pub open spec fn fresh_bucket() -> BucketView {
    BucketView { failures: Seq::empty(), locked_until: None }
}

/// `now - t`, or 0 when `t` is later than `now`.
pub open spec fn since(now: u64, t: u64) -> int {
    if now >= t {
        now - t
    } else {
        0
    }
}

pub open spec fn in_window(now: u64, t: u64) -> bool {
    since(now, t) <= FAIL_WINDOW_NS
}

/// The failure times of `s` still inside the window at `now`, in order.
pub open spec fn recent(s: Seq<u64>, now: u64) -> Seq<u64>
    decreases s.len(),
{
    if s.len() == 0 {
        Seq::empty()
    } else if in_window(now, s.last()) {
        recent(s.drop_last(), now).push(s.last())
    } else {
        recent(s.drop_last(), now)
    }
}

/// A bucket after one more failure at `now`: stale failures are forgotten,
/// `now` is recorded, and reaching the limit locks the peer for the lockout.
pub open spec fn after_failure(b: BucketView, now: u64) -> BucketView {
    let kept = recent(b.failures, now).push(now);
    BucketView {
        failures: kept,
        locked_until: if (kept.len() as u32) >= FAIL_LIMIT {
            Some((now + LOCKOUT_NS) as u64)
        } else {
            b.locked_until
        },
    }
}

pub open spec fn bucket_of(m: Map<PeerIp, BucketView>, ip: PeerIp) -> BucketView {
    if m.contains_key(ip) {
        m[ip]
    } else {
        fresh_bucket()
    }
}

/// The peer table after a failure of `ip` at `now`.
pub open spec fn fail_step(m: Map<PeerIp, BucketView>, ip: PeerIp, now: u64) -> Map<
    PeerIp,
    BucketView,
> {
    m.insert(ip, after_failure(bucket_of(m, ip), now))
}

/// A bucket still matters at `now`: it is locked, or holds a failure
/// inside the window.
pub open spec fn live(b: BucketView, now: u64) -> bool {
    ||| (b.locked_until matches Some(u) && u > now)
    ||| exists|i: int| 0 <= i < b.failures.len() && in_window(now, #[trigger] b.failures[i])
}

/// The live part of the table.
pub open spec fn pruned(m: Map<PeerIp, BucketView>, now: u64) -> Map<PeerIp, BucketView> {
    Map::new(|k: PeerIp| m.contains_key(k) && live(m[k], now), |k: PeerIp| m[k])
}

/// The table a lockout check works on: pruned once more than
/// [`PRUNE_ABOVE`] peers are tracked.
pub open spec fn swept(count: nat, m: Map<PeerIp, BucketView>, now: u64) -> Map<
    PeerIp,
    BucketView,
> {
    if count > PRUNE_ABOVE {
        pruned(m, now)
    } else {
        m
    }
}

/// A lockout check of `ip` at `now` on a swept table: the remaining lock
/// time if locked; an expired lock is lifted and its history cleared.
pub open spec fn check_step(m: Map<PeerIp, BucketView>, ip: PeerIp, now: u64) -> (
    Map<PeerIp, BucketView>,
    Option<u64>,
) {
    if !m.contains_key(ip) {
        (m, None)
    } else {
        match m[ip].locked_until {
            Some(u) => if u > now {
                (m, Some((u - now) as u64))
            } else {
                (m.insert(ip, fresh_bucket()), None)
            },
            None => (m, None),
        }
    }
}

/// Distinct peers.
spec fn table_wf(s: Seq<(PeerIp, Bucket)>) -> bool {
    forall|i: int, j: int| 0 <= i < j < s.len() ==> (#[trigger] s[i]).0 != (#[trigger] s[j]).0
}

spec fn table_has(s: Seq<(PeerIp, Bucket)>, k: PeerIp) -> bool {
    exists|i: int| 0 <= i < s.len() && (#[trigger] s[i]).0 == k
}

spec fn table_index(s: Seq<(PeerIp, Bucket)>, k: PeerIp) -> int {
    choose|i: int| 0 <= i < s.len() && (#[trigger] s[i]).0 == k
}

spec fn table_map(s: Seq<(PeerIp, Bucket)>) -> Map<PeerIp, BucketView> {
    Map::new(|k: PeerIp| table_has(s, k), |k: PeerIp| s[table_index(s, k)].1@)
}

proof fn lemma_table_entry(s: Seq<(PeerIp, Bucket)>, i: int)
    requires
        table_wf(s),
        0 <= i < s.len(),
    ensures
        table_map(s).contains_key(s[i].0),
        table_map(s)[s[i].0] == s[i].1@,
{
    assert(table_has(s, s[i].0));
    let j = table_index(s, s[i].0);
    if i < j {
        assert(s[i].0 != s[j].0);
    } else if j < i {
        assert(s[j].0 != s[i].0);
    }
}

/// Per-peer failed-authentication tracker with lockout.
pub struct AuthLimiter {
    origin: Instant,
    peers: Vec<(PeerIp, Bucket)>,
}

fn find_peer(peers: &Vec<(PeerIp, Bucket)>, ip: PeerIp) -> (r: Option<usize>)
    requires
        table_wf(peers@),
    ensures
        match r {
            Some(i) => i < peers@.len() && peers@[i as int].0 == ip,
            None => !table_map(peers@).contains_key(ip),
        },
{
    let n = peers.len();
    let mut i: usize = 0;
    while i < n
        invariant
            n == peers@.len(),
            i <= n,
            forall|j: int| 0 <= j < i ==> (#[trigger] peers@[j]).0 != ip,
        decreases n - i,
    {
        if peers[i].0 == ip {
            return Some(i);
        }
        i = i + 1;
    }
    None
}

/// Keeps the failure times still inside the window at `now`.
fn keep_recent(failures: &Vec<u64>, now: u64) -> (r: Vec<u64>)
    ensures
        r@ == recent(failures@, now),
{
    let n = failures.len();
    let mut out: Vec<u64> = Vec::new();
    let mut i: usize = 0;
    while i < n
        invariant
            n == failures@.len(),
            i <= n,
            out@ == recent(failures@.take(i as int), now),
        decreases n - i,
    {
        let t = failures[i];
        let age: u64 = if now >= t {
            now - t
        } else {
            0
        };
        assert(failures@.take(i + 1).drop_last() =~= failures@.take(i as int));
        if age <= FAIL_WINDOW_NS {
            out.push(t);
        }
        i = i + 1;
    }
    assert(failures@.take(n as int) =~= failures@);
    out
}

fn is_live(b: &Bucket, now: u64) -> (r: bool)
    ensures
        r == live(b@, now),
{
    if let Some(u) = b.locked_until {
        if u > now {
            assert(b@.locked_until == Some(u));
            return true;
        }
    }
    let n = b.failures.len();
    let mut i: usize = 0;
    while i < n
        invariant
            n == b.failures@.len(),
            i <= n,
            forall|j: int| 0 <= j < i ==> !in_window(now, #[trigger] b.failures@[j]),
        decreases n - i,
    {
        let t = b.failures[i];
        let age: u64 = if now >= t {
            now - t
        } else {
            0
        };
        if age <= FAIL_WINDOW_NS {
            assert(in_window(now, b@.failures[i as int]));
            return true;
        }
        i = i + 1;
    }
    false
}

/// The live entries of `peers`, in order.
fn prune_peers(peers: Vec<(PeerIp, Bucket)>, now: u64) -> (r: Vec<(PeerIp, Bucket)>)
    requires
        table_wf(peers@),
    ensures
        table_wf(r@),
        table_map(r@) == pruned(table_map(peers@), now),
        r@.len() <= peers@.len(),
{
    let ghost old_s = peers@;
    let mut src = peers;
    let mut out: Vec<(PeerIp, Bucket)> = Vec::new();
    let ghost mut origin: Seq<int> = Seq::empty();
    let n = src.len();
    let mut i: usize = 0;
    while i < n
        invariant
            n == old_s.len(),
            i <= n,
            src@.len() == n,
            forall|j: int| i <= j < n ==> src@[j] == old_s[j],
            table_wf(old_s),
            out@.len() == origin.len(),
            out@.len() <= i,
            forall|a: int| 0 <= a < origin.len() ==> 0 <= #[trigger] origin[a] < i,
            forall|a: int, b: int| 0 <= a < b < origin.len() ==> #[trigger] origin[a] < #[trigger] origin[b],
            forall|a: int| 0 <= a < out@.len() ==> #[trigger] out@[a] == old_s[origin[a]] && live(out@[a].1@, now),
            forall|j: int| 0 <= j < i && live(#[trigger] old_s[j].1@, now) ==> exists|a: int| 0 <= a < origin.len() && origin[a] == j,
        decreases n - i,
    {
        let mut entry = (PeerIp::V4(0), Bucket { failures: Vec::new(), locked_until: None });
        let ghost before = src@;
        {
            let slot = &mut src[i];
            std::mem::swap(slot, &mut entry);
        }
        proof {
            assert(entry == old_s[i as int]);
        }
        let ghost old_origin = origin;
        if is_live(&entry.1, now) {
            out.push(entry);
            proof {
                origin = origin.push(i as int);
                assert(origin[origin.len() - 1] == i);
            }
        }
        proof {
            assert forall|j: int| 0 <= j < i + 1 && live(#[trigger] old_s[j].1@, now) implies exists|a: int| 0 <= a < origin.len() && origin[a] == j by {
                if j < i {
                    let a = choose|a: int| 0 <= a < old_origin.len() && old_origin[a] == j;
                    assert(origin[a] == j);
                } else {
                    assert(origin[origin.len() - 1] == i);
                }
            }
        }
        proof {
            assert forall|j: int| i + 1 <= j < n implies src@[j] == old_s[j] by {
                assert(src@[j] == before[j]);
            }
        }
        i = i + 1;
    }
    proof {
        assert forall|a: int, b: int| 0 <= a < b < out@.len() implies (#[trigger] out@[a]).0 != (#[trigger] out@[b]).0 by {
            assert(origin[a] < origin[b]);
        }
        let om = table_map(old_s);
        let nm = table_map(out@);
        assert forall|k: PeerIp| #[trigger] nm.contains_key(k) == pruned(om, now).contains_key(k) by {
            if table_has(out@, k) {
                let a = table_index(out@, k);
                lemma_table_entry(old_s, origin[a]);
            }
            if om.contains_key(k) && live(om[k], now) {
                let j = table_index(old_s, k);
                lemma_table_entry(old_s, j);
                let a = choose|a: int| 0 <= a < origin.len() && origin[a] == j;
                assert(out@[a].0 == k);
            }
        }
        assert forall|k: PeerIp| #[trigger] nm.contains_key(k) implies nm[k] == pruned(om, now)[k] by {
            let a = table_index(out@, k);
            lemma_table_entry(out@, a);
            lemma_table_entry(old_s, origin[a]);
        }
        assert(nm =~= pruned(om, now));
    }
    out
}

impl AuthLimiter {
    #[verifier::type_invariant]
    closed spec fn inv(&self) -> bool {
        table_wf(self.peers@)
    }

    /// The failure history of every tracked peer.
    pub closed spec fn map(&self) -> Map<PeerIp, BucketView> {
        table_map(self.peers@)
    }

    /// How many peers are tracked.
    pub closed spec fn count(&self) -> nat {
        self.peers@.len()
    }

    pub fn new() -> (r: Self)
        ensures
            r.map() == Map::<PeerIp, BucketView>::empty(),
            r.count() == 0,
    {
        let r = AuthLimiter { origin: instant_now(), peers: Vec::new() };
        assert(r.map() =~= Map::<PeerIp, BucketView>::empty());
        r
    }

    /// Nanoseconds since the limiter was made (readings past
    /// [`CLOCK_LIMIT_NS`], some 580 years on, stay there).
    pub fn now(&self) -> (r: u64)
        ensures
            r <= CLOCK_LIMIT_NS,
    {
        let t = elapsed_nanos(&self.origin);
        if t > CLOCK_LIMIT_NS {
            CLOCK_LIMIT_NS
        } else {
            t
        }
    }

    /// Remaining lock time of `ip` now, if it is locked.
    pub fn blocked(&mut self, ip: PeerIp) -> (r: Option<u64>)
        ensures
            exists|now: u64|
                now <= CLOCK_LIMIT_NS && (final(self).map(), r) == check_step(
                    swept(old(self).count(), old(self).map(), now),
                    ip,
                    now,
                ),
    {
        let now = self.now();
        self.blocked_at(ip, now)
    }

    /// Remaining lock time of `ip` at `now`, if it is locked. Sweeps idle
    /// peers first when the table is large; an expired lock is lifted and
    /// the peer's history cleared.
    pub fn blocked_at(&mut self, ip: PeerIp, now: u64) -> (r: Option<u64>)
        ensures
            (final(self).map(), r) == check_step(swept(old(self).count(), old(self).map(), now), ip, now),
            final(self).count() <= old(self).count(),
    {
        proof {
            use_type_invariant(&*self);
        }
        let mut peers: Vec<(PeerIp, Bucket)> = Vec::new();
        std::mem::swap(&mut peers, &mut self.peers);
        let ghost m0 = table_map(peers@);
        let ghost c0 = peers@.len();
        if peers.len() > PRUNE_ABOVE {
            peers = prune_peers(peers, now);
        }
        let ghost m1 = table_map(peers@);
        assert(m1 == swept(c0, m0, now));
        match find_peer(&peers, ip) {
            None => {
                self.peers = peers;
                None
            },
            Some(i) => {
                proof {
                    lemma_table_entry(peers@, i as int);
                }
                match peers[i].1.locked_until {
                    None => {
                        self.peers = peers;
                        None
                    },
                    Some(until) => {
                        if until > now {
                            self.peers = peers;
                            Some(until - now)
                        } else {
                            let ghost before = peers@;
                            peers.set(i, (ip, Bucket { failures: Vec::new(), locked_until: None }));
                            proof {
                                let s = peers@;
                                assert(s =~= before.update(i as int, s[i as int]));
                                assert(table_wf(s)) by {
                                    assert forall|a: int, b: int| 0 <= a < b < s.len() implies (#[trigger] s[a]).0 != (#[trigger] s[b]).0 by {
                                        assert(before[a].0 == s[a].0 && before[b].0 == s[b].0);
                                    }
                                }
                                let fb = fresh_bucket();
                                assert(s[i as int].1@ == fb) by {
                                    assert(s[i as int].1@.failures =~= fb.failures);
                                }
                                assert forall|k: PeerIp| #[trigger] table_map(s).contains_key(k) == m1.insert(ip, fb).contains_key(k) by {
                                    if table_has(s, k) {
                                        let a = table_index(s, k);
                                        assert(before[a].0 == k);
                                    }
                                    if table_has(before, k) {
                                        let a = table_index(before, k);
                                        assert(s[a].0 == k);
                                    }
                                }
                                assert forall|k: PeerIp| #[trigger] table_map(s).contains_key(k) implies table_map(s)[k] == m1.insert(ip, fb)[k] by {
                                    let a = table_index(s, k);
                                    lemma_table_entry(s, a);
                                    if a != i {
                                        lemma_table_entry(before, a);
                                    }
                                }
                                assert(table_map(s) =~= m1.insert(ip, fb));
                            }
                            self.peers = peers;
                            None
                        }
                    },
                }
            },
        }
    }

    /// Records a failed attempt by `ip` now.
    pub fn fail(&mut self, ip: PeerIp)
        ensures
            exists|now: u64| now <= CLOCK_LIMIT_NS && final(self).map() == fail_step(old(self).map(), ip, now),
    {
        let now = self.now();
        self.fail_at(ip, now);
    }

    /// Records a failed attempt by `ip` at `now`.
    pub fn fail_at(&mut self, ip: PeerIp, now: u64)
        requires
            now <= CLOCK_LIMIT_NS,
        ensures
            final(self).map() == fail_step(old(self).map(), ip, now),
            final(self).count() == old(self).count() + if old(self).map().contains_key(ip) {
                0int
            } else {
                1int
            },
    {
        proof {
            use_type_invariant(&*self);
        }
        let mut peers: Vec<(PeerIp, Bucket)> = Vec::new();
        std::mem::swap(&mut peers, &mut self.peers);
        let ghost before = peers@;
        let ghost m0 = table_map(before);
        let found = find_peer(&peers, ip);
        let (idx, prev_failures, prev_lock) = match found {
            Some(i) => {
                proof {
                    lemma_table_entry(before, i as int);
                }
                (i, keep_recent(&peers[i].1.failures, now), peers[i].1.locked_until)
            },
            None => {
                let n = peers.len();
                (n, Vec::new(), None)
            },
        };
        let ghost b0 = bucket_of(m0, ip);
        assert(prev_failures@ == recent(b0.failures, now)) by {
            if found is None {
                assert(b0.failures =~= Seq::<u64>::empty());
                assert(recent(Seq::<u64>::empty(), now) =~= Seq::<u64>::empty());
            }
        }
        let mut failures = prev_failures;
        failures.push(now);
        let count = failures.len();
        let locked_until = if #[verifier::truncate] (count as u32) >= FAIL_LIMIT {
            Some(now + LOCKOUT_NS)
        } else {
            prev_lock
        };
        let bucket = Bucket { failures, locked_until };
        let ghost nb = after_failure(b0, now);
        assert(bucket@ == nb) by {
            assert(bucket@.failures =~= nb.failures);
        }
        if found.is_some() {
            peers.set(idx, (ip, bucket));
        } else {
            peers.push((ip, bucket));
        }
        proof {
            let s = peers@;
            if found is Some {
                assert(s =~= before.update(idx as int, s[idx as int]));
            } else {
                assert(s =~= before.push(s[idx as int]));
            }
            assert(table_wf(s)) by {
                assert forall|a: int, b: int| 0 <= a < b < s.len() implies (#[trigger] s[a]).0 != (#[trigger] s[b]).0 by {
                    if found is Some {
                        assert(before[a].0 == s[a].0 && before[b].0 == s[b].0);
                    } else if b < before.len() {
                        assert(before[a] == s[a] && before[b] == s[b]);
                    } else {
                        assert(before[a] == s[a]);
                        assert(!table_has(before, ip));
                    }
                }
            }
            assert forall|k: PeerIp| #[trigger] table_map(s).contains_key(k) == m0.insert(ip, nb).contains_key(k) by {
                if table_has(s, k) {
                    let a = table_index(s, k);
                    if a != idx {
                        assert(before[a].0 == k);
                    }
                }
                if table_has(before, k) {
                    let a = table_index(before, k);
                    assert(s[a].0 == k);
                }
            }
            assert forall|k: PeerIp| #[trigger] table_map(s).contains_key(k) implies table_map(s)[k] == m0.insert(ip, nb)[k] by {
                let a = table_index(s, k);
                lemma_table_entry(s, a);
                if a != idx {
                    lemma_table_entry(before, a);
                }
            }
            assert(table_map(s) =~= m0.insert(ip, nb));
        }
        self.peers = peers;
    }
}

/// `"Bearer "`.
pub open spec fn bearer_scheme() -> Seq<char> {
    seq!['B', 'e', 'a', 'r', 'e', 'r', ' ']
}

/// `"access_token="`.
pub open spec fn token_param() -> Seq<char> {
    seq!['a', 'c', 'c', 'e', 's', 's', '_', 't', 'o', 'k', 'e', 'n', '=']
}

/// The secret of an `Authorization` header value, if it is a non-empty
/// bearer credential.
pub open spec fn header_secret(h: Seq<char>) -> Option<Seq<char>> {
    if has_prefix(h, bearer_scheme()) && h.len() > 7 {
        Some(h.skip(7))
    } else {
        None
    }
}

/// Index of the first `&` at or after `i`, or the length.
pub open spec fn next_amp(q: Seq<char>, i: int) -> int
    decreases q.len() - i,
{
    if i >= q.len() {
        q.len() as int
    } else if q[i] == '&' {
        i
    } else {
        next_amp(q, i + 1)
    }
}

/// The first non-empty `access_token=` value among the `&`-separated
/// pairs of `q` from position `start`.
pub open spec fn query_secret_from(q: Seq<char>, start: int) -> Option<Seq<char>>
    decreases q.len() - start,
{
    if start > q.len() || start < 0 {
        None
    } else {
        let end = next_amp(q, start);
        let pair = q.subrange(start, end);
        if has_prefix(pair, token_param()) && pair.len() > 13 {
            Some(q.subrange(start + 13, end))
        } else if end >= q.len() {
            None
        } else {
            proof {
                lemma_next_amp(q, start);
            }
            query_secret_from(q, end + 1)
        }
    }
}

/// Where a request's bearer secret comes from: the `Authorization` header
/// first, else the query string's `access_token`.
pub open spec fn presented_secret(header: Option<Seq<char>>, query: Option<Seq<char>>) -> Option<
    Seq<char>,
> {
    let from_header = match header {
        Some(h) => header_secret(h),
        None => None,
    };
    match from_header {
        Some(s) => Some(s),
        None => query_secret_from(
            match query {
                Some(q) => q,
                None => Seq::empty(),
            },
            0,
        ),
    }
}

pub proof fn lemma_next_amp(q: Seq<char>, i: int)
    requires
        0 <= i <= q.len(),
    ensures
        i <= next_amp(q, i) <= q.len(),
        forall|j: int| i <= j < next_amp(q, i) ==> q[j] != '&',
        next_amp(q, i) < q.len() ==> q[next_amp(q, i)] == '&',
    decreases q.len() - i,
{
    if i < q.len() && q[i] != '&' {
        lemma_next_amp(q, i + 1);
    }
}

fn has_prefix_at(s: &str, start: usize, end: usize, lit: &str) -> (r: bool)
    requires
        start <= end <= s@.len(),
    ensures
        r == has_prefix(s@.subrange(start as int, end as int), lit@),
{
    let ghost p = lit@;
    let m = lit.unicode_len();
    if m > end - start {
        return false;
    }
    let mut i: usize = 0;
    while i < m
        invariant
            m == p.len(),
            lit@ == p,
            m <= end - start,
            start <= end <= s@.len(),
            i <= m,
            forall|j: int| 0 <= j < i ==> s@[start + j] == p[j],
        decreases m - i,
    {
        if s.get_char(start + i) != lit.get_char(i) {
            assert(s@.subrange(start as int, end as int).subrange(0, m as int)[i as int] != p[i as int]);
            return false;
        }
        i = i + 1;
    }
    assert(s@.subrange(start as int, end as int).subrange(0, m as int) =~= p);
    true
}

/// The bearer secret a request presents: a non-empty `Bearer ` credential
/// in the `Authorization` header, else the first non-empty `access_token`
/// in the query string.
pub fn bearer_secret(authorization: Option<&str>, query: Option<&str>) -> (r: Option<String>)
    ensures
        r is Some == presented_secret(opt_chars(authorization), opt_chars(query)) is Some,
        r matches Some(s) ==> Some(s@) == presented_secret(opt_chars(authorization), opt_chars(query)),
{
    proof {
        reveal_strlit("Bearer ");
        reveal_strlit("access_token=");
    }
    assert("Bearer "@ =~= bearer_scheme());
    assert("access_token="@ =~= token_param());
    if let Some(raw) = authorization {
        let n = raw.unicode_len();
        if has_prefix_at(raw, 0, n, "Bearer ") && n > 7 {
            assert(raw@.subrange(0, n as int) =~= raw@);
            let secret = raw.substring_char(7, n);
            assert(secret@ =~= raw@.skip(7));
            return Some(String::from_str(secret));
        }
        assert(raw@.subrange(0, n as int) =~= raw@);
    }
    let q: &str = match query {
        Some(q) => q,
        None => "",
    };
    proof {
        reveal_strlit("");
    }
    let ghost qs = q@;
    assert(qs =~= match query {
        Some(x) => x@,
        None => Seq::<char>::empty(),
    });
    let ghost target = presented_secret(
        match authorization {
            Some(h) => Some(h@),
            None => None,
        },
        match query {
            Some(x) => Some(x@),
            None => None,
        },
    );
    assert(target == query_secret_from(qs, 0));
    let n = q.unicode_len();
    let mut start: usize = 0;
    loop
        invariant
            n == qs.len(),
            qs == q@,
            start <= n,
            "access_token="@ == token_param(),
            target == query_secret_from(qs, start as int),
            target == presented_secret(
                match authorization {
                    Some(h) => Some(h@),
                    None => None,
                },
                match query {
                    Some(x) => Some(x@),
                    None => None,
                },
            ),
        decreases n - start,
    {
        let mut end = start;
        while end < n && q.get_char(end) != '&'
            invariant
                n == qs.len(),
                qs == q@,
                start <= end <= n,
                next_amp(qs, start as int) == next_amp(qs, end as int),
            decreases n - end,
        {
            end = end + 1;
        }
        proof {
            lemma_next_amp(qs, end as int);
        }
        assert(next_amp(qs, start as int) == end);
        if has_prefix_at(q, start, end, "access_token=") && end - start > 13 {
            let v = q.substring_char(start + 13, end);
            proof {
                let pair = qs.subrange(start as int, end as int);
                assert(query_secret_from(qs, start as int) == Some(qs.subrange(start + 13, end as int)));
            }
            return Some(String::from_str(v));
        }
        if end >= n {
            return None;
        }
        start = end + 1;
    }
}

/// Why a request was refused.
#[derive(Debug, Clone, Copy, PartialEq, Eq, Structural)]
pub enum Denial {
    /// The peer is locked out.
    TooManyAttempts,
    /// No bearer secret was presented.
    MissingAuthorization,
    /// The token files could not be read.
    StoreUnreadable,
    /// The secret matches no token.
    InvalidToken,
    /// The token lacks the required scope.
    InsufficientScope,
}

pub open spec fn denial_status(d: Denial) -> u16 {
    match d {
        Denial::TooManyAttempts => 429,
        Denial::MissingAuthorization => 401,
        Denial::StoreUnreadable => 500,
        Denial::InvalidToken => 401,
        Denial::InsufficientScope => 403,
    }
}

pub open spec fn denial_message(d: Denial) -> Seq<char> {
    match d {
        Denial::TooManyAttempts => "too many failed auth attempts"@,
        Denial::MissingAuthorization => "missing authorization"@,
        Denial::StoreUnreadable => "token store unreadable"@,
        Denial::InvalidToken => "invalid token"@,
        Denial::InsufficientScope => "insufficient scope"@,
    }
}

impl Denial {
    /// The HTTP status the API answers with.
    pub fn status(self) -> (r: u16)
        ensures
            r == denial_status(self),
    {
        match self {
            Denial::TooManyAttempts => 429,
            Denial::MissingAuthorization => 401,
            Denial::StoreUnreadable => 500,
            Denial::InvalidToken => 401,
            Denial::InsufficientScope => 403,
        }
    }

    /// The response text.
    pub fn message(self) -> (r: &'static str)
        ensures
            r@ == denial_message(self),
    {
        match self {
            Denial::TooManyAttempts => "too many failed auth attempts",
            Denial::MissingAuthorization => "missing authorization",
            Denial::StoreUnreadable => "token store unreadable",
            Denial::InvalidToken => "invalid token",
            Denial::InsufficientScope => "insufficient scope",
        }
    }
}

/// How a loaded token store judges `secret` for `required`.
pub open spec fn store_verdict(secrets: Map<Seq<char>, TokenView>, secret: Seq<char>, required: Scope) -> Result<TokenView, Denial> {
    match authorize_outcome(secrets, secret, required) {
        Ok(v) => Ok(v),
        Err(AuthFail::Unauthorized) => Err(Denial::InvalidToken),
        Err(AuthFail::Forbidden) => Err(Denial::InsufficientScope),
    }
}

/// Judges `secret` against a loaded store.
pub fn check_token(store: &TokenStore, secret: &str, required: Scope) -> (r: Result<TokenRecord, Denial>)
    ensures
        match store_verdict(store.secrets(), secret@, required) {
            Ok(v) => r matches Ok(rec) && rec@ == v,
            Err(d) => r matches Err(e) && e == d,
        },
        r matches Ok(rec) ==> rec.secret@ == secret@ && grants(rec.scopes@, required),
{
    match store.authorize(secret, required) {
        Ok(rec) => Ok(rec.duplicate()),
        Err(AuthFail::Unauthorized) => Err(Denial::InvalidToken),
        Err(AuthFail::Forbidden) => Err(Denial::InsufficientScope),
    }
}

/// `r` is the answer `v` describes: the token it names, or the same denial.
pub open spec fn verdict_is(r: Result<TokenRecord, Denial>, v: Result<TokenView, Denial>) -> bool {
    match v {
        Ok(view) => r matches Ok(rec) && rec@ == view,
        Err(d) => r == Err::<TokenRecord, Denial>(d),
    }
}

/// No usable secret was presented.
pub open spec fn absent(secret: Option<Seq<char>>) -> bool {
    match secret {
        None => true,
        Some(s) => s.len() == 0,
    }
}

/// The characters of an optional string.
pub open spec fn opt_chars(s: Option<&str>) -> Option<Seq<char>> {
    match s {
        Some(t) => Some(t@),
        None => None,
    }
}

/// A request from `ip` presenting `secret` at `now` gets past the lockout
/// and presents a secret, so the token store is to be read; with the table
/// `before` of `count` peers.
pub open spec fn admitted(
    before: Map<PeerIp, BucketView>,
    count: nat,
    ip: PeerIp,
    secret: Option<Seq<char>>,
    now: u64,
) -> bool {
    check_step(swept(count, before, now), ip, now).1 is None && !absent(secret)
}

/// What authenticating `secret` from `ip` for `required` at `now` answers
/// (`r`) and leaves in the failure table (`after`), starting from table
/// `before` of `count` peers and reading token files through `load`. A
/// locked-out peer is refused before anything else; a missing secret, or
/// one that matches no token, counts as a failure; the token files are read
/// from the tokens directory only when a secret is presented and the peer
/// is not locked, and the loaded store decides the answer.
pub open spec fn authorize_effect<F: FnOnce(&str) -> Result<TokenStore, TokenError>>(
    paths: Paths,
    before: Map<PeerIp, BucketView>,
    count: nat,
    ip: PeerIp,
    secret: Option<Seq<char>>,
    required: Scope,
    now: u64,
    load: F,
    r: Result<TokenRecord, Denial>,
    after: Map<PeerIp, BucketView>,
) -> bool {
    let (m1, lock) = check_step(swept(count, before, now), ip, now);
    &&& lock is Some ==> r == Err::<TokenRecord, Denial>(Denial::TooManyAttempts) && after == m1
    &&& lock is None && absent(secret) ==> r == Err::<TokenRecord, Denial>(
        Denial::MissingAuthorization,
    ) && after == fail_step(m1, ip, now)
    &&& lock is None && !absent(secret) ==> {
        ||| r == Err::<TokenRecord, Denial>(Denial::StoreUnreadable) && after == m1
            && exists|d: &str, e: TokenError| d@ == path_join(paths.tls_dir@, "tokens"@)
                && load.ensures((d,), Err::<TokenStore, TokenError>(e))
        ||| exists|d: &str, store: TokenStore| {
            &&& d@ == path_join(paths.tls_dir@, "tokens"@)
            &&& load.ensures((d,), Ok::<TokenStore, TokenError>(store))
            &&& verdict_is(r, store_verdict(store.secrets(), secret->0, required))
            &&& after == if r == Err::<TokenRecord, Denial>(Denial::InvalidToken) {
                fail_step(m1, ip, now)
            } else {
                m1
            }
        }
    }
}

/// Authenticates a request from `ip` presenting `secret` for `required`
/// at `now` (see [`authorize_effect`]). `load` reads the token store; the
/// body may call it only on the tokens directory and only when the request
/// is [`admitted`], which is all that `requires` asks of it, so a locked-out
/// or secretless request never reads the store.
pub fn authorize_at<F>(
    paths: &Paths,
    limiter: &mut AuthLimiter,
    ip: PeerIp,
    secret: Option<&str>,
    required: Scope,
    now: u64,
    load: F,
) -> (r: Result<TokenRecord, Denial>) where F: FnOnce(&str) -> Result<TokenStore, TokenError>
    requires
        now <= CLOCK_LIMIT_NS,
        forall|d: &str|
            d@ == path_join(paths.tls_dir@, "tokens"@) && #[trigger] admitted(
                old(limiter).map(),
                old(limiter).count(),
                ip,
                opt_chars(secret),
                now,
            ) ==> load.requires((d,)),
    ensures
        authorize_effect(*paths, old(limiter).map(), old(limiter).count(), ip, opt_chars(secret), required, now, load, r, final(limiter).map()),
        r matches Ok(rec) ==> secret matches Some(s) && rec.secret@ == s@ && grants(rec.scopes@, required),
{
    if limiter.blocked_at(ip, now).is_some() {
        return Err(Denial::TooManyAttempts);
    }
    let s = match secret {
        None => {
            limiter.fail_at(ip, now);
            return Err(Denial::MissingAuthorization);
        },
        Some(s) => s,
    };
    if s.unicode_len() == 0 {
        limiter.fail_at(ip, now);
        return Err(Denial::MissingAuthorization);
    }
    let dir = paths.tokens_dir();
    let d = dir.as_str();
    let loaded = load(d);
    let store = match loaded {
        Err(e) => {
            assert(load.ensures((d,), Err::<TokenStore, TokenError>(e)));
            return Err(Denial::StoreUnreadable);
        },
        Ok(store) => store,
    };
    assert(load.ensures((d,), Ok::<TokenStore, TokenError>(store)));
    let verdict = check_token(&store, s, required);
    if let Err(Denial::InvalidToken) = verdict {
        limiter.fail_at(ip, now);
    }
    verdict
}

/// [`authorize_at`] at the limiter's current clock reading.
pub fn authorize<F>(
    paths: &Paths,
    limiter: &mut AuthLimiter,
    ip: PeerIp,
    secret: Option<&str>,
    required: Scope,
    load: F,
) -> (r: Result<TokenRecord, Denial>) where F: FnOnce(&str) -> Result<TokenStore, TokenError>
    requires
        forall|d: &str, t: u64|
            #![trigger load.requires((d,)), admitted(old(limiter).map(), old(limiter).count(), ip, opt_chars(secret), t)]
            d@ == path_join(paths.tls_dir@, "tokens"@) && admitted(
                old(limiter).map(),
                old(limiter).count(),
                ip,
                opt_chars(secret),
                t,
            ) ==> load.requires((d,)),
    ensures
        exists|now: u64| now <= CLOCK_LIMIT_NS && #[trigger] authorize_effect(
            *paths,
            old(limiter).map(),
            old(limiter).count(),
            ip,
            opt_chars(secret),
            required,
            now,
            load,
            r,
            final(limiter).map(),
        ),
        r matches Ok(rec) ==> secret matches Some(s) && rec.secret@ == s@ && grants(rec.scopes@, required),
{
    let now = limiter.now();
    authorize_at(paths, limiter, ip, secret, required, now, load)
}

/// The token of a caller authorized with `read` scope.
pub struct ReadAuth(pub TokenRecord);

/// The token of a caller authorized with `control` scope.
pub struct ControlAuth(pub TokenRecord);

/// The token of a caller authorized with `admin` scope.
pub struct AdminAuth(pub TokenRecord);

/// Authenticates a request for `required` from its peer address `ip`, its
/// `Authorization` header and its query string: the secret they present
/// (see [`bearer_secret`]) is judged as [`authorize`] judges it.
pub fn extract<F>(
    paths: &Paths,
    limiter: &mut AuthLimiter,
    ip: PeerIp,
    authorization: Option<&str>,
    query: Option<&str>,
    required: Scope,
    load: F,
) -> (r: Result<TokenRecord, Denial>) where F: FnOnce(&str) -> Result<TokenStore, TokenError>
    requires
        forall|d: &str, t: u64|
            #![trigger load.requires((d,)), admitted(old(limiter).map(), old(limiter).count(), ip, presented_secret(opt_chars(authorization), opt_chars(query)), t)]
            d@ == path_join(paths.tls_dir@, "tokens"@) && admitted(
                old(limiter).map(),
                old(limiter).count(),
                ip,
                presented_secret(opt_chars(authorization), opt_chars(query)),
                t,
            ) ==> load.requires((d,)),
    ensures
        exists|now: u64| now <= CLOCK_LIMIT_NS && #[trigger] authorize_effect(
            *paths,
            old(limiter).map(),
            old(limiter).count(),
            ip,
            presented_secret(opt_chars(authorization), opt_chars(query)),
            required,
            now,
            load,
            r,
            final(limiter).map(),
        ),
{
    match bearer_secret(authorization, query) {
        Some(s) => authorize(paths, limiter, ip, Some(s.as_str()), required, load),
        None => authorize(paths, limiter, ip, None, required, load),
    }
}

/// Query parameters of an event-stream upgrade request.
pub struct WsQuery {
    pub access_token: Option<String>,
}

/// The secret an event-stream upgrade presents: a bearer credential in
/// the `Authorization` header, else the `access_token` query parameter as
/// given.
pub fn ws_secret(authorization: Option<&str>, query: WsQuery) -> (r: Option<String>)
    ensures
        opt_view(r) == match presented_secret(opt_chars(authorization), None) {
            Some(s) => Some(s),
            None => opt_view(query.access_token),
        },
{
    match bearer_secret(authorization, None) {
        Some(s) => Some(s),
        None => query.access_token,
    }
}

/// Failure times all inside the window are all kept.
pub proof fn lemma_recent_keeps_window(s: Seq<u64>, now: u64)
    requires
        forall|i: int| 0 <= i < s.len() ==> in_window(now, #[trigger] s[i]),
    ensures
        recent(s, now) == s,
    decreases s.len(),
{
    if s.len() > 0 {
        lemma_recent_keeps_window(s.drop_last(), now);
        assert(s.drop_last().push(s.last()) =~= s);
    }
}

/// Forgetting stale failures at an earlier moment and again at a later one
/// forgets what forgetting once at the later moment does.
pub proof fn lemma_recent_twice(s: Seq<u64>, t1: u64, t2: u64)
    requires
        t1 <= t2,
    ensures
        recent(recent(s, t1), t2) == recent(s, t2),
    decreases s.len(),
{
    if s.len() > 0 {
        let x = s.last();
        let rest = s.drop_last();
        lemma_recent_twice(rest, t1, t2);
        if in_window(t1, x) {
            assert(recent(rest, t1).push(x).drop_last() =~= recent(rest, t1));
        }
    }
}

/// Successive failures of one peer with no history, at non-decreasing
/// times `ts` (the table after each is `ms[i + 1]`): after each failure the
/// peer's history is exactly its failures inside the window ending then,
/// and it is locked for the lockout from then exactly when those number at
/// least the limit; fewer leave its lock as it was. Failures older than the
/// window never count, whenever they happened.
pub proof fn law_windowed_failures_lock(ip: PeerIp, ts: Seq<u64>, ms: Seq<Map<PeerIp, BucketView>>)
    requires
        ms.len() == ts.len() + 1,
        !ms[0].contains_key(ip),
        forall|i: int, j: int| 0 <= i <= j < ts.len() ==> ts[i] <= ts[j],
        forall|i: int| 0 <= i < ts.len() ==> #[trigger] ms[i + 1] == fail_step(ms[i], ip, ts[i]),
    ensures
        forall|i: int| 0 <= i < ts.len() ==> (#[trigger] ms[i + 1][ip]).failures == recent(ts.take(i + 1), ts[i]),
        forall|i: int| 0 <= i < ts.len() ==> (#[trigger] ms[i + 1][ip]).locked_until == if (recent(ts.take(i + 1), ts[i]).len() as u32) >= FAIL_LIMIT {
            Some((ts[i] + LOCKOUT_NS) as u64)
        } else {
            bucket_of(ms[i], ip).locked_until
        },
    decreases ts.len(),
{
    if ts.len() > 0 {
        let k = ts.len() - 1;
        law_windowed_failures_lock(ip, ts.drop_last(), ms.drop_last());
        assert forall|i: int| 0 <= i < ts.len() implies (#[trigger] ms[i + 1][ip]).failures == recent(ts.take(i + 1), ts[i]) by {
            if i < k {
                assert(ts.drop_last().take(i + 1) =~= ts.take(i + 1));
                assert(ms.drop_last()[i + 1] == ms[i + 1]);
                assert(ms.drop_last()[i] == ms[i]);
            } else {
                assert(ms[i + 1] == fail_step(ms[i], ip, ts[i]));
                if i == 0 {
                    assert(bucket_of(ms[0], ip) == fresh_bucket());
                    assert(ts.take(1) =~= Seq::<u64>::empty().push(ts[0]));
                    assert(ts.take(1).drop_last() =~= Seq::<u64>::empty());
                } else {
                    assert(ts.drop_last().take(i) =~= ts.take(i));
                    assert(ms.drop_last()[i] == ms[i]);
                    let j = i - 1;
                    assert(ms[j + 1] == fail_step(ms[j], ip, ts[j]));
                    assert(ms.drop_last()[j + 1][ip].failures == recent(ts.drop_last().take(j + 1), ts.drop_last()[j]));
                    assert(ms[i][ip].failures == recent(ts.take(i), ts[i - 1]));
                    lemma_recent_twice(ts.take(i), ts[i - 1], ts[i]);
                    assert(ts.take(i + 1).drop_last() =~= ts.take(i));
                    assert(since(ts[i], ts[i]) == 0);
                }
            }
        }
        assert forall|i: int| 0 <= i < ts.len() implies (#[trigger] ms[i + 1][ip]).locked_until == if (recent(ts.take(i + 1), ts[i]).len() as u32) >= FAIL_LIMIT {
            Some((ts[i] + LOCKOUT_NS) as u64)
        } else {
            bucket_of(ms[i], ip).locked_until
        } by {
            assert(ms[i + 1] == fail_step(ms[i], ip, ts[i]));
            assert(ms[i + 1][ip].failures == recent(ts.take(i + 1), ts[i]));
        }
    }
}

/// A locked peer stays locked until its lock ends, whatever happens in
/// between: at any moment `t` before the end `u` of a lock set no earlier
/// than one lockout before `t`, a sweep keeps its entry, a check of it
/// answers the time left and changes nothing, a check of any peer leaves its
/// lock in place, and a failure of any peer (itself included) leaves it
/// locked until `u` or later.
pub proof fn law_lock_persists(
    m: Map<PeerIp, BucketView>,
    count: nat,
    ip: PeerIp,
    other: PeerIp,
    u: u64,
    t: u64,
)
    requires
        m.contains_key(ip),
        m[ip].locked_until == Some(u),
        t < u,
        u <= t + LOCKOUT_NS,
        t <= CLOCK_LIMIT_NS,
    ensures
        swept(count, m, t).contains_key(ip),
        swept(count, m, t)[ip] == m[ip],
        check_step(swept(count, m, t), ip, t) == (swept(count, m, t), Some((u - t) as u64)),
        check_step(swept(count, m, t), other, t).0.contains_key(ip),
        check_step(swept(count, m, t), other, t).0[ip].locked_until == Some(u),
        fail_step(m, other, t)[ip].locked_until matches Some(v) && v >= u,
{
    assert(live(m[ip], t));
    let sw = swept(count, m, t);
    assert(sw.contains_key(ip) && sw[ip] == m[ip]);
    if other != ip && sw.contains_key(other) {
        if let Some(v) = sw[other].locked_until {
            if v <= t {
                assert(sw.insert(other, fresh_bucket())[ip] == m[ip]);
            }
        }
    }
}

/// A failure that brings a peer's windowed count to the limit locks it for
/// the whole lockout: every check within it, however large the table and
/// whether or not it is swept, answers with the time left.
pub proof fn law_limit_locks_for_lockout(
    m: Map<PeerIp, BucketView>,
    ip: PeerIp,
    now: u64,
    count: nat,
    t: u64,
)
    requires
        now <= CLOCK_LIMIT_NS,
        (after_failure(bucket_of(m, ip), now).failures.len() as u32) >= FAIL_LIMIT,
        now <= t < now + LOCKOUT_NS,
    ensures
        check_step(swept(count, fail_step(m, ip, now), t), ip, t).1 == Some((now + LOCKOUT_NS - t) as u64),
{
    let m1 = fail_step(m, ip, now);
    assert(m1[ip].locked_until == Some((now + LOCKOUT_NS) as u64));
    assert(live(m1[ip], t));
    assert(swept(count, m1, t).contains_key(ip));
    assert(swept(count, m1, t)[ip] == m1[ip]);
}

/// A peer with no history that fails at five moments spanning no more than
/// the window is not locked after the first four failures and is locked
/// for the lockout from the fifth.
pub proof fn law_fifth_windowed_failure_locks(
    m: Map<PeerIp, BucketView>,
    ip: PeerIp,
    t0: u64,
    t1: u64,
    t2: u64,
    t3: u64,
    t4: u64,
)
    requires
        !m.contains_key(ip),
        t0 <= t1 <= t2 <= t3 <= t4 <= CLOCK_LIMIT_NS,
        t4 - t0 <= FAIL_WINDOW_NS,
    ensures
        ({
            let m1 = fail_step(m, ip, t0);
            let m2 = fail_step(m1, ip, t1);
            let m3 = fail_step(m2, ip, t2);
            let m4 = fail_step(m3, ip, t3);
            let m5 = fail_step(m4, ip, t4);
            &&& m1[ip].locked_until is None
            &&& m2[ip].locked_until is None
            &&& m3[ip].locked_until is None
            &&& m4[ip].locked_until is None
            &&& m5[ip].locked_until == Some((t4 + LOCKOUT_NS) as u64)
        }),
{
    let m1 = fail_step(m, ip, t0);
    assert(recent(Seq::<u64>::empty(), t0) =~= Seq::<u64>::empty());
    assert(m1[ip].failures =~= seq![t0]);
    let m2 = fail_step(m1, ip, t1);
    lemma_recent_keeps_window(seq![t0], t1);
    assert(m2[ip].failures =~= seq![t0, t1]);
    let m3 = fail_step(m2, ip, t2);
    lemma_recent_keeps_window(seq![t0, t1], t2);
    assert(m3[ip].failures =~= seq![t0, t1, t2]);
    let m4 = fail_step(m3, ip, t3);
    lemma_recent_keeps_window(seq![t0, t1, t2], t3);
    assert(m4[ip].failures =~= seq![t0, t1, t2, t3]);
    let m5 = fail_step(m4, ip, t4);
    lemma_recent_keeps_window(seq![t0, t1, t2, t3], t4);
    assert(m5[ip].failures =~= seq![t0, t1, t2, t3, t4]);
}

/// A request whose secret matches no token is answered 401, and so is one
/// that presents none.
pub proof fn law_unknown_or_missing_token_is_401(
    secrets: Map<Seq<char>, TokenView>,
    secret: Seq<char>,
    required: Scope,
)
    requires
        !secrets.contains_key(secret),
    ensures
        store_verdict(secrets, secret, required) == Err::<TokenView, Denial>(Denial::InvalidToken),
        denial_status(Denial::InvalidToken) == 401,
        denial_status(Denial::MissingAuthorization) == 401,
{
}

} // verus!
