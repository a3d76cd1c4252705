//! Pool configuration, the choice of driver by URL, pool saturation figures
//! and the choice of a read replica.
//!
//! Opening connections is left to the caller; this module decides which
//! driver a URL asks for, what a pool's figures mean, and which replica a
//! read goes to.
use std::time::Duration;

use vstd::prelude::*;

use crate::cache::nanos_of;
use crate::error::{find, find_str};

verus! {

/// `Duration` is `Copy`; its `clone` returns the same duration.
pub assume_specification[ <Duration as Clone>::clone ](d: &Duration) -> (r: Duration)
    ensures
        r == *d,
;

/// Configuration used to build a pool.
#[derive(Debug, Clone, PartialEq, Eq)]
#[non_exhaustive]
pub struct PoolConfig {
    /// Maximum connections held open by the pool.
    pub max_connections: u32,
    /// Connections kept warm while idle.
    pub min_connections: u32,
    /// Maximum time spent waiting to acquire a connection.
    pub acquire_timeout: Duration,
    /// Maximum idle connection duration; `None` keeps idle connections forever.
    pub idle_timeout: Option<Duration>,
    /// Maximum connection lifetime; `None` disables recycling by age.
    pub max_lifetime: Option<Duration>,
    /// Whether to test a connection before handing it out.
    pub test_before_acquire: bool,
    /// Whether to reset session state when a connection returns to the pool.
    pub reset_on_recycle: bool,
    /// Number of rows the SQLite driver buffers per prepared statement.
    pub row_buffer_size: u32,
    /// Maximum child-table rows loaded by one whole-table relation load;
    /// `None` disables the whole-table path.
    pub full_table_include_limit: Option<u64>,
    /// Duration above which a query is reported as slow; `None` disables it.
    pub slow_query_threshold: Option<Duration>,
}

/// A duration of `n` whole seconds, through `Duration::from_secs`: it holds
/// `n` times a billion nanoseconds.
#[verifier::external_body]
fn seconds(n: u64) -> (r: Duration)
    ensures
        nanos_of(r) == n * 1_000_000_000,
{
    Duration::from_secs(n)
}

impl Default for PoolConfig {
    /// Ten connections at most, none kept warm, thirty seconds to acquire,
    /// ten minutes idle, half an hour of life, no test before acquire, no
    /// reset on recycle, 1024 buffered rows, whole-table loads of up to
    /// 100 000 rows, and no slow-query threshold.
    fn default() -> (r: Self)
        ensures
            r.max_connections == 10,
            r.min_connections == 0,
            nanos_of(r.acquire_timeout) == 30_000_000_000u128,
            r.idle_timeout matches Some(d) && nanos_of(d) == 600_000_000_000u128,
            r.max_lifetime matches Some(d) && nanos_of(d) == 1_800_000_000_000u128,
            !r.test_before_acquire,
            !r.reset_on_recycle,
            r.row_buffer_size == 1024,
            r.full_table_include_limit == Some(100_000u64),
            r.slow_query_threshold is None,
    {
        PoolConfig {
            max_connections: 10,
            min_connections: 0,
            acquire_timeout: seconds(30),
            idle_timeout: Some(seconds(600)),
            max_lifetime: Some(seconds(1800)),
            test_before_acquire: false,
            reset_on_recycle: false,
            row_buffer_size: 1024,
            full_table_include_limit: Some(100_000),
            slow_query_threshold: None,
        }
    }
}

/// The driver a connection URL selects.
#[derive(Debug, Clone, Copy, PartialEq, Eq)]
pub enum Backend {
    /// `postgres://` and `postgresql://`.
    Postgres,
    /// `mysql://` and `mariadb://`.
    MySql,
    /// `sqlite://`.
    Sqlite,
    /// Anything else, through the generic driver.
    Any,
}

/// The scheme of a URL: what precedes its first `:`, or all of it.
pub open spec fn scheme_of(url: Seq<char>) -> Seq<char> {
    match find(url, ":"@) {
        Some(i) => url.take(i as int),
        None => url,
    }
}

/// The driver a URL scheme selects.
pub open spec fn backend_of(scheme: Seq<char>) -> Backend {
    if scheme == "postgres"@ || scheme == "postgresql"@ {
        Backend::Postgres
    } else if scheme == "mysql"@ || scheme == "mariadb"@ {
        Backend::MySql
    } else if scheme == "sqlite"@ {
        Backend::Sqlite
    } else {
        Backend::Any
    }
}

/// The scheme of `url`: what precedes its first `:`, or all of it.
pub fn url_scheme(url: &str) -> (r: &str)
    ensures
        r@ == scheme_of(url@),
{
    proof {
        reveal_strlit(":");
    }
    match find_str(url, ":") {
        Some(i) => url.substring_char(0, i),
        None => url,
    }
}

/// The driver that `url` selects by its scheme.
pub fn backend_for_url(url: &str) -> (r: Backend)
    ensures
        r == backend_of(scheme_of(url@)),
{
    let s = url_scheme(url);
    if crate::error::same_text(s, "postgres") || crate::error::same_text(s, "postgresql") {
        Backend::Postgres
    } else if crate::error::same_text(s, "mysql") || crate::error::same_text(s, "mariadb") {
        Backend::MySql
    } else if crate::error::same_text(s, "sqlite") {
        Backend::Sqlite
    } else {
        Backend::Any
    }
}

/// Whether the query string of a URL (what follows its first `?`) names
/// `marker`, such as `driver=rusqlite`.
pub open spec fn query_names(url: Seq<char>, marker: Seq<char>) -> bool {
    match find(url, "?"@) {
        Some(i) => find(url.skip((i + 1) as int), marker) is Some,
        None => false,
    }
}

/// Whether the query string of `url` names `marker`.
pub fn url_query_names(url: &str, marker: &str) -> (r: bool)
    ensures
        r == query_names(url@, marker@),
{
    proof {
        reveal_strlit("?");
    }
    let n = url.unicode_len();
    match find_str(url, "?") {
        Some(i) => {
            let q = url.substring_char(i + 1, n);
            proof {
                assert(q@ =~= url@.skip((i + 1) as int));
            }
            find_str(q, marker).is_some()
        },
        None => false,
    }
}

/// The message of the error a non-generic pool gives to generic queries.
pub fn not_any_message() -> (r: &'static str)
    ensures
        r@ == "this Pool variant does not support generic sqlx::Any queries; use the typed as_* accessors"@,
{
    "this Pool variant does not support generic sqlx::Any queries; use the typed as_* accessors"
}

/// Point-in-time pool saturation data for metrics endpoints.
#[derive(Debug, Clone, Copy, PartialEq, Eq)]
#[non_exhaustive]
pub struct PoolStats {
    /// Total connections currently held by the pool.
    pub size: u32,
    /// Connections immediately available for checkout.
    pub idle: usize,
    /// Connections currently checked out.
    pub in_use: usize,
    /// Connections waiting to be checked out.
    pub waiters: usize,
}

impl PoolStats {
    /// The figures of a pool that holds `size` connections, `idle` of them
    /// free, with `waiters` waiting: the others are in use (none when the
    /// idle count exceeds the size).
    pub fn from_counts(size: u32, idle: usize, waiters: usize) -> (r: Self)
        ensures
            r.size == size,
            r.idle == idle,
            r.waiters == waiters,
            r.in_use == if size >= idle {
                (size - idle) as usize
            } else {
                0usize
            },
    {
        PoolStats { size, idle, in_use: (size as usize).saturating_sub(idle), waiters }
    }
}

/// Load balancing strategy across read replica pools.
#[derive(Debug, Clone, Copy, PartialEq, Eq)]
pub enum LoadBalancing {
    /// Cycles requests across replicas sequentially.
    RoundRobin,
    /// Directs requests to the replica with the fewest active connections.
    LeastConnections,
    /// Selects a pseudo-random healthy replica.
    Random,
}

impl Default for LoadBalancing {
    fn default() -> (r: Self)
        ensures
            r == LoadBalancing::RoundRobin,
    {
        LoadBalancing::RoundRobin
    }
}

/// The positions of the healthy replicas, in order.
pub open spec fn healthy_positions(healthy: Seq<bool>) -> Seq<int>
    decreases healthy.len(),
{
    if healthy.len() == 0 {
        Seq::empty()
    } else {
        let p = healthy_positions(healthy.drop_last());
        if healthy.last() {
            p.push(healthy.len() - 1)
        } else {
            p
        }
    }
}

/// The first position of `h` whose replica has the fewest active connections.
pub open spec fn least_loaded(h: Seq<int>, active: Seq<usize>) -> int
    decreases h.len(),
{
    if h.len() <= 1 {
        0
    } else {
        let b = least_loaded(h.drop_last(), active);
        if active[h.last()] < active[h[b]] {
            h.len() - 1
        } else {
            b
        }
    }
}

/// The multiplier that scatters the request counter for random balancing.
pub open spec fn scatter(counter: usize) -> usize {
    ((counter as nat * 2654435761nat) % (usize::MAX as nat + 1)) as usize
}

/// Which of the healthy replicas (a position in `h`) serves a read.
pub open spec fn replica_pick(strategy: LoadBalancing, h: Seq<int>, active: Seq<usize>, counter: usize) -> int {
    match strategy {
        LoadBalancing::RoundRobin => (counter as int) % (h.len() as int),
        LoadBalancing::LeastConnections => least_loaded(h, active),
        LoadBalancing::Random => (scatter(counter) as int) % (h.len() as int),
    }
}

/// Whether a strategy draws a number from the request counter.
pub open spec fn draws_counter(strategy: LoadBalancing) -> bool {
    !(strategy is LeastConnections)
}

/// Whether a read under `strategy` advances the request counter.
pub fn uses_counter(strategy: LoadBalancing) -> (r: bool)
    ensures
        r == draws_counter(strategy),
{
    match strategy {
        LoadBalancing::LeastConnections => false,
        _ => true,
    }
}

/// The replica that serves a read, given which replicas are healthy, their
/// active connections, and the value the request counter had: `None` sends
/// the read to the primary, which happens when no replica is healthy.
pub fn select_replica_index(
    strategy: LoadBalancing,
    healthy: &[bool],
    active: &[usize],
    counter: usize,
) -> (r: Option<usize>)
    requires
        healthy@.len() == active@.len(),
    ensures
        healthy_positions(healthy@).len() == 0 ==> r is None,
        healthy_positions(healthy@).len() > 0 ==> r == Some(
            healthy_positions(healthy@)[replica_pick(
                strategy,
                healthy_positions(healthy@),
                active@,
                counter,
            )] as usize,
        ),
{
    let mut h: Vec<usize> = Vec::new();
    let mut i: usize = 0;
    proof {
        assert(healthy@.take(0) =~= Seq::<bool>::empty());
    }
    while i < healthy.len()
        invariant
            i <= healthy@.len(),
            h@.map_values(|j: usize| j as int) == healthy_positions(healthy@.take(i as int)),
            forall|k: int| 0 <= k < h@.len() ==> #[trigger] h@[k] < i,
        decreases healthy@.len() - i,
    {
        proof {
            assert(healthy@.take(i + 1).drop_last() =~= healthy@.take(i as int));
            assert(healthy@.take(i + 1).last() == healthy@[i as int]);
        }
        if healthy[i] {
            let ghost before = h@;
            h.push(i);
            proof {
                assert(h@.map_values(|j: usize| j as int) =~= before.map_values(|j: usize| j as int).push(
                    i as int,
                ));
            }
        }
        i = i + 1;
    }
    proof {
        assert(healthy@.take(healthy@.len() as int) =~= healthy@);
    }
    let ghost hs = h@.map_values(|j: usize| j as int);
    let count = h.len();
    if count == 0 {
        return None;
    }
    let pos = match strategy {
        LoadBalancing::RoundRobin => counter % count,
        LoadBalancing::Random => counter.wrapping_mul(2654435761) % count,
        LoadBalancing::LeastConnections => {
            let mut best: usize = 0;
            let mut k: usize = 1;
            proof {
                assert(hs.take(1).drop_last() =~= Seq::<int>::empty());
            }
            while k < count
                invariant
                    1 <= k <= count,
                    count == h@.len(),
                    hs == h@.map_values(|j: usize| j as int),
                    forall|m: int| 0 <= m < h@.len() ==> #[trigger] h@[m] < active@.len(),
                    best < k,
                    best == least_loaded(hs.take(k as int), active@),
                decreases count - k,
            {
                proof {
                    assert(hs.take(k + 1).drop_last() =~= hs.take(k as int));
                    assert(hs.take(k + 1).last() == h@[k as int] as int);
                    assert(hs.take(k + 1)[best as int] == h@[best as int] as int);
                }
                if active[h[k]] < active[h[best]] {
                    best = k;
                }
                k = k + 1;
            }
            proof {
                assert(hs.take(count as int) =~= hs);
            }
            best
        },
    };
    Some(h[pos])
}

/// Every listed position is a healthy replica.
proof fn lemma_healthy_positions(healthy: Seq<bool>)
    ensures
        forall|j: int|
            0 <= j < healthy_positions(healthy).len() ==> 0 <= #[trigger] healthy_positions(healthy)[j] < healthy.len()
                && healthy[healthy_positions(healthy)[j]],
    decreases healthy.len(),
{
    if healthy.len() > 0 {
        let init = healthy.drop_last();
        lemma_healthy_positions(init);
        let p = healthy_positions(init);
        assert forall|j: int| 0 <= j < healthy_positions(healthy).len() implies 0 <= #[trigger] healthy_positions(
            healthy,
        )[j] < healthy.len() && healthy[healthy_positions(healthy)[j]] by {
            if j < p.len() {
                assert(healthy_positions(healthy)[j] == p[j]);
                assert(init[p[j]] == healthy[p[j]]);
            }
        }
    }
}

/// The least-loaded pick is a position of the list.
proof fn lemma_least_loaded_in_range(h: Seq<int>, active: Seq<usize>)
    requires
        h.len() > 0,
    ensures
        0 <= least_loaded(h, active) < h.len(),
    decreases h.len(),
{
    if h.len() > 1 {
        lemma_least_loaded_in_range(h.drop_last(), active);
    }
}

/// Whatever the strategy and the counter, a read goes to a healthy replica
/// whenever there is one.
pub proof fn law_replica_is_healthy(strategy: LoadBalancing, healthy: Seq<bool>, active: Seq<usize>, counter: usize)
    requires
        healthy_positions(healthy).len() > 0,
    ensures
        ({
            let h = healthy_positions(healthy);
            let p = h[replica_pick(strategy, h, active, counter)];
            0 <= p < healthy.len() && healthy[p]
        }),
{
    let h = healthy_positions(healthy);
    lemma_healthy_positions(healthy);
    match strategy {
        LoadBalancing::LeastConnections => lemma_least_loaded_in_range(h, active),
        _ => {},
    }
    let i = replica_pick(strategy, h, active, counter);
    assert(0 <= i < h.len());
    assert(0 <= h[i] < healthy.len() && healthy[h[i]]);
}


/// Every healthy replica appears among the healthy positions.
proof fn lemma_healthy_positions_complete(healthy: Seq<bool>)
    ensures
        forall|j: int|
            0 <= j < healthy.len() && #[trigger] healthy[j] ==> exists|x: int|
                0 <= x < healthy_positions(healthy).len() && healthy_positions(healthy)[x] == j,
    decreases healthy.len(),
{
    if healthy.len() > 0 {
        let init = healthy.drop_last();
        lemma_healthy_positions_complete(init);
        let p = healthy_positions(init);
        assert forall|j: int| 0 <= j < healthy.len() && #[trigger] healthy[j] implies exists|x: int|
            0 <= x < healthy_positions(healthy).len() && healthy_positions(healthy)[x] == j by {
            if j < healthy.len() - 1 {
                assert(init[j] == healthy[j]);
                let x = choose|x: int| 0 <= x < p.len() && p[x] == j;
                assert(healthy_positions(healthy)[x] == j);
            } else {
                assert(healthy.last() == healthy[j]);
                assert(healthy_positions(healthy)[p.len() as int] == j);
            }
        }
    }
}

/// The healthy positions are listed in increasing order.
proof fn lemma_healthy_positions_increasing(healthy: Seq<bool>)
    ensures
        forall|a: int, b: int|
            0 <= a < b < healthy_positions(healthy).len() ==> #[trigger] healthy_positions(healthy)[a]
                < #[trigger] healthy_positions(healthy)[b],
    decreases healthy.len(),
{
    if healthy.len() > 0 {
        let init = healthy.drop_last();
        lemma_healthy_positions_increasing(init);
        lemma_healthy_positions(init);
        let p = healthy_positions(init);
        assert forall|a: int, b: int|
            0 <= a < b < healthy_positions(healthy).len() implies #[trigger] healthy_positions(healthy)[a]
                < #[trigger] healthy_positions(healthy)[b] by {
            assert(healthy_positions(healthy)[a] == p[a]);
            if b < p.len() {
                assert(healthy_positions(healthy)[b] == p[b]);
            } else {
                assert(healthy_positions(healthy)[b] == healthy.len() - 1);
                assert(0 <= p[a] < init.len());
            }
        }
    }
}

/// The least-loaded pick has no more active connections than any listed
/// replica, and strictly fewer than every one listed before it.
proof fn lemma_least_loaded_min(h: Seq<int>, active: Seq<usize>)
    requires
        h.len() > 0,
    ensures
        0 <= least_loaded(h, active) < h.len(),
        forall|i: int| 0 <= i < h.len() ==> active[h[least_loaded(h, active)]] <= #[trigger] active[h[i]],
        forall|i: int| 0 <= i < least_loaded(h, active) ==> active[h[least_loaded(h, active)]] < #[trigger] active[h[i]],
    decreases h.len(),
{
    if h.len() > 1 {
        let init = h.drop_last();
        lemma_least_loaded_min(init, active);
        let b0 = least_loaded(init, active);
        assert(forall|i: int| 0 <= i < init.len() ==> init[i] == h[i]);
        assert(h.last() == h[h.len() - 1]);
    }
}

/// Least-connections balancing sends a read to a healthy replica with the
/// fewest active connections among the healthy ones, the first such
/// replica when several tie.
pub proof fn law_least_connections(healthy: Seq<bool>, active: Seq<usize>, counter: usize)
    requires
        healthy.len() == active.len(),
        healthy_positions(healthy).len() > 0,
    ensures
        ({
            let h = healthy_positions(healthy);
            let p = h[replica_pick(LoadBalancing::LeastConnections, h, active, counter)];
            &&& 0 <= p < healthy.len()
            &&& healthy[p]
            &&& forall|j: int| 0 <= j < healthy.len() && healthy[j] ==> active[p] <= #[trigger] active[j]
            &&& forall|j: int| 0 <= j < p && healthy[j] ==> active[p] < #[trigger] active[j]
        }),
{
    let h = healthy_positions(healthy);
    lemma_healthy_positions(healthy);
    lemma_healthy_positions_complete(healthy);
    lemma_healthy_positions_increasing(healthy);
    lemma_least_loaded_min(h, active);
    let b = least_loaded(h, active);
    let p = h[b];
    assert forall|j: int| 0 <= j < healthy.len() && healthy[j] implies active[p] <= #[trigger] active[j] by {
        assert(healthy[j]);
        let x = choose|x: int| 0 <= x < h.len() && h[x] == j;
        assert(active[h[b]] <= active[h[x]]);
    }
    assert forall|j: int| 0 <= j < p && healthy[j] implies active[p] < #[trigger] active[j] by {
        assert(healthy[j]);
        let x = choose|x: int| 0 <= x < h.len() && h[x] == j;
        if x >= b {
            if x > b {
                assert(h[b] < h[x]);
            }
        }
        assert(x < b);
        assert(active[h[b]] < active[h[x]]);
    }
}

/// The replica selection of a router: its strategy and its request counter,
/// which each read under a counting strategy advances when some replica is
/// healthy (wrapping at the largest `usize`).
#[derive(Debug, Clone, Copy, PartialEq, Eq)]
pub struct ReplicaRouter {
    /// How reads are spread across healthy replicas.
    pub strategy: LoadBalancing,
    /// The request counter.
    pub counter: usize,
}

/// The counter after one read: advanced, wrapping, when the strategy draws
/// from it and some replica is healthy.
pub open spec fn counter_after(strategy: LoadBalancing, healthy: Seq<bool>, counter: usize) -> usize {
    if draws_counter(strategy) && healthy_positions(healthy).len() > 0 {
        if counter == usize::MAX {
            0
        } else {
            (counter + 1) as usize
        }
    } else {
        counter
    }
}

impl ReplicaRouter {
    /// A router with `strategy` whose counter starts at 0.
    pub fn new(strategy: LoadBalancing) -> (r: Self)
        ensures
            r.strategy == strategy,
            r.counter == 0,
    {
        ReplicaRouter { strategy, counter: 0 }
    }

    /// The replica that serves the next read (see
    /// [`select_replica_index`]), advancing the counter; `None` sends the
    /// read to the primary.
    pub fn select_replica(&mut self, healthy: &[bool], active: &[usize]) -> (r: Option<usize>)
        requires
            healthy@.len() == active@.len(),
        ensures
            healthy_positions(healthy@).len() == 0 ==> r is None,
            healthy_positions(healthy@).len() > 0 ==> r == Some(
                healthy_positions(healthy@)[replica_pick(
                    old(self).strategy,
                    healthy_positions(healthy@),
                    active@,
                    old(self).counter,
                )] as usize,
            ),
            final(self).strategy == old(self).strategy,
            final(self).counter == counter_after(old(self).strategy, healthy@, old(self).counter),
    {
        let r = select_replica_index(self.strategy, healthy, active, self.counter);
        if r.is_some() && uses_counter(self.strategy) {
            self.counter = self.counter.wrapping_add(1);
        }
        r
    }
}

/// Round robin walks the healthy replicas in turn: when the counter moves
/// on by one, the pick moves on to the next healthy replica, wrapping
/// round; a router starts at the first.
pub proof fn law_round_robin_progression(h: Seq<int>, active: Seq<usize>, counter: usize)
    requires
        h.len() > 0,
        counter < usize::MAX,
    ensures
        replica_pick(LoadBalancing::RoundRobin, h, active, 0) == 0,
        replica_pick(LoadBalancing::RoundRobin, h, active, (counter + 1) as usize) == (replica_pick(
            LoadBalancing::RoundRobin,
            h,
            active,
            counter,
        ) + 1) % (h.len() as int),
{
    let n = h.len() as int;
    let c = counter as int;
    assert((c + 1) % n == ((c % n) + 1) % n) by (nonlinear_arith)
        requires
            n > 0,
            c >= 0,
    ;
}

} // verus!
