use vstd::prelude::*;
use crate::config::{ConfigError, Node, SelectionType};
use crate::health::{selectable, BackendHealth, HealthStatus};

verus! {

/// Most backends one pool may hold.
pub const MAX_BACKENDS: usize = 65535;

/// Largest sum of weights of one pool; each unit of weight puts 160 points
/// on the hash ring, which must stay within a `u32`.
pub const MAX_TOTAL_WEIGHT: u64 = 26843545;

/// How many candidates one selection looks at before giving up.
pub const CANDIDATE_LIMIT: usize = 256;

/// One member of a pool: where it is, its share of traffic and its health.
#[derive(Clone, Debug)]
pub struct PoolBackend {
    pub addr: String,
    pub weight: u32,
    pub health: BackendHealth,
}

/// The backends of one upstream, in configuration order, with the Ketama
/// ring built from them.
pub struct Pool {
    pub backends: Vec<PoolBackend>,
    pub ring: pingora_ketama::Continuum,
}

#[verifier::external_type_specification]
#[verifier::external_body]
pub struct ExContinuum(pingora_ketama::Continuum);

/// Sum of the weights of the first `n` backends.
pub open spec fn weight_sum(bs: Seq<PoolBackend>, n: int) -> nat
    decreases n,
{
    if n <= 0 || n > bs.len() {
        0
    } else {
        weight_sum(bs, n - 1) + bs[n - 1].weight as nat
    }
}

pub open spec fn total_weight(bs: Seq<PoolBackend>) -> nat {
    weight_sum(bs, bs.len() as int)
}

/// The text of the socket address that a string parses to, as Rust prints
/// it; `None` when the string is not a socket address.
pub uninterp spec fn socket_addr_text(s: Seq<char>) -> Option<Seq<char>>;

/// An address is canonical when it parses and prints back unchanged.
pub open spec fn canonical_addr(s: Seq<char>) -> bool {
    socket_addr_text(s) == Some(s)
}

/// A pool has at least one backend, each of positive weight at a canonical
/// address, and stays within the bounds above.
pub open spec fn pool_wf(bs: Seq<PoolBackend>) -> bool {
    &&& 1 <= bs.len() <= MAX_BACKENDS
    &&& forall|i: int| 0 <= i < bs.len() ==> bs[i].weight >= 1
    &&& forall|i: int| 0 <= i < bs.len() ==> canonical_addr(#[trigger] bs[i].addr@)
    &&& total_weight(bs) <= MAX_TOTAL_WEIGHT
}

/// The backend that owns weighted slot `rem`, counting from backend `i`:
/// backend `i` owns the first `weight` slots, the next one the following, and so on.
pub open spec fn owner_from(bs: Seq<PoolBackend>, i: int, rem: int) -> int
    decreases bs.len() - i,
{
    if i < 0 || i >= bs.len() || rem < bs[i].weight {
        i
    } else {
        owner_from(bs, i + 1, rem - bs[i].weight)
    }
}

pub open spec fn slot_owner(bs: Seq<PoolBackend>, slot: int) -> int {
    owner_from(bs, 0, slot)
}

/// The first selectable backend among `limit` backends visited in turn from
/// `start`, wrapping round the pool and visiting each at most once.
pub open spec fn probe_from(bs: Seq<PoolBackend>, start: int, step: nat, limit: nat) -> Option<int>
    decreases limit - step,
{
    if step >= limit || step >= bs.len() {
        None
    } else {
        let i = (start + step) % (bs.len() as int);
        if selectable(bs[i].health) {
            Some(i)
        } else {
            probe_from(bs, start, step + 1, limit)
        }
    }
}

/// Index of the first backend at address `a` from `i` on, or -1.
pub open spec fn addr_from(bs: Seq<PoolBackend>, a: Seq<char>, i: int) -> int
    decreases bs.len() - i,
{
    if i < 0 || i >= bs.len() {
        -1
    } else if bs[i].addr@ == a {
        i
    } else {
        addr_from(bs, a, i + 1)
    }
}

/// The first address of `walk`, from position `j` on, that names a
/// selectable backend of the pool.
pub open spec fn first_listed(bs: Seq<PoolBackend>, walk: Seq<Seq<char>>, j: int) -> Option<int>
    decreases walk.len() - j,
{
    if j < 0 || j >= walk.len() {
        None
    } else {
        let m = addr_from(bs, walk[j], 0);
        if m >= 0 && selectable(bs[m].health) {
            Some(m)
        } else {
            first_listed(bs, walk, j + 1)
        }
    }
}

pub const FNV_OFFSET: u64 = 0xcbf29ce484222325;

pub const FNV_PRIME: u64 = 0x100000001b3;

/// 64-bit FNV-1a of a byte string.
pub open spec fn fnv1a(s: Seq<u8>) -> u64
    decreases s.len(),
{
    if s.len() == 0 {
        FNV_OFFSET
    } else {
        (((fnv1a(s.drop_last()) ^ (s.last() as u64)) as int * FNV_PRIME as int) % 0x1_0000_0000_0000_0000) as u64
    }
}

/// Address and weight of each backend, in order.
pub open spec fn buckets_of(bs: Seq<PoolBackend>) -> Seq<(Seq<char>, u32)> {
    bs.map_values(|b: PoolBackend| (b.addr@, b.weight))
}

/// The buckets, address and weight in order, that a Ketama ring holds.
pub uninterp spec fn ring_buckets(ring: pingora_ketama::Continuum) -> Seq<(Seq<char>, u32)>;

/// The address at step `j` of the walk of the ring built from `buckets`,
/// starting at the point that `key` hashes to.
pub uninterp spec fn ring_point(buckets: Seq<(Seq<char>, u32)>, key: Seq<u8>, j: nat) -> Seq<char>;

/// The first candidates of the ring walk for `key`.
pub open spec fn ring_walk_seq(bs: Seq<PoolBackend>, key: Seq<u8>) -> Seq<Seq<char>> {
    Seq::new(CANDIDATE_LIMIT as nat, |j: int| ring_point(buckets_of(bs), key, j as nat))
}

/// The pool's ring holds exactly its backends.
pub open spec fn ring_matches(p: Pool) -> bool {
    ring_buckets(p.ring) == buckets_of(p.backends@)
}

/// The weighted slot a selection starts from.
pub open spec fn start_slot(
    bs: Seq<PoolBackend>,
    kind: SelectionType,
    key: Seq<u8>,
    ticket: u64,
    random: u64,
) -> int {
    match kind {
        SelectionType::RoundRobin => ticket as int % total_weight(bs) as int,
        SelectionType::Random => random as int % total_weight(bs) as int,
        _ => fnv1a(key) as int % total_weight(bs) as int,
    }
}

/// The backend a selection picks. Round robin starts at the slot of the
/// caller's ticket, random at the slot of the caller's random number, FNV at
/// the slot of the key's hash; each then takes the first selectable backend
/// from that slot's owner on. Ketama takes the first selectable backend met on
/// the ring from the key's point.
pub open spec fn selected(
    bs: Seq<PoolBackend>,
    kind: SelectionType,
    key: Seq<u8>,
    ticket: u64,
    random: u64,
) -> Option<int> {
    match kind {
        SelectionType::Ketama => first_listed(
            bs,
            ring_walk_seq(bs, key),
            0,
        ),
        _ => probe_from(
            bs,
            slot_owner(bs, start_slot(bs, kind, key, ticket, random)),
            0,
            CANDIDATE_LIMIT as nat,
        ),
    }
}

pub open spec fn opt_int(o: Option<usize>) -> Option<int> {
    match o {
        Some(i) => Some(i as int),
        None => None,
    }
}

pub open spec fn node_weights_sum(ns: Seq<Node>, n: int) -> nat
    decreases n,
{
    if n <= 0 || n > ns.len() {
        0
    } else {
        node_weights_sum(ns, n - 1) + ns[n - 1].weight as nat
    }
}

/// Why a node list cannot form a pool, checked in this order.
pub open spec fn nodes_error(ns: Seq<Node>) -> Option<ConfigError> {
    if ns.len() == 0 {
        Some(ConfigError::EmptyNodes)
    } else if ns.len() > MAX_BACKENDS {
        Some(ConfigError::TooManyNodes)
    } else if exists|i: int| 0 <= i < ns.len() && ns[i].weight == 0 {
        Some(ConfigError::ZeroWeight)
    } else if exists|i: int| 0 <= i < ns.len() && !canonical_addr(#[trigger] ns[i].addr@) {
        Some(ConfigError::InvalidAddress)
    } else if node_weights_sum(ns, ns.len() as int) > MAX_TOTAL_WEIGHT {
        Some(ConfigError::TotalWeightTooLarge)
    } else {
        None
    }
}

/// Relies on `fnv::FnvHasher`: starts from the FNV offset basis and, for each
/// byte, xors it in and multiplies by the FNV prime, wrapping.
#[verifier::external_body]
fn fnv_hash(key: &[u8]) -> (r: u64)
    ensures
        r == fnv1a(key@),
{
    let mut hasher = fnv::FnvHasher::default();
    std::hash::Hasher::write(&mut hasher, key);
    std::hash::Hasher::finish(&hasher)
}

/// Relies on `str::parse` into `SocketAddr`, printed back with `to_string`.
#[verifier::external_body]
fn socket_addr_string(s: &str) -> (r: Option<String>)
    ensures
        match r {
            Some(t) => socket_addr_text(s@) == Some(t@),
            None => socket_addr_text(s@) is None,
        },
{
    s.parse::<core::net::SocketAddr>().ok().map(|a| a.to_string())
}

/// Relies on `pingora_ketama::Continuum::new`: one bucket per backend, in
/// order. `Bucket::new` panics on weight zero, the ring's point count must fit
/// a `u32` and node indexes a `u16`; every address parses.
#[verifier::external_body]
fn build_ring(bs: &Vec<PoolBackend>) -> (r: pingora_ketama::Continuum)
    requires
        pool_wf(bs@),
    ensures
        ring_buckets(r) == buckets_of(bs@),
{
    let buckets: Vec<pingora_ketama::Bucket> = bs
        .iter()
        .map(|b| pingora_ketama::Bucket::new(b.addr.parse().unwrap(), b.weight))
        .collect();
    pingora_ketama::Continuum::new(&buckets)
}

/// Relies on `pingora_ketama::Continuum::node_iter`: walks the ring from the
/// key's point. A ring with points never ends a walk, and each point names the
/// address of one of its buckets, printed as it was parsed.
#[verifier::external_body]
fn ring_walk(ring: &pingora_ketama::Continuum, key: &[u8], limit: usize) -> (r: Vec<String>)
    requires
        ring_buckets(*ring).len() >= 1,
        forall|i: int| 0 <= i < ring_buckets(*ring).len() ==> (#[trigger] ring_buckets(*ring)[i]).1 >= 1,
    ensures
        r@.len() == limit,
        forall|j: int| 0 <= j < r@.len() ==> (#[trigger] r@[j])@ == ring_point(ring_buckets(*ring), key@, j as nat),
        forall|j: int| 0 <= j < r@.len() ==> exists|i: int| 0 <= i < ring_buckets(*ring).len()
            && (#[trigger] r@[j])@ == ring_buckets(*ring)[i].0,
{
    ring.node_iter(key).take(limit).map(|a| a.to_string()).collect()
}

proof fn lemma_weight_sum_step(bs: Seq<PoolBackend>, i: int)
    requires
        0 <= i < bs.len(),
    ensures
        weight_sum(bs, i + 1) == weight_sum(bs, i) + bs[i].weight as nat,
{
}

impl Pool {
    /// Builds a pool from configured nodes, every backend not yet probed.
    pub fn from_nodes(nodes: &Vec<Node>) -> (r: Result<Pool, ConfigError>)
        ensures
            nodes_error(nodes@) is None <==> r is Ok,
            r matches Err(e) ==> nodes_error(nodes@) == Some(e),
            r matches Ok(p) ==> {
                &&& pool_wf(p.backends@)
                &&& ring_matches(p)
                &&& p.backends@.len() == nodes@.len()
                &&& forall|i: int| #![trigger p.backends@[i]] 0 <= i < nodes@.len() ==> {
                    &&& p.backends@[i].addr@ == nodes@[i].addr@
                    &&& p.backends@[i].weight == nodes@[i].weight
                    &&& p.backends@[i].health.status == HealthStatus::Unknown
                    &&& p.backends@[i].health.consecutive_success == 0
                    &&& p.backends@[i].health.consecutive_failure == 0
                }
            },
    {
        if nodes.len() == 0 {
            return Err(ConfigError::EmptyNodes);
        }
        if nodes.len() > MAX_BACKENDS {
            return Err(ConfigError::TooManyNodes);
        }
        let mut i: usize = 0;
        while i < nodes.len()
            invariant
                i <= nodes@.len() <= MAX_BACKENDS,
                forall|j: int| 0 <= j < i ==> nodes@[j].weight != 0,
            decreases nodes@.len() - i,
        {
            if nodes[i].weight == 0 {
                assert(nodes@[i as int].weight == 0);
                return Err(ConfigError::ZeroWeight);
            }
            i = i + 1;
        }
        let mut i: usize = 0;
        while i < nodes.len()
            invariant
                i <= nodes@.len() <= MAX_BACKENDS,
                forall|j: int| 0 <= j < nodes@.len() ==> nodes@[j].weight != 0,
                forall|j: int| 0 <= j < i ==> canonical_addr(#[trigger] nodes@[j].addr@),
            decreases nodes@.len() - i,
        {
            let ok = match socket_addr_string(nodes[i].addr.as_str()) {
                Some(t) => t == nodes[i].addr,
                None => false,
            };
            if !ok {
                assert(!canonical_addr(nodes@[i as int].addr@));
                return Err(ConfigError::InvalidAddress);
            }
            i = i + 1;
        }
        let mut backends: Vec<PoolBackend> = Vec::new();
        let mut sum: u64 = 0;
        let mut k: usize = 0;
        while k < nodes.len()
            invariant
                k <= nodes@.len() <= MAX_BACKENDS,
                forall|j: int| 0 <= j < nodes@.len() ==> nodes@[j].weight != 0,
                forall|j: int| 0 <= j < nodes@.len() ==> canonical_addr(#[trigger] nodes@[j].addr@),
                backends@.len() == k,
                sum == node_weights_sum(nodes@, k as int),
                sum == weight_sum(backends@, k as int),
                sum <= MAX_TOTAL_WEIGHT,
                forall|j: int| #![trigger backends@[j]] 0 <= j < k ==> {
                    &&& backends@[j].addr@ == nodes@[j].addr@
                    &&& backends@[j].weight == nodes@[j].weight
                    &&& backends@[j].health.status == HealthStatus::Unknown
                    &&& backends@[j].health.consecutive_success == 0
                    &&& backends@[j].health.consecutive_failure == 0
                },
            decreases nodes@.len() - k,
        {
            let w = nodes[k].weight;
            if sum + w as u64 > MAX_TOTAL_WEIGHT {
                proof {
                    lemma_node_sum_monotone(nodes@, k as int + 1, nodes@.len() as int);
                }
                return Err(ConfigError::TotalWeightTooLarge);
            }
            let ghost old_backends = backends@;
            backends.push(PoolBackend { addr: nodes[k].addr.clone(), weight: w, health: BackendHealth::new() });
            proof {
                lemma_weight_sum_prefix(old_backends, backends@, k as int);
            }
            sum = sum + w as u64;
            k = k + 1;
        }
        assert(backends@.len() == nodes@.len());
        let ring = build_ring(&backends);
        Ok(Pool { backends, ring })
    }

    /// Records one probe outcome for backend `i`; the others are untouched.
    pub fn observe(&mut self, i: usize, success: bool, healthy_threshold: u64, unhealthy_threshold: u64)
        requires
            i < old(self).backends@.len(),
        ensures
            final(self).backends@.len() == old(self).backends@.len(),
            final(self).backends@[i as int].health == crate::health::next_health(
                old(self).backends@[i as int].health,
                success,
                healthy_threshold,
                unhealthy_threshold,
            ),
            final(self).backends@[i as int].addr == old(self).backends@[i as int].addr,
            final(self).backends@[i as int].weight == old(self).backends@[i as int].weight,
            forall|j: int| 0 <= j < old(self).backends@.len() && j != i ==> final(self).backends@[j]
                == old(self).backends@[j],
            ring_matches(*old(self)) ==> ring_matches(*final(self)),
    {
        let ghost before = self.backends@;
        let mut b = self.backends.remove(i);
        b.health.observe(success, healthy_threshold, unhealthy_threshold);
        self.backends.insert(i, b);
        assert(buckets_of(self.backends@) =~= buckets_of(before));
    }

    /// Picks a backend for a request, or `None` when no selectable backend is
    /// found among the candidates looked at.
    pub fn select(&self, kind: SelectionType, key: &[u8], ticket: u64, random: u64) -> (r: Option<usize>)
        requires
            pool_wf(self.backends@),
            ring_matches(*self),
        ensures
            opt_int(r) == selected(self.backends@, kind, key@, ticket, random),
            r matches Some(i) ==> i < self.backends@.len() && selectable(self.backends@[i as int].health),
            (forall|i: int| 0 <= i < self.backends@.len() ==> selectable(#[trigger] self.backends@[i].health))
                ==> r is Some,
            self.backends@.len() == 1 ==> (r is Some <==> selectable(self.backends@[0].health)),
    {
        match kind {
            SelectionType::Ketama => {
                let ghost bs = self.backends@;
                let ghost full = ring_walk_seq(bs, key@);
                proof {
                    assert forall|i: int| 0 <= i < ring_buckets(self.ring).len() implies (#[trigger] ring_buckets(
                        self.ring,
                    )[i]).1 >= 1 by {
                        assert(ring_buckets(self.ring)[i] == (bs[i].addr@, bs[i].weight));
                    }
                }
                let head = ring_walk(&self.ring, key, 1);
                proof {
                    assert(head@[0]@ == full[0]);
                    lemma_addr_from_bounds(bs, full[0], 0);
                }
                match self.index_of_addr(&head[0]) {
                    Some(m) => {
                        if self.backends[m].health.is_selectable() {
                            return Some(m);
                        }
                    },
                    None => {},
                }
                let walk = ring_walk(&self.ring, key, CANDIDATE_LIMIT);
                proof {
                    let w = walk@.map_values(|s: String| s@);
                    assert(w =~= full);
                    assert forall|j: int| 0 <= j < walk@.len() implies exists|i: int| 0 <= i < bs.len()
                        && (#[trigger] walk@[j])@ == bs[i].addr@ by {
                        let i = choose|i: int| 0 <= i < ring_buckets(self.ring).len() && walk@[j]@
                            == ring_buckets(self.ring)[i].0;
                        assert(ring_buckets(self.ring)[i] == (bs[i].addr@, bs[i].weight));
                    }
                    lemma_first_listed_ok(bs, w, 0);
                    assert(w[0] == walk@[0]@);
                    let i0 = choose|i: int| 0 <= i < bs.len() && walk@[0]@ == bs[i].addr@;
                    lemma_addr_from_found(bs, w[0], i0, 0);
                    lemma_addr_from_bounds(bs, w[0], 0);
                    if bs.len() == 1 {
                        assert forall|j: int| 0 <= j < w.len() implies #[trigger] w[j] == bs[0].addr@ by {
                            assert(w[j] == walk@[j]@);
                        }
                        lemma_first_listed_single(bs, w, 0);
                    }
                }
                self.first_listed_in(&walk)
            },
            _ => {
                let total = self.total_weight();
                let slot: u64 = match kind {
                    SelectionType::RoundRobin => ticket % total,
                    SelectionType::Random => random % total,
                    _ => fnv_hash(key) % total,
                };
                let start = self.slot_owner(slot);
                proof {
                    lemma_probe_ok(self.backends@, start as int, 0, CANDIDATE_LIMIT as nat);
                    vstd::arithmetic::div_mod::lemma_small_mod(start as nat, self.backends@.len() as nat);
                    if self.backends@.len() == 1 {
                        assert(probe_from(self.backends@, start as int, 1, CANDIDATE_LIMIT as nat) is None);
                    }
                }
                self.probe(start, CANDIDATE_LIMIT)
            },
        }
    }

    /// Sum of the weights of the pool.
    pub fn total_weight(&self) -> (r: u64)
        requires
            pool_wf(self.backends@),
        ensures
            r == total_weight(self.backends@),
            r >= 1,
    {
        let mut sum: u64 = 0;
        let mut i: usize = 0;
        while i < self.backends.len()
            invariant
                pool_wf(self.backends@),
                i <= self.backends@.len(),
                sum == weight_sum(self.backends@, i as int),
                i > 0 ==> sum >= 1,
            decreases self.backends@.len() - i,
        {
            proof {
                lemma_weight_sum_monotone(self.backends@, i as int + 1, self.backends@.len() as int);
            }
            sum = sum + self.backends[i].weight as u64;
            i = i + 1;
        }
        sum
    }

    /// The backend that owns a weighted slot.
    fn slot_owner(&self, slot: u64) -> (r: usize)
        requires
            pool_wf(self.backends@),
            slot < total_weight(self.backends@),
        ensures
            r == slot_owner(self.backends@, slot as int),
            r < self.backends@.len(),
    {
        let mut i: usize = 0;
        let mut rem: u64 = slot;
        while i < self.backends.len() && rem >= self.backends[i].weight as u64
            invariant
                pool_wf(self.backends@),
                i <= self.backends@.len(),
                owner_from(self.backends@, i as int, rem as int) == owner_from(self.backends@, 0, slot as int),
                rem as int == slot as int - weight_sum(self.backends@, i as int),
            decreases self.backends@.len() - i,
        {
            rem = rem - self.backends[i].weight as u64;
            i = i + 1;
        }
        if i >= self.backends.len() {
            assert(false);
        }
        i
    }

    /// The first selectable backend visiting the pool in turn from `start`.
    fn probe(&self, start: usize, limit: usize) -> (r: Option<usize>)
        requires
            pool_wf(self.backends@),
            start < self.backends@.len(),
        ensures
            opt_int(r) == probe_from(self.backends@, start as int, 0, limit as nat),
    {
        let n = self.backends.len();
        let mut step: usize = 0;
        while step < limit && step < n
            invariant
                n == self.backends@.len(),
                start < n <= MAX_BACKENDS,
                probe_from(self.backends@, start as int, step as nat, limit as nat)
                    == probe_from(self.backends@, start as int, 0, limit as nat),
            decreases n - step,
        {
            let i = (start + step) % n;
            if self.backends[i].health.is_selectable() {
                return Some(i);
            }
            step = step + 1;
        }
        None
    }

    /// Index of the first backend at address `a`, if any.
    fn index_of_addr(&self, a: &String) -> (r: Option<usize>)
        ensures
            match r {
                Some(i) => addr_from(self.backends@, a@, 0) == i as int,
                None => addr_from(self.backends@, a@, 0) == -1,
            },
    {
        let mut i: usize = 0;
        while i < self.backends.len()
            invariant
                i <= self.backends@.len(),
                addr_from(self.backends@, a@, i as int) == addr_from(self.backends@, a@, 0),
            decreases self.backends@.len() - i,
        {
            if self.backends[i].addr == *a {
                return Some(i);
            }
            i = i + 1;
        }
        None
    }

    /// The first address of `walk` that names a selectable backend.
    fn first_listed_in(&self, walk: &Vec<String>) -> (r: Option<usize>)
        ensures
            opt_int(r) == first_listed(self.backends@, walk@.map_values(|s: String| s@), 0),
    {
        let ghost w = walk@.map_values(|s: String| s@);
        let mut j: usize = 0;
        while j < walk.len()
            invariant
                j <= walk@.len(),
                w == walk@.map_values(|s: String| s@),
                first_listed(self.backends@, w, j as int) == first_listed(self.backends@, w, 0),
            decreases walk@.len() - j,
        {
            proof {
                lemma_addr_from_bounds(self.backends@, w[j as int], 0);
            }
            match self.index_of_addr(&walk[j]) {
                Some(m) => {
                    if self.backends[m].health.is_selectable() {
                        return Some(m);
                    }
                },
                None => {},
            }
            j = j + 1;
        }
        None
    }
}

/// When every backend is unhealthy, every strategy selects nothing rather
/// than fall back to an unhealthy backend.
pub proof fn lemma_all_unhealthy_selects_none(
    bs: Seq<PoolBackend>,
    kind: SelectionType,
    key: Seq<u8>,
    ticket: u64,
    random: u64,
)
    requires
        pool_wf(bs),
        forall|i: int| 0 <= i < bs.len() ==> !selectable(#[trigger] bs[i].health),
    ensures
        selected(bs, kind, key, ticket, random) is None,
{
    match kind {
        SelectionType::Ketama => {
            lemma_first_listed_none(bs, ring_walk_seq(bs, key), 0);
        },
        _ => {
            lemma_probe_none(bs, slot_owner(bs, start_slot(bs, kind, key, ticket, random)), 0, CANDIDATE_LIMIT as nat);
        },
    }
}

proof fn lemma_first_listed_none(bs: Seq<PoolBackend>, walk: Seq<Seq<char>>, j: int)
    requires
        forall|i: int| 0 <= i < bs.len() ==> !selectable(#[trigger] bs[i].health),
    ensures
        first_listed(bs, walk, j) is None,
    decreases walk.len() - j,
{
    if 0 <= j < walk.len() {
        lemma_addr_from_bounds(bs, walk[j], 0);
        lemma_first_listed_none(bs, walk, j + 1);
    }
}

proof fn lemma_probe_none(bs: Seq<PoolBackend>, start: int, step: nat, limit: nat)
    requires
        bs.len() >= 1,
        forall|i: int| 0 <= i < bs.len() ==> !selectable(#[trigger] bs[i].health),
    ensures
        probe_from(bs, start, step, limit) is None,
    decreases limit - step,
{
    if step < limit && step < bs.len() {
        let i = (start + step) % (bs.len() as int);
        assert(!selectable(bs[i].health));
        lemma_probe_none(bs, start, step + 1, limit);
    }
}

/// FNV and Ketama selection depend on the key and the pool alone: for the
/// same key and the same pool they pick the same backend, whatever the
/// round-robin ticket and the random number.
pub proof fn lemma_hash_selection_deterministic(
    bs: Seq<PoolBackend>,
    kind: SelectionType,
    key: Seq<u8>,
    ticket1: u64,
    random1: u64,
    ticket2: u64,
    random2: u64,
)
    requires
        kind == SelectionType::Fnv || kind == SelectionType::Ketama,
    ensures
        selected(bs, kind, key, ticket1, random1) == selected(bs, kind, key, ticket2, random2),
{
}

/// In a pool where no backend has been probed yet, round robin, random and
/// FNV selection always find a backend: the owner of the starting slot.
pub proof fn lemma_unprobed_pool_selects(
    bs: Seq<PoolBackend>,
    kind: SelectionType,
    key: Seq<u8>,
    ticket: u64,
    random: u64,
)
    requires
        pool_wf(bs),
        kind != SelectionType::Ketama,
        forall|i: int| 0 <= i < bs.len() ==> (#[trigger] bs[i].health).status == HealthStatus::Unknown,
    ensures
        selected(bs, kind, key, ticket, random) == Some(slot_owner(bs, start_slot(bs, kind, key, ticket, random))),
{
    let slot = start_slot(bs, kind, key, ticket, random);
    lemma_owner_in_range(bs, 0, slot);
    let o = slot_owner(bs, slot);
    assert(bs[o].health.status == HealthStatus::Unknown);
    vstd::arithmetic::div_mod::lemma_small_mod(o as nat, bs.len() as nat);
}

/// Round robin over backends of weight one that are all selectable hands
/// ticket `t` to backend `t mod n`: every `n` consecutive tickets visit each
/// backend exactly once, so 300 tickets over three backends give 100 each.
pub proof fn lemma_round_robin_even(bs: Seq<PoolBackend>, key: Seq<u8>, ticket: u64, random: u64)
    requires
        pool_wf(bs),
        forall|i: int| 0 <= i < bs.len() ==> (#[trigger] bs[i]).weight == 1,
        forall|i: int| 0 <= i < bs.len() ==> selectable(#[trigger] bs[i].health),
    ensures
        selected(bs, SelectionType::RoundRobin, key, ticket, random) == Some(ticket as int % bs.len() as int),
{
    lemma_unit_weight_sum(bs, bs.len() as int);
    let s = ticket as int % bs.len() as int;
    lemma_unit_owner(bs, 0, s);
    vstd::arithmetic::div_mod::lemma_small_mod(s as nat, bs.len() as nat);
}

proof fn lemma_unit_weight_sum(bs: Seq<PoolBackend>, n: int)
    requires
        0 <= n <= bs.len(),
        forall|i: int| 0 <= i < bs.len() ==> (#[trigger] bs[i]).weight == 1,
    ensures
        weight_sum(bs, n) == n,
    decreases n,
{
    if n > 0 {
        lemma_unit_weight_sum(bs, n - 1);
    }
}

proof fn lemma_unit_owner(bs: Seq<PoolBackend>, i: int, rem: int)
    requires
        0 <= i,
        0 <= rem,
        i + rem < bs.len(),
        forall|j: int| 0 <= j < bs.len() ==> (#[trigger] bs[j]).weight == 1,
    ensures
        owner_from(bs, i, rem) == i + rem,
    decreases bs.len() - i,
{
    if rem >= 1 {
        assert(bs[i].weight == 1);
        lemma_unit_owner(bs, i + 1, rem - 1);
    }
}

proof fn lemma_owner_in_range(bs: Seq<PoolBackend>, i: int, rem: int)
    requires
        pool_wf(bs),
        0 <= i <= bs.len(),
        0 <= rem,
        rem + weight_sum(bs, i) < total_weight(bs),
    ensures
        0 <= owner_from(bs, i, rem) < bs.len(),
    decreases bs.len() - i,
{
    if i < bs.len() && rem >= bs[i].weight {
        lemma_weight_sum_step(bs, i);
        lemma_owner_in_range(bs, i + 1, rem - bs[i].weight);
    }
}

proof fn lemma_first_listed_ok(bs: Seq<PoolBackend>, walk: Seq<Seq<char>>, j: int)
    ensures
        first_listed(bs, walk, j) matches Some(m) ==> 0 <= m < bs.len() && selectable(bs[m].health),
    decreases walk.len() - j,
{
    if 0 <= j < walk.len() {
        lemma_addr_from_bounds(bs, walk[j], 0);
        lemma_first_listed_ok(bs, walk, j + 1);
    }
}

proof fn lemma_probe_ok(bs: Seq<PoolBackend>, start: int, step: nat, limit: nat)
    requires
        0 <= start,
        bs.len() >= 1,
    ensures
        probe_from(bs, start, step, limit) matches Some(m) ==> 0 <= m < bs.len() && selectable(bs[m].health),
    decreases limit - step,
{
    if step < limit && step < bs.len() {
        lemma_probe_ok(bs, start, step + 1, limit);
    }
}

proof fn lemma_addr_from_found(bs: Seq<PoolBackend>, a: Seq<char>, i: int, from: int)
    requires
        0 <= from <= i < bs.len(),
        bs[i].addr@ == a,
    ensures
        addr_from(bs, a, from) >= 0,
    decreases i - from,
{
    if bs[from].addr@ != a {
        lemma_addr_from_found(bs, a, i, from + 1);
    }
}

proof fn lemma_first_listed_single(bs: Seq<PoolBackend>, w: Seq<Seq<char>>, j: int)
    requires
        bs.len() == 1,
        0 <= j,
        forall|k: int| 0 <= k < w.len() ==> #[trigger] w[k] == bs[0].addr@,
    ensures
        j < w.len() && selectable(bs[0].health) ==> first_listed(bs, w, j) == Some(0int),
        !selectable(bs[0].health) ==> first_listed(bs, w, j) is None,
    decreases w.len() - j,
{
    if j < w.len() {
        assert(addr_from(bs, w[j], 0) == 0);
        lemma_first_listed_single(bs, w, j + 1);
    }
}

proof fn lemma_addr_from_bounds(bs: Seq<PoolBackend>, a: Seq<char>, i: int)
    ensures
        -1 <= addr_from(bs, a, i) < bs.len(),
        addr_from(bs, a, i) >= 0 ==> bs[addr_from(bs, a, i)].addr@ == a,
    decreases bs.len() - i,
{
    if 0 <= i < bs.len() && bs[i].addr@ != a {
        lemma_addr_from_bounds(bs, a, i + 1);
    }
}

/// Changing only health keeps a pool well formed.
pub proof fn lemma_same_weights_wf(a: Seq<PoolBackend>, b: Seq<PoolBackend>)
    requires
        pool_wf(a),
        a.len() == b.len(),
        forall|j: int| 0 <= j < a.len() ==> a[j].weight == b[j].weight && a[j].addr == b[j].addr,
    ensures
        pool_wf(b),
{
    assert forall|j: int| 0 <= j < b.len() implies canonical_addr(#[trigger] b[j].addr@) by {
        assert(canonical_addr(a[j].addr@));
    }
    assert forall|n: int| 0 <= n <= a.len() implies weight_sum(a, n) == weight_sum(b, n) by {
        lemma_same_weights_sum(a, b, n);
    }
}

proof fn lemma_same_weights_sum(a: Seq<PoolBackend>, b: Seq<PoolBackend>, n: int)
    requires
        0 <= n <= a.len(),
        a.len() == b.len(),
        forall|j: int| 0 <= j < a.len() ==> a[j].weight == b[j].weight,
    ensures
        weight_sum(a, n) == weight_sum(b, n),
    decreases n,
{
    if n > 0 {
        lemma_same_weights_sum(a, b, n - 1);
    }
}

proof fn lemma_weight_sum_monotone(bs: Seq<PoolBackend>, i: int, j: int)
    requires
        0 <= i <= j <= bs.len(),
    ensures
        weight_sum(bs, i) <= weight_sum(bs, j),
    decreases j - i,
{
    if i < j {
        lemma_weight_sum_monotone(bs, i, j - 1);
    }
}

proof fn lemma_node_sum_monotone(ns: Seq<Node>, i: int, j: int)
    requires
        0 <= i <= j <= ns.len(),
    ensures
        node_weights_sum(ns, i) <= node_weights_sum(ns, j),
    decreases j - i,
{
    if i < j {
        lemma_node_sum_monotone(ns, i, j - 1);
    }
}

proof fn lemma_weight_sum_prefix(a: Seq<PoolBackend>, b: Seq<PoolBackend>, k: int)
    requires
        0 <= k,
        a.len() == k,
        b.len() == k + 1,
        forall|j: int| 0 <= j < k ==> a[j] == b[j],
    ensures
        weight_sum(b, k + 1) == weight_sum(a, k) + b[k].weight as nat,
{
    assert forall|n: int| 0 <= n <= k implies weight_sum(b, n) == weight_sum(a, n) by {
        lemma_weight_sum_prefix_n(a, b, n);
    }
}

proof fn lemma_weight_sum_prefix_n(a: Seq<PoolBackend>, b: Seq<PoolBackend>, n: int)
    requires
        0 <= n <= a.len(),
        a.len() <= b.len(),
        forall|j: int| 0 <= j < a.len() ==> a[j] == b[j],
    ensures
        weight_sum(b, n) == weight_sum(a, n),
    decreases n,
{
    if n > 0 {
        lemma_weight_sum_prefix_n(a, b, n - 1);
    }
}

} // verus!
