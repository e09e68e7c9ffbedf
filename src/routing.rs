//! The routing table: routes grouped by target prefix, longest-prefix
//! resolution, weighted splitting among a group's available routes, and the
//! endpoint each route sends to.

use vstd::prelude::*;
use crate::address::{bytes_equal, copy_bytes, is_valid_segment, starts_with, validate_address_segment};
use crate::auth::AuthToken;
use crate::health::{RouteFailover, RouteStatus, available, initial_route_status, initial_status, next_status};
use crate::packet::{Prepare, PrepareView, append};

verus! {

/// The hash that places a packet among a group's routes.
pub uninterp spec fn stable_hash(data: Seq<u8>) -> u64;

/// Whether `http`'s URI parser accepts the bytes.
pub uninterp spec fn uri_accepts(s: Seq<u8>) -> bool;

/// Relies on std's `DefaultHasher`, whose `new` always starts from the same
/// keys: the 64-bit SipHash of the bytes written.
#[verifier::external_body]
fn hash_bytes(data: &[u8]) -> (r: u64)
    ensures
        r == stable_hash(data@),
{
    let mut hasher = std::collections::hash_map::DefaultHasher::new();
    std::hash::Hasher::write(&mut hasher, data);
    std::hash::Hasher::finish(&hasher)
}

/// Relies on `http::Uri`'s `TryFrom<&[u8]>` (re-exported by hyper): whether
/// the bytes parse as a URI.
#[verifier::external_body]
fn uri_is_valid(s: &[u8]) -> (r: bool)
    ensures
        r == uri_accepts(s@),
{
    hyper::Uri::try_from(s).is_ok()
}

/// Which bytes of a Prepare decide its place among a group's routes.
#[derive(Clone, Copy, Debug, PartialEq, Eq)]
pub enum RoutingPartition {
    /// Packets to one destination follow one route.
    Destination,
    /// Packets of one flow spread over the routes.
    ExecutionCondition,
}

impl Default for RoutingPartition {
    fn default() -> (r: RoutingPartition)
        ensures
            r == RoutingPartition::Destination,
    {
        RoutingPartition::Destination
    }
}

pub open spec fn partition_key(p: RoutingPartition, v: PrepareView) -> Seq<u8> {
    match p {
        RoutingPartition::Destination => v.destination,
        RoutingPartition::ExecutionCondition => v.execution_condition,
    }
}

impl RoutingPartition {
    /// The hash of the Prepare's bytes that this partitioning uses.
    pub fn find(self, prepare: &Prepare) -> (r: u64)
        ensures
            r == stable_hash(partition_key(self, prepare@)),
    {
        match self {
            RoutingPartition::Destination => hash_bytes(prepare.destination.as_slice()),
            RoutingPartition::ExecutionCondition => hash_bytes(prepare.execution_condition.as_slice()),
        }
    }
}

/// Where a route sends its packets.
#[derive(Debug, PartialEq, Eq)]
pub enum NextHop {
    /// One fixed endpoint.
    Bilateral { endpoint: Vec<u8>, auth: Option<AuthToken> },
    /// An endpoint per destination: the prefix, the destination's next
    /// segment, the suffix.
    Multilateral { endpoint_prefix: Vec<u8>, endpoint_suffix: Vec<u8>, auth: Option<AuthToken> },
}

#[derive(Debug, PartialEq, Eq)]
pub struct StaticRoute {
    pub target_prefix: Vec<u8>,
    pub next_hop: NextHop,
    pub account: String,
    pub failover: Option<RouteFailover>,
    /// This route's share of its group's packets, as an integer weight: a
    /// route gets `partition / (sum over the available routes)` of them.
    pub partition: u32,
}

pub open spec fn hop_auth(h: NextHop) -> Option<AuthToken> {
    match h {
        NextHop::Bilateral { auth, .. } => auth,
        NextHop::Multilateral { auth, .. } => auth,
    }
}

/// The length of the first segment of `s`: the bytes before the first dot.
pub open spec fn segment_len(s: Seq<u8>) -> nat
    decreases s.len(),
{
    if s.len() == 0 || s[0] == 46u8 {
        0
    } else {
        1 + segment_len(s.drop_first())
    }
}

/// The segment of `destination` that follows `prefix`.
pub open spec fn segment_after(prefix: Seq<u8>, destination: Seq<u8>) -> Seq<u8> {
    let rest = if prefix.len() <= destination.len() {
        destination.subrange(prefix.len() as int, destination.len() as int)
    } else {
        Seq::empty()
    };
    rest.subrange(0, segment_len(rest) as int)
}

/// The URI that a route uses for `destination`, if it has one.
pub open spec fn endpoint_of(route: StaticRoute, destination: Seq<u8>) -> Option<Seq<u8>> {
    match route.next_hop {
        NextHop::Bilateral { endpoint, .. } => Some(endpoint@),
        NextHop::Multilateral { endpoint_prefix, endpoint_suffix, .. } => {
            let segment = segment_after(route.target_prefix@, destination);
            let uri = endpoint_prefix@ + segment + endpoint_suffix@;
            if is_valid_segment(segment) && uri_accepts(uri) {
                Some(uri)
            } else {
                None
            }
        },
    }
}

/// Why no endpoint could be made.
#[derive(Clone, Copy, Debug, PartialEq, Eq)]
pub enum RouterError {
    InvalidDestination,
    InvalidUri,
}

/// The segment of `destination` right after `target_prefix`, if it is a
/// valid address segment.
pub fn parse_address_segment(target_prefix: &[u8], destination: &[u8]) -> (r: Option<Vec<u8>>)
    ensures
        match r {
            Some(s) => s@ == segment_after(target_prefix@, destination@) && is_valid_segment(s@),
            None => !is_valid_segment(segment_after(target_prefix@, destination@)),
        },
{
    let n = destination.len();
    let start = if target_prefix.len() <= n {
        target_prefix.len()
    } else {
        n
    };
    let ghost rest = if target_prefix@.len() <= destination@.len() {
        destination@.subrange(target_prefix@.len() as int, n as int)
    } else {
        Seq::empty()
    };
    assert(rest =~= destination@.subrange(start as int, n as int));
    let mut i: usize = start;
    while i < n && destination[i] != 46
        invariant
            start <= i <= n,
            n == destination@.len(),
            rest == destination@.subrange(start as int, n as int),
            segment_len(rest) == (i - start) + segment_len(destination@.subrange(i as int, n as int)),
        decreases n - i,
    {
        let ghost cur = destination@.subrange(i as int, n as int);
        assert(cur.drop_first() =~= destination@.subrange(i + 1, n as int));
        i += 1;
    }
    let segment = copy_bytes(destination, start, i);
    assert(segment@ =~= rest.subrange(0, segment_len(rest) as int));
    if validate_address_segment(segment.as_slice()) {
        Some(segment)
    } else {
        None
    }
}

impl StaticRoute {
    /// The URI to send a packet for `destination` to.
    pub fn endpoint(&self, destination: &[u8]) -> (r: Result<Vec<u8>, RouterError>)
        ensures
            match endpoint_of(*self, destination@) {
                Some(uri) => r matches Ok(u) && u@ == uri,
                None => r is Err,
            },
    {
        match &self.next_hop {
            NextHop::Bilateral { endpoint, .. } => {
                let uri = copy_bytes(endpoint.as_slice(), 0, endpoint.len());
                assert(uri@ =~= endpoint@);
                Ok(uri)
            },
            NextHop::Multilateral { endpoint_prefix, endpoint_suffix, .. } => {
                let segment = match parse_address_segment(self.target_prefix.as_slice(), destination) {
                    Some(s) => s,
                    None => return Err(RouterError::InvalidDestination),
                };
                let mut uri: Vec<u8> = Vec::new();
                append(&mut uri, endpoint_prefix.as_slice());
                append(&mut uri, segment.as_slice());
                append(&mut uri, endpoint_suffix.as_slice());
                assert(uri@ =~= endpoint_prefix@ + segment@ + endpoint_suffix@);
                if uri_is_valid(uri.as_slice()) {
                    Ok(uri)
                } else {
                    Err(RouterError::InvalidUri)
                }
            },
        }
    }

    /// The token sent to the next hop, if any.
    pub fn auth(&self) -> (r: Option<&AuthToken>)
        ensures
            match (r, hop_auth(self.next_hop)) {
                (Some(t), Some(a)) => *t == a,
                (None, None) => true,
                _ => false,
            },
    {
        match &self.next_hop {
            NextHop::Bilateral { auth, .. } => auth.as_ref(),
            NextHop::Multilateral { auth, .. } => auth.as_ref(),
        }
    }
}

/// A route together with its current health.
#[derive(Debug, PartialEq, Eq)]
pub struct DynamicRoute {
    pub config: StaticRoute,
    pub status: RouteStatus,
}

impl DynamicRoute {
    /// A route as it starts at `now`: infallible without failover, else
    /// healthy with a fresh window.
    pub fn new(config: StaticRoute, now: u64) -> (r: DynamicRoute)
        ensures
            r.config == config,
            r.status == initial_status(config.failover, now),
    {
        let status = initial_route_status(config.failover, now);
        DynamicRoute { config, status }
    }

    pub fn with_status(config: StaticRoute, status: RouteStatus) -> (r: DynamicRoute)
        ensures
            r.config == config,
            r.status == status,
    {
        DynamicRoute { config, status }
    }

    pub fn is_available(&self, now: u64) -> (r: bool)
        ensures
            r == available(self.status, now),
    {
        self.status.is_available(now)
    }

    /// Accounts for one outcome of a request sent over this route.
    pub fn update(&mut self, is_success: bool, now: u64)
        ensures
            final(self).config == old(self).config,
            final(self).status == next_status(old(self).status, old(self).config.failover, is_success, now),
    {
        let failover = self.config.failover;
        self.status.update(failover, is_success, now);
    }
}

/// The routes that share one target prefix, in the order they were given.
#[derive(Debug, PartialEq, Eq)]
pub struct RouteGroup {
    pub target_prefix: Vec<u8>,
    pub routes: Vec<DynamicRoute>,
}

/// A route's place in a table.
#[derive(Clone, Copy, Debug, PartialEq, Eq)]
pub struct RouteIndex {
    pub group_index: usize,
    pub route_index: usize,
}

impl RouteIndex {
    pub fn new(group_index: usize, route_index: usize) -> (r: RouteIndex)
        ensures
            r == (RouteIndex { group_index, route_index }),
    {
        RouteIndex { group_index, route_index }
    }
}

#[derive(Clone, Copy, Debug, PartialEq, Eq)]
pub enum RoutingError {
    /// No group's prefix matches the destination.
    NoRoute,
    /// A group matches, but none of its routes is available.
    NoHealthyRoute,
}

#[derive(Debug, PartialEq, Eq)]
pub struct RoutingTable {
    pub partition_by: RoutingPartition,
    pub groups: Vec<RouteGroup>,
}

pub open spec fn prefix_matches(prefix: Seq<u8>, destination: Seq<u8>) -> bool {
    prefix.len() <= destination.len() && destination.subrange(0, prefix.len() as int) == prefix
}

/// Group `i` matches, and no other matching group has a longer prefix or an
/// equally long one before it.
pub open spec fn is_best_group(groups: Seq<RouteGroup>, destination: Seq<u8>, i: int) -> bool {
    &&& 0 <= i < groups.len()
    &&& prefix_matches(groups[i].target_prefix@, destination)
    &&& forall|j: int|
        0 <= j < groups.len() && prefix_matches(#[trigger] groups[j].target_prefix@, destination)
            ==> groups[j].target_prefix@.len() < groups[i].target_prefix@.len() || (
        groups[j].target_prefix@.len() == groups[i].target_prefix@.len() && j >= i)
}

/// The group with the longest prefix that matches, if any.
pub open spec fn best_group(groups: Seq<RouteGroup>, destination: Seq<u8>) -> Option<int> {
    if exists|i: int| is_best_group(groups, destination, i) {
        Some(choose|i: int| is_best_group(groups, destination, i))
    } else {
        None
    }
}

proof fn lemma_best_group_unique(groups: Seq<RouteGroup>, destination: Seq<u8>, i: int, k: int)
    requires
        is_best_group(groups, destination, i),
        is_best_group(groups, destination, k),
    ensures
        i == k,
{
    assert(prefix_matches(groups[k].target_prefix@, destination));
    assert(prefix_matches(groups[i].target_prefix@, destination));
}

/// Denominator of a packet's position: the hash over `u64::MAX` lies in
/// `[0, 1]`.
pub const POSITION_SCALE: u128 = 0xFFFF_FFFF_FFFF_FFFF;

/// The sum of the weights of the available routes among the first `k`.
pub open spec fn available_weight(avail: Seq<bool>, w: Seq<u32>, k: int) -> nat
    decreases k,
{
    if k <= 0 {
        0
    } else {
        available_weight(avail, w, k - 1) + if avail[k - 1] {
            w[k - 1] as nat
        } else {
            0
        }
    }
}

pub open spec fn available_from(avail: Seq<bool>, k: int) -> bool {
    exists|j: int| k <= j < avail.len() && avail[j]
}

/// Walks the routes from `i`: the first available route whose cumulative
/// share reaches the position `h / POSITION_SCALE`, or the last available one.
pub open spec fn pick_from(avail: Seq<bool>, w: Seq<u32>, h: nat, total: nat, i: int) -> Option<int>
    decreases avail.len() - i,
{
    if i < 0 || i >= avail.len() {
        None
    } else if !avail[i] {
        pick_from(avail, w, h, total, i + 1)
    } else if h * total <= available_weight(avail, w, i + 1) * POSITION_SCALE || !available_from(
        avail,
        i + 1,
    ) {
        Some(i)
    } else {
        pick_from(avail, w, h, total, i + 1)
    }
}

/// The route that position `h / POSITION_SCALE` selects, weighting each
/// available route by its share.
pub open spec fn pick(avail: Seq<bool>, w: Seq<u32>, h: nat) -> Option<int> {
    pick_from(avail, w, h, available_weight(avail, w, avail.len() as int), 0)
}

pub open spec fn group_availability(g: RouteGroup, now: u64) -> Seq<bool> {
    Seq::new(g.routes@.len(), |j: int| available(g.routes@[j].status, now))
}

pub open spec fn group_weights(g: RouteGroup) -> Seq<u32> {
    Seq::new(g.routes@.len(), |j: int| g.routes@[j].config.partition)
}

/// What resolving a Prepare at `now` gives: a (group, route) pair or an error.
pub open spec fn resolution(
    groups: Seq<RouteGroup>,
    partition_by: RoutingPartition,
    p: PrepareView,
    now: u64,
) -> Result<(int, int), RoutingError> {
    match best_group(groups, p.destination) {
        None => Err(RoutingError::NoRoute),
        Some(gi) => {
            let g = groups[gi];
            let h: nat = if g.routes@.len() > 1 {
                stable_hash(partition_key(partition_by, p)) as nat
            } else {
                0
            };
            match pick(group_availability(g, now), group_weights(g), h) {
                Some(ri) => Ok((gi, ri)),
                None => Err(RoutingError::NoHealthyRoute),
            }
        },
    }
}

proof fn lemma_pick_from(avail: Seq<bool>, w: Seq<u32>, h: nat, total: nat, i: int)
    requires
        0 <= i <= avail.len(),
    ensures
        pick_from(avail, w, h, total, i) matches Some(k) ==> i <= k < avail.len() && avail[k],
        pick_from(avail, w, h, total, i) is None <==> !available_from(avail, i),
    decreases avail.len() - i,
{
    if i < avail.len() {
        lemma_pick_from(avail, w, h, total, i + 1);
        if available_from(avail, i + 1) {
            let j = choose|j: int| i + 1 <= j < avail.len() && avail[j];
            assert(i <= j < avail.len() && avail[j]);
        }
        if !avail[i] && available_from(avail, i) {
            let j = choose|j: int| i <= j < avail.len() && avail[j];
            assert(i + 1 <= j);
        }
    }
}

/// When every route of the matching group is unavailable at `now`,
/// resolution finds no healthy route.
pub proof fn lemma_all_unavailable_gives_no_healthy_route(
    groups: Seq<RouteGroup>,
    partition_by: RoutingPartition,
    p: PrepareView,
    now: u64,
)
    requires
        best_group(groups, p.destination) matches Some(gi) && forall|j: int|
            0 <= j < groups[gi].routes@.len() ==> !available(
                #[trigger] groups[gi].routes@[j].status,
                now,
            ),
    ensures
        resolution(groups, partition_by, p, now) == Err::<(int, int), RoutingError>(
            RoutingError::NoHealthyRoute,
        ),
{
    let gi = best_group(groups, p.destination).unwrap();
    let g = groups[gi];
    let avail = group_availability(g, now);
    let h: nat = if g.routes@.len() > 1 {
        stable_hash(partition_key(partition_by, p)) as nat
    } else {
        0
    };
    lemma_pick_from(avail, group_weights(g), h, available_weight(avail, group_weights(g), avail.len() as int), 0);
    assert(!available_from(avail, 0));
}

/// Resolution depends on the instant only through which routes are
/// available: with the same table and Prepare, two instants at which every
/// route is equally available resolve alike.
pub proof fn lemma_resolution_repeatable(
    groups: Seq<RouteGroup>,
    partition_by: RoutingPartition,
    p: PrepareView,
    now1: u64,
    now2: u64,
)
    requires
        forall|gi: int, j: int|
            0 <= gi < groups.len() && 0 <= j < groups[gi].routes@.len() ==> available(
                #[trigger] groups[gi].routes@[j].status,
                now1,
            ) == available(groups[gi].routes@[j].status, now2),
    ensures
        resolution(groups, partition_by, p, now1) == resolution(groups, partition_by, p, now2),
{
    if let Some(gi) = best_group(groups, p.destination) {
        let g = groups[gi];
        assert(group_availability(g, now1) =~= group_availability(g, now2));
    }
}

pub open spec fn has_prefix(p: Seq<u8>) -> spec_fn(StaticRoute) -> bool {
    |r: StaticRoute| r.target_prefix@ == p
}

pub open spec fn configs(rs: Seq<DynamicRoute>) -> Seq<StaticRoute> {
    rs.map_values(|d: DynamicRoute| d.config)
}

/// The routes of group `gi` are the given routes with its prefix, in their
/// order, each with its starting status.
pub open spec fn groups_built_from(groups: Seq<RouteGroup>, routes: Seq<StaticRoute>, now: u64) -> bool {
    &&& forall|gi: int| 0 <= gi < groups.len() ==> configs(#[trigger] groups[gi].routes@)
        == routes.filter(has_prefix(groups[gi].target_prefix@))
    &&& forall|gi: int| 0 <= gi < groups.len() ==> (#[trigger] groups[gi].routes@).len() > 0
    &&& forall|gi: int, ri: int|
        0 <= gi < groups.len() && 0 <= ri < groups[gi].routes@.len() ==> (
        #[trigger] groups[gi].routes@[ri]).status == initial_status(
            groups[gi].routes@[ri].config.failover,
            now,
        )
    &&& forall|a: int, b: int|
        0 <= a < groups.len() && 0 <= b < groups.len() && a != b ==> (#[trigger] groups[a].target_prefix@)
            != (#[trigger] groups[b].target_prefix@)
    &&& forall|k: int| 0 <= k < routes.len() ==> has_group(groups, (#[trigger] routes[k]).target_prefix@)
}

/// Some group has prefix `p`.
pub open spec fn has_group(groups: Seq<RouteGroup>, p: Seq<u8>) -> bool {
    exists|gi: int| 0 <= gi < groups.len() && groups[gi].target_prefix@ == p
}

/// `a` comes before `b` byte by byte (compared up to the shorter length).
pub open spec fn lex_less(a: Seq<u8>, b: Seq<u8>) -> bool
    decreases a.len(),
{
    if a.len() == 0 || b.len() == 0 {
        false
    } else if a[0] != b[0] {
        a[0] < b[0]
    } else {
        lex_less(a.drop_first(), b.drop_first())
    }
}

/// The order of the groups: longer prefixes first, equally long ones by
/// their bytes ascending.
pub open spec fn group_precedes(a: Seq<u8>, b: Seq<u8>) -> bool {
    a.len() > b.len() || (a.len() == b.len() && lex_less(a, b))
}

pub open spec fn groups_sorted(gs: Seq<RouteGroup>) -> bool {
    forall|a: int, b: int|
        0 <= a < b < gs.len() ==> group_precedes(
            #[trigger] gs[a].target_prefix@,
            #[trigger] gs[b].target_prefix@,
        )
}

proof fn lemma_lex_transitive(a: Seq<u8>, b: Seq<u8>, c: Seq<u8>)
    requires
        lex_less(a, b),
        lex_less(b, c),
    ensures
        lex_less(a, c),
    decreases a.len(),
{
    if a[0] == b[0] && b[0] == c[0] {
        lemma_lex_transitive(a.drop_first(), b.drop_first(), c.drop_first());
    }
}

proof fn lemma_lex_total(a: Seq<u8>, b: Seq<u8>)
    requires
        a.len() == b.len(),
        a != b,
    ensures
        lex_less(a, b) || lex_less(b, a),
    decreases a.len(),
{
    if a.len() == 0 {
        assert(a =~= b);
    } else if a[0] == b[0] {
        if a.drop_first() == b.drop_first() {
            assert(a =~= b) by {
                assert forall|i: int| 0 <= i < a.len() implies a[i] == b[i] by {
                    if i > 0 {
                        assert(a[i] == a.drop_first()[i - 1]);
                        assert(b[i] == b.drop_first()[i - 1]);
                    }
                }
            }
        }
        lemma_lex_total(a.drop_first(), b.drop_first());
    }
}

proof fn lemma_lex_asymmetric(a: Seq<u8>, b: Seq<u8>)
    ensures
        !(lex_less(a, b) && lex_less(b, a)),
    decreases a.len(),
{
    if a.len() > 0 && b.len() > 0 && a[0] == b[0] {
        lemma_lex_asymmetric(a.drop_first(), b.drop_first());
    }
}

proof fn lemma_precedes_transitive(a: Seq<u8>, b: Seq<u8>, c: Seq<u8>)
    requires
        group_precedes(a, b),
        group_precedes(b, c),
    ensures
        group_precedes(a, c),
{
    if a.len() == b.len() && b.len() == c.len() {
        lemma_lex_transitive(a, b, c);
    }
}

/// Whether prefix `a` comes before prefix `b`.
pub fn precedes(a: &[u8], b: &[u8]) -> (r: bool)
    ensures
        r == group_precedes(a@, b@),
{
    if a.len() != b.len() {
        return a.len() > b.len();
    }
    let n = a.len();
    let mut i: usize = 0;
    assert(a@.subrange(0, n as int) =~= a@);
    assert(b@.subrange(0, n as int) =~= b@);
    while i < n
        invariant
            n == a@.len(),
            n == b@.len(),
            i <= n,
            lex_less(a@, b@) == lex_less(a@.subrange(i as int, n as int), b@.subrange(i as int, n as int)),
        decreases n - i,
    {
        let ghost sa = a@.subrange(i as int, n as int);
        let ghost sb = b@.subrange(i as int, n as int);
        assert(sa.drop_first() =~= a@.subrange(i + 1, n as int));
        assert(sb.drop_first() =~= b@.subrange(i + 1, n as int));
        if a[i] != b[i] {
            return a[i] < b[i];
        }
        i += 1;
    }
    false
}

/// Where a group with `prefix` goes in sorted `groups`: after every group
/// that precedes it.
fn insert_position(groups: &Vec<RouteGroup>, prefix: &[u8]) -> (pos: usize)
    ensures
        pos <= groups@.len(),
        forall|a: int| 0 <= a < pos ==> group_precedes(#[trigger] groups@[a].target_prefix@, prefix@),
        pos < groups@.len() ==> !group_precedes(groups@[pos as int].target_prefix@, prefix@),
{
    let mut pos: usize = 0;
    while pos < groups.len() && precedes(groups[pos].target_prefix.as_slice(), prefix)
        invariant
            pos <= groups@.len(),
            forall|a: int| 0 <= a < pos ==> group_precedes(#[trigger] groups@[a].target_prefix@, prefix@),
        decreases groups.len() - pos,
    {
        pos += 1;
    }
    pos
}

proof fn lemma_move_last_covers(g1: Seq<RouteGroup>, pos: int, p: Seq<u8>)
    requires
        0 <= pos < g1.len(),
        exists|gi: int| 0 <= gi < g1.len() && g1[gi].target_prefix@ == p,
    ensures
        exists|gi: int| 0 <= gi < g1.len() && g1.drop_last().insert(pos, g1.last())[gi].target_prefix@ == p,
{
    let g2 = g1.drop_last().insert(pos, g1.last());
    let b = choose|b: int| 0 <= b < g1.len() && g1[b].target_prefix@ == p;
    let a = if b < pos {
        b
    } else if b == g1.len() - 1 {
        pos
    } else {
        b + 1
    };
    assert(g2[a] == g1[b]);
}

/// Moving the last group to `pos` keeps what the groups are built from.
proof fn lemma_move_last(g1: Seq<RouteGroup>, pos: int, routes: Seq<StaticRoute>, now: u64)
    requires
        groups_built_from(g1, routes, now),
        0 <= pos < g1.len(),
    ensures
        ({
            let g2 = g1.drop_last().insert(pos, g1.last());
            &&& g2.len() == g1.len()
            &&& groups_built_from(g2, routes, now)
            &&& forall|a: int| 0 <= a < g2.len() ==> #[trigger] g2[a] == g1[if a < pos {
                a
            } else if a == pos {
                g1.len() - 1
            } else {
                a - 1
            }]
        }),
{
    let g2 = g1.drop_last().insert(pos, g1.last());
    let f = |a: int| if a < pos {
        a
    } else if a == pos {
        g1.len() - 1
    } else {
        a - 1
    };
    assert forall|a: int| 0 <= a < g2.len() implies #[trigger] g2[a] == g1[f(a)] by {}
    assert forall|gi: int| 0 <= gi < g2.len() implies configs(#[trigger] g2[gi].routes@)
        == routes.filter(has_prefix(g2[gi].target_prefix@)) by {
        assert(g2[gi] == g1[f(gi)]);
    }
    assert forall|gi: int| 0 <= gi < g2.len() implies (#[trigger] g2[gi].routes@).len() > 0 by {
        assert(g2[gi] == g1[f(gi)]);
    }
    assert forall|gi: int, ri: int|
        0 <= gi < g2.len() && 0 <= ri < g2[gi].routes@.len() implies (
        #[trigger] g2[gi].routes@[ri]).status == initial_status(g2[gi].routes@[ri].config.failover, now) by {
        assert(g2[gi] == g1[f(gi)]);
    }
    assert forall|a: int, b: int|
        0 <= a < g2.len() && 0 <= b < g2.len() && a != b implies (#[trigger] g2[a].target_prefix@) != (
        #[trigger] g2[b].target_prefix@) by {
        assert(g2[a] == g1[f(a)]);
        assert(g2[b] == g1[f(b)]);
    }
    assert forall|k: int| 0 <= k < routes.len() implies has_group(g2, (#[trigger] routes[k]).target_prefix@) by {
        let p = routes[k].target_prefix@;
        lemma_move_last_covers(g1, pos, p);
        let a = choose|a: int| 0 <= a < g1.len() && g2[a].target_prefix@ == p;
        assert(g2[a].target_prefix@ == routes[k].target_prefix@);
    }
    assert(groups_built_from(g2, routes, now));
}

fn find_group(groups: &Vec<RouteGroup>, prefix: &[u8]) -> (r: Option<usize>)
    ensures
        match r {
            Some(i) => i < groups@.len() && groups@[i as int].target_prefix@ == prefix@,
            None => forall|j: int| 0 <= j < groups@.len() ==> (#[trigger] groups@[j].target_prefix@) != prefix@,
        },
{
    let mut i: usize = 0;
    while i < groups.len()
        invariant
            i <= groups@.len(),
            forall|j: int| 0 <= j < i ==> (#[trigger] groups@[j].target_prefix@) != prefix@,
        decreases groups.len() - i,
    {
        if bytes_equal(groups[i].target_prefix.as_slice(), prefix) {
            return Some(i);
        }
        i += 1;
    }
    None
}

impl RoutingTable {
    /// Small enough for the weight arithmetic of resolution.
    pub open spec fn wf(&self) -> bool {
        forall|gi: int| 0 <= gi < self.groups@.len() ==> (#[trigger] self.groups@[gi]).routes@.len()
            <= u32::MAX
    }

    /// Groups the routes by target prefix, keeping their order within each
    /// group, and orders the groups longest prefix first, equally long ones
    /// by bytes ascending; every route starts as `DynamicRoute::new` makes it
    /// at `now`.
    pub fn new(routes: Vec<StaticRoute>, partition_by: RoutingPartition, now: u64) -> (r: RoutingTable)
        requires
            routes@.len() <= u32::MAX,
        ensures
            r.partition_by == partition_by,
            r.wf(),
            groups_built_from(r.groups@, routes@, now),
            groups_sorted(r.groups@),
    {
        let ghost input = routes@;
        let mut routes = routes;
        let n = routes.len();
        let mut groups: Vec<RouteGroup> = Vec::new();
        let mut i: usize = 0;
        while i < n
            invariant
                n == input.len(),
                n <= u32::MAX,
                i <= n,
                routes@ == input.subrange(i as int, n as int),
                groups_built_from(groups@, input.subrange(0, i as int), now),
                groups_sorted(groups@),
                forall|gi: int| 0 <= gi < groups@.len() ==> (#[trigger] groups@[gi]).routes@.len() <= i,
            decreases n - i,
        {
            let ghost done = input.subrange(0, i as int);
            let ghost old_groups = groups@;
            let route = routes.remove(0);
            assert(route == input[i as int]);
            assert(input.subrange(0, i + 1) =~= done.push(route));
            assert(routes@ =~= input.subrange(i + 1, n as int));
            let ghost new_done = done.push(route);
            match find_group(&groups, route.target_prefix.as_slice()) {
                Some(gi) => {
                    let ghost p = groups@[gi as int].target_prefix@;
                    let mut g = groups.remove(gi);
                    g.routes.push(DynamicRoute::new(route, now));
                    groups.insert(gi, g);
                    assert(groups@ =~= old_groups.update(gi as int, groups@[gi as int]));
                    assert forall|a: int| 0 <= a < groups@.len() implies configs(
                        #[trigger] groups@[a].routes@,
                    ) == new_done.filter(has_prefix(groups@[a].target_prefix@)) by {
                        done.lemma_filter_push(route, has_prefix(groups@[a].target_prefix@));
                        if a == gi {
                            assert(configs(groups@[a].routes@) =~= configs(old_groups[a].routes@).push(
                                route,
                            ));
                        }
                    }
                    assert forall|k: int| 0 <= k < new_done.len() implies has_group(groups@, (#[trigger] new_done[k]).target_prefix@) by {
                        if k < i {
                            assert(new_done[k] == done[k]);
                            let b = choose|b: int|
                                0 <= b < old_groups.len() && (#[trigger] old_groups[b].target_prefix@)
                                    == (#[trigger] done[k]).target_prefix@;
                            assert(groups@[b].target_prefix@ == old_groups[b].target_prefix@);
                        } else {
                            assert(groups@[gi as int].target_prefix@ == new_done[k].target_prefix@);
                        }
                    }
                    assert forall|a: int| 0 <= a < groups@.len() implies (#[trigger] groups@[a]).target_prefix@
                        == old_groups[a].target_prefix@ && groups@[a].routes@.len() > 0
                        && groups@[a].routes@.len() <= i + 1 && (forall|ri: int|
                        0 <= ri < groups@[a].routes@.len() ==> (#[trigger] groups@[a].routes@[ri]).status
                            == initial_status(groups@[a].routes@[ri].config.failover, now)) by {
                        if a == gi {
                            assert forall|ri: int| 0 <= ri < groups@[a].routes@.len() implies (
                            #[trigger] groups@[a].routes@[ri]).status == initial_status(
                                groups@[a].routes@[ri].config.failover,
                                now,
                            ) by {
                                if ri < old_groups[a].routes@.len() {
                                    assert(groups@[a].routes@[ri] == old_groups[a].routes@[ri]);
                                }
                            }
                        }
                    }
                    assert(groups_built_from(groups@, new_done, now));
                    assert forall|a: int, b: int| 0 <= a < b < groups@.len() implies group_precedes(
                        #[trigger] groups@[a].target_prefix@,
                        #[trigger] groups@[b].target_prefix@,
                    ) by {
                        assert(groups@[a].target_prefix@ == old_groups[a].target_prefix@);
                        assert(groups@[b].target_prefix@ == old_groups[b].target_prefix@);
                    }
                },
                None => {
                    let prefix = copy_bytes(route.target_prefix.as_slice(), 0, route.target_prefix.len());
                    assert(prefix@ =~= route.target_prefix@);
                    let pos = insert_position(&groups, prefix.as_slice());
                    let mut rs: Vec<DynamicRoute> = Vec::new();
                    rs.push(DynamicRoute::new(route, now));
                    groups.push(RouteGroup { target_prefix: prefix, routes: rs });
                    assert forall|a: int| 0 <= a < groups@.len() implies configs(
                        #[trigger] groups@[a].routes@,
                    ) == new_done.filter(has_prefix(groups@[a].target_prefix@)) by {
                        done.lemma_filter_push(route, has_prefix(groups@[a].target_prefix@));
                        if a == old_groups.len() {
                            assert forall|k: int| 0 <= k < done.len() implies !has_prefix(prefix@)(
                                #[trigger] done[k],
                            ) by {
                                let b = choose|b: int|
                                    0 <= b < old_groups.len() && (#[trigger] old_groups[b].target_prefix@)
                                        == (#[trigger] done[k]).target_prefix@;
                            }
                            done.lemma_all_neg_filter_empty(has_prefix(prefix@));
                            assert(done.filter(has_prefix(prefix@)) =~= Seq::<StaticRoute>::empty());
                            assert(configs(groups@[a].routes@) =~= seq![route]);
                            assert(Seq::<StaticRoute>::empty().push(route) =~= seq![route]);
                        } else {
                            assert(groups@[a] == old_groups[a]);
                        }
                    }
                    assert forall|k: int| 0 <= k < new_done.len() implies has_group(groups@, (#[trigger] new_done[k]).target_prefix@) by {
                        if k < i {
                            assert(new_done[k] == done[k]);
                            let b = choose|b: int|
                                0 <= b < old_groups.len() && (#[trigger] old_groups[b].target_prefix@)
                                    == (#[trigger] done[k]).target_prefix@;
                            assert(groups@[b] == old_groups[b]);
                        } else {
                            assert(groups@[old_groups.len() as int].target_prefix@ == new_done[k].target_prefix@);
                        }
                    }
                    assert forall|a: int| 0 <= a < old_groups.len() implies (#[trigger] groups@[a]) == old_groups[a] by {}
                    assert forall|a: int| 0 <= a < groups@.len() implies (#[trigger] groups@[a]).routes@.len() > 0
                        && groups@[a].routes@.len() <= i + 1 && (forall|ri: int|
                        0 <= ri < groups@[a].routes@.len() ==> (#[trigger] groups@[a].routes@[ri]).status
                            == initial_status(groups@[a].routes@[ri].config.failover, now)) by {}
                    assert forall|a: int, b: int| 0 <= a < groups@.len() && 0 <= b < groups@.len() && a != b
                        implies (#[trigger] groups@[a].target_prefix@) != (#[trigger] groups@[b].target_prefix@) by {
                        if a == old_groups.len() {
                            assert(groups@[b] == old_groups[b]);
                        } else if b == old_groups.len() {
                            assert(groups@[a] == old_groups[a]);
                        }
                    }
                    assert(groups_built_from(groups@, new_done, now));
                    let ghost pushed = groups@;
                    let g = groups.pop().unwrap();
                    groups.insert(pos, g);
                    assert(groups@ =~= pushed.drop_last().insert(pos as int, pushed.last()));
                    proof {
                        lemma_move_last(pushed, pos as int, new_done, now);
                        let np = pushed.last().target_prefix@;
                        assert(np == prefix@);
                        assert forall|a: int, b: int| 0 <= a < b < groups@.len() implies group_precedes(
                            #[trigger] groups@[a].target_prefix@,
                            #[trigger] groups@[b].target_prefix@,
                        ) by {
                            let ga = groups@[a].target_prefix@;
                            let gb = groups@[b].target_prefix@;
                            if a == pos {
                                // The new group precedes the one it was put before.
                                let first = old_groups[pos as int].target_prefix@;
                                assert(!group_precedes(first, np));
                                assert(first != np);
                                if first.len() == np.len() {
                                    lemma_lex_total(first, np);
                                }
                                if b - 1 > pos {
                                    assert(group_precedes(first, old_groups[b - 1].target_prefix@));
                                    lemma_precedes_transitive(np, first, gb);
                                }
                            } else if b == pos {
                                assert(group_precedes(old_groups[a].target_prefix@, np));
                            } else {
                                let oa = if a < pos { a } else { a - 1 };
                                let ob = if b < pos { b } else { b - 1 };
                                assert(ga == old_groups[oa].target_prefix@);
                                assert(gb == old_groups[ob].target_prefix@);
                            }
                        }
                        assert forall|gi: int| 0 <= gi < groups@.len() implies (#[trigger] groups@[gi]).routes@.len() <= i + 1 by {
                            assert(groups@[gi] == pushed[if gi < pos { gi } else if gi == pos { pushed.len() - 1 } else { gi - 1 }]);
                        }
                    }
                },
            }
            i += 1;
        }
        assert(input.subrange(0, n as int) =~= input);
        RoutingTable { partition_by, groups }
    }
}

/// The route of the group that position `h / POSITION_SCALE` selects.
fn pick_route(g: &RouteGroup, h: u64, now: u64) -> (r: Option<usize>)
    requires
        g.routes@.len() <= u32::MAX,
    ensures
        match pick(group_availability(*g, now), group_weights(*g), h as nat) {
            Some(k) => r == Some(k as usize),
            None => r is None,
        },
        r matches Some(k) ==> k < g.routes@.len(),
{
    let ghost avail = group_availability(*g, now);
    let ghost w = group_weights(*g);
    let n = g.routes.len();
    let mut total: u128 = 0;
    let mut last: usize = n;
    let mut k: usize = 0;
    while k < n
        invariant
            n == g.routes@.len(),
            n <= u32::MAX,
            avail == group_availability(*g, now),
            w == group_weights(*g),
            k <= n,
            total as nat == available_weight(avail, w, k as int),
            total <= k * 0xFFFF_FFFFu128,
            last == n ==> forall|j: int| 0 <= j < k ==> !avail[j],
            last < n ==> last < k && avail[last as int] && forall|j: int| last < j < k ==> !avail[j],
            last <= n,
        decreases n - k,
    {
        if g.routes[k].is_available(now) {
            total = total + g.routes[k].config.partition as u128;
            last = k;
        }
        k += 1;
    }
    let ghost total_spec = available_weight(avail, w, n as int);
    let mut i: usize = 0;
    let mut cum: u128 = 0;
    while i < n
        invariant
            n == g.routes@.len(),
            n <= u32::MAX,
            avail == group_availability(*g, now),
            w == group_weights(*g),
            avail.len() == n,
            i <= n,
            total as nat == total_spec,
            total <= n * 0xFFFF_FFFFu128,
            cum as nat == available_weight(avail, w, i as int),
            cum <= i * 0xFFFF_FFFFu128,
            last == n ==> forall|j: int| 0 <= j < n ==> !avail[j],
            last < n ==> avail[last as int] && forall|j: int| last < j < n ==> !avail[j],
            last < n ==> i <= last,
            last <= n,
            pick(avail, w, h as nat) == pick_from(avail, w, h as nat, total_spec, i as int),
        decreases n - i,
    {
        if g.routes[i].is_available(now) {
            cum = cum + g.routes[i].config.partition as u128;
            proof {
                let a = h as int;
                let b = total as int;
                assert(a * b <= u128::MAX as int) by (nonlinear_arith)
                    requires
                        0 <= a <= u64::MAX as int,
                        0 <= b <= 0xFFFF_FFFF * 0xFFFF_FFFF,
                ;
                let c = cum as int;
                assert(c * 0xFFFF_FFFF_FFFF_FFFF <= u128::MAX as int) by (nonlinear_arith)
                    requires
                        0 <= c <= 0x1_0000_0000 * 0xFFFF_FFFF,
                ;
                if last == i {
                    assert(!available_from(avail, i + 1));
                } else {
                    assert(available_from(avail, i + 1)) by {
                        assert(i + 1 <= last < n && avail[last as int]);
                    }
                }
            }
            if (h as u128) * total <= cum * POSITION_SCALE || last == i {
                return Some(i);
            }
        }
        i += 1;
    }
    proof {
        lemma_pick_from(avail, w, h as nat, total_spec, n as int);
    }
    None
}

impl RoutingTable {
    /// The group whose prefix is the longest that `destination` starts with.
    pub fn resolve_group(&self, destination: &[u8]) -> (r: Option<usize>)
        ensures
            r matches Some(i) ==> i < self.groups@.len(),
            match r {
                Some(i) => best_group(self.groups@, destination@) == Some(i as int),
                None => best_group(self.groups@, destination@) is None,
            },
    {
        let n = self.groups.len();
        let ghost gs = self.groups@;
        let mut best: usize = n;
        let mut i: usize = 0;
        while i < n
            invariant
                n == gs.len(),
                gs == self.groups@,
                i <= n,
                best <= n,
                best == n ==> forall|j: int| 0 <= j < i ==> !prefix_matches(#[trigger] gs[j].target_prefix@, destination@),
                best < n ==> best < i && prefix_matches(gs[best as int].target_prefix@, destination@)
                    && forall|j: int| 0 <= j < i && prefix_matches(#[trigger] gs[j].target_prefix@, destination@)
                    ==> gs[j].target_prefix@.len() < gs[best as int].target_prefix@.len() || (
                    gs[j].target_prefix@.len() == gs[best as int].target_prefix@.len() && j >= best),
            decreases n - i,
        {
            let prefix = self.groups[i].target_prefix.as_slice();
            if starts_with(destination, prefix) {
                if best == n || prefix.len() > self.groups[best].target_prefix.len() {
                    best = i;
                }
            }
            i += 1;
        }
        if best == n {
            assert(!exists|k: int| is_best_group(gs, destination@, k));
            None
        } else {
            assert(is_best_group(gs, destination@, best as int));
            let ghost k = choose|k: int| is_best_group(gs, destination@, k);
            proof {
                lemma_best_group_unique(gs, destination@, k, best as int);
            }
            Some(best)
        }
    }

    /// The route that a Prepare goes to at `now`: in the group with the
    /// longest matching prefix, the available route that the Prepare's
    /// position selects.
    pub fn resolve(&self, prepare: &Prepare, now: u64) -> (r: Result<RouteIndex, RoutingError>)
        requires
            self.wf(),
        ensures
            match resolution(self.groups@, self.partition_by, prepare@, now) {
                Ok((gi, ri)) => r == Ok::<RouteIndex, RoutingError>(
                    RouteIndex { group_index: gi as usize, route_index: ri as usize },
                ),
                Err(e) => r == Err::<RouteIndex, RoutingError>(e),
            },
            r matches Ok(i) ==> i.group_index < self.groups@.len() && i.route_index
                < self.groups@[i.group_index as int].routes@.len(),
    {
        let gi = match self.resolve_group(prepare.destination.as_slice()) {
            Some(gi) => gi,
            None => return Err(RoutingError::NoRoute),
        };
        let group = &self.groups[gi];
        let h = if group.routes.len() > 1 {
            self.partition_by.find(prepare)
        } else {
            0
        };
        proof {
            let avail = group_availability(*group, now);
            let w = group_weights(*group);
            lemma_pick_from(avail, w, h as nat, available_weight(avail, w, avail.len() as int), 0);
        }
        match pick_route(group, h, now) {
            Some(ri) => Ok(RouteIndex { group_index: gi, route_index: ri }),
            None => Err(RoutingError::NoHealthyRoute),
        }
    }

    /// Accounts for one outcome of a request sent over the route at `index`.
    pub fn update(&mut self, index: RouteIndex, is_success: bool, now: u64)
        requires
            index.group_index < old(self).groups@.len(),
            index.route_index < old(self).groups@[index.group_index as int].routes@.len(),
        ensures
            final(self).partition_by == old(self).partition_by,
            final(self).groups@.len() == old(self).groups@.len(),
            forall|a: int| 0 <= a < final(self).groups@.len() && a != index.group_index ==> #[trigger] final(self).groups@[a] == old(self).groups@[a],
            ({
                let g0 = old(self).groups@[index.group_index as int];
                let g1 = final(self).groups@[index.group_index as int];
                &&& g1.target_prefix == g0.target_prefix
                &&& g1.routes@.len() == g0.routes@.len()
                &&& forall|b: int| 0 <= b < g1.routes@.len() && b != index.route_index ==> #[trigger] g1.routes@[b] == g0.routes@[b]
                &&& g1.routes@[index.route_index as int].config == g0.routes@[index.route_index as int].config
                &&& g1.routes@[index.route_index as int].status == next_status(
                    g0.routes@[index.route_index as int].status,
                    g0.routes@[index.route_index as int].config.failover,
                    is_success,
                    now,
                )
            }),
            final(self).wf() == old(self).wf(),
    {
        let mut g = self.groups.remove(index.group_index);
        let mut route = g.routes.remove(index.route_index);
        route.update(is_success, now);
        g.routes.insert(index.route_index, route);
        self.groups.insert(index.group_index, g);
        assert forall|a: int| 0 <= a < self.groups@.len() implies (#[trigger] self.groups@[a]).routes@.len()
            == old(self).groups@[a].routes@.len() by {
            if a != index.group_index {
                assert(self.groups@[a] == old(self).groups@[a]);
            }
        }
        assert(self.wf() == old(self).wf()) by {
            if old(self).wf() {
                assert forall|a: int| 0 <= a < self.groups@.len() implies (#[trigger] self.groups@[a]).routes@.len() <= u32::MAX by {
                    assert(old(self).groups@[a].routes@.len() <= u32::MAX);
                }
            }
            if self.wf() {
                assert forall|a: int| 0 <= a < old(self).groups@.len() implies (#[trigger] old(self).groups@[a]).routes@.len() <= u32::MAX by {
                    assert(self.groups@[a].routes@.len() <= u32::MAX);
                }
            }
        }
    }

    /// The route at `index`.
    pub fn route(&self, index: RouteIndex) -> (r: &DynamicRoute)
        requires
            index.group_index < self.groups@.len(),
            index.route_index < self.groups@[index.group_index as int].routes@.len(),
        ensures
            *r == self.groups@[index.group_index as int].routes@[index.route_index as int],
    {
        &self.groups[index.group_index].routes[index.route_index]
    }
}

/// A resolved route lies in the table.
pub proof fn lemma_resolution_in_range(
    groups: Seq<RouteGroup>,
    partition_by: RoutingPartition,
    p: PrepareView,
    now: u64,
)
    ensures
        resolution(groups, partition_by, p, now) matches Ok((gi, ri)) ==> 0 <= gi < groups.len()
            && 0 <= ri < groups[gi].routes@.len(),
{
    if let Some(gi) = best_group(groups, p.destination) {
        let g = groups[gi];
        let avail = group_availability(g, now);
        let w = group_weights(g);
        let h: nat = if g.routes@.len() > 1 {
            stable_hash(partition_key(partition_by, p)) as nat
        } else {
            0
        };
        lemma_pick_from(avail, w, h, available_weight(avail, w, avail.len() as int), 0);
    }
}

/// A route whose `until` has passed takes part in resolution again: the
/// table resolves exactly as it would with that route Healthy.
pub proof fn lemma_recovered_route_resolves_as_healthy(
    g1: Seq<RouteGroup>,
    g2: Seq<RouteGroup>,
    partition_by: RoutingPartition,
    p: PrepareView,
    now: u64,
    gi: int,
    ri: int,
)
    requires
        g1.len() == g2.len(),
        forall|a: int|
            0 <= a < g1.len() ==> (#[trigger] g1[a]).target_prefix@ == g2[a].target_prefix@
                && g1[a].routes@.len() == g2[a].routes@.len(),
        forall|a: int, b: int|
            0 <= a < g1.len() && 0 <= b < g1[a].routes@.len() ==> (#[trigger] g1[a].routes@[b]).config.partition
                == g2[a].routes@[b].config.partition && ((a, b) != (gi, ri) ==> g1[a].routes@[b].status
                == g2[a].routes@[b].status),
        0 <= gi < g1.len(),
        0 <= ri < g1[gi].routes@.len(),
        g1[gi].routes@[ri].status matches RouteStatus::Unhealthy { until } && until < now,
        g2[gi].routes@[ri].status is Healthy,
    ensures
        resolution(g1, partition_by, p, now) == resolution(g2, partition_by, p, now),
{
    let d = p.destination;
    assert forall|i: int| is_best_group(g1, d, i) == is_best_group(g2, d, i) by {
        if 0 <= i < g1.len() {
            assert(g1[i].target_prefix@ == g2[i].target_prefix@);
            if is_best_group(g1, d, i) {
                assert forall|j: int|
                    0 <= j < g2.len() && prefix_matches(#[trigger] g2[j].target_prefix@, d) implies g2[j].target_prefix@.len()
                        < g2[i].target_prefix@.len() || (g2[j].target_prefix@.len() == g2[i].target_prefix@.len() && j >= i) by {
                    assert(g1[j].target_prefix@ == g2[j].target_prefix@);
                }
            }
            if is_best_group(g2, d, i) {
                assert forall|j: int|
                    0 <= j < g1.len() && prefix_matches(#[trigger] g1[j].target_prefix@, d) implies g1[j].target_prefix@.len()
                        < g1[i].target_prefix@.len() || (g1[j].target_prefix@.len() == g1[i].target_prefix@.len() && j >= i) by {
                    assert(g1[j].target_prefix@ == g2[j].target_prefix@);
                }
            }
        }
    }
    if exists|i: int| is_best_group(g1, d, i) {
        let i1 = choose|i: int| is_best_group(g1, d, i);
        let i2 = choose|i: int| is_best_group(g2, d, i);
        assert(is_best_group(g2, d, i1));
        lemma_best_group_unique(g2, d, i1, i2);
        let a = i1;
        assert(group_availability(g1[a], now) =~= group_availability(g2[a], now)) by {
            assert forall|b: int| 0 <= b < g1[a].routes@.len() implies available(
                #[trigger] g1[a].routes@[b].status,
                now,
            ) == available(g2[a].routes@[b].status, now) by {
                assert(g1[a].routes@[b].config.partition == g2[a].routes@[b].config.partition);
            }
        }
        assert(group_weights(g1[a]) =~= group_weights(g2[a])) by {
            assert forall|b: int| 0 <= b < g1[a].routes@.len() implies (#[trigger] g1[a].routes@[b]).config.partition
                == g2[a].routes@[b].config.partition by {}
        }
    } else {
        assert(!exists|i: int| is_best_group(g2, d, i));
    }
}

} // verus!
