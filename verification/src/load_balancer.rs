//! Backend selection and per-backend load accounting.
//!
//! A [`Balancer`] owns an ordered, fixed set of backends and picks one for
//! every new connection. The pick comes with a [`ServerId`], which names the
//! slot and the generation it had at the time; handing the id back releases
//! the load that the pick attributed to the backend.
//!
//! The balancer is a plain value: a pick and a release each take it by
//! exclusive reference, so each is one indivisible step. Sharing it between
//! connection handlers is left to the caller.

use vstd::prelude::*;

verus! {

/// Network address of a backend: an IP address as its bits, and a port.
#[derive(Clone, Copy, Debug, PartialEq, Eq, Structural)]
#[allow(inconsistent_fields)]
pub enum BackendAddr {
    V4 { ip: u32, port: u16 },
    V6 { ip: u128, port: u16 },
}

/// A backend under the least-connections policy.
pub struct ServerConnections {
    pub addr: BackendAddr,
    /// Connections attributed to this backend and not yet released.
    pub active_conns: usize,
    /// Changes whenever the slot is given to another backend.
    pub generation: usize,
}

/// A backend under the round-robin policy.
pub struct RRSlot {
    pub addr: BackendAddr,
    /// Changes whenever the slot is given to another backend.
    pub generation: usize,
}

/// Names a slot of a balancer together with the generation the slot had
/// when it was picked.
#[derive(Clone, Copy)]
pub struct ServerId {
    index: usize,
    generation: usize,
}

impl ServerId {
    /// The slot that was picked, for use in contracts.
    pub closed spec fn spec_index(&self) -> usize {
        self.index
    }

    /// The generation that the slot had when it was picked, for use in
    /// contracts.
    pub closed spec fn spec_generation(&self) -> usize {
        self.generation
    }

    /// The slot that was picked.
    #[verifier::when_used_as_spec(spec_index)]
    pub fn index(&self) -> (i: usize)
        ensures
            i == self.index(),
    {
        self.index
    }

    /// The generation that the slot had when it was picked.
    #[verifier::when_used_as_spec(spec_generation)]
    pub fn generation(&self) -> (g: usize)
        ensures
            g == self.generation(),
    {
        self.generation
    }
}

/// What a pick yields: the backend's address, its slot and the slot's
/// generation.
pub struct Pick {
    pub addr: BackendAddr,
    pub index: usize,
    pub generation: usize,
}

/// What became of a release.
#[derive(Clone, Copy, Debug, PartialEq, Eq, Structural)]
pub enum ReleaseOutcome {
    /// The policy keeps no load per backend: there was nothing to release.
    Untracked,
    /// The slot has changed hands since the pick: nothing was touched.
    Stale,
    /// The backend's load went down by one.
    Released,
    /// The backend's load was already zero, which no matching pick can
    /// explain. The load stays at zero.
    Underflow,
}

/// The selection policy together with the backends it selects from.
#[allow(inconsistent_fields)]
pub enum Balancer {
    /// Backends are picked in turn, by a counter that grows with each pick.
    RoundRobin { servers: Vec<RRSlot>, counter: usize },
    /// The backend with the fewest active connections is picked.
    LeastConnections { servers: Vec<ServerConnections> },
}

/// What a [`Balancer`] is, mathematically.
#[allow(inconsistent_fields)]
pub enum BalancerView {
    RoundRobin { servers: Seq<RRSlot>, counter: usize },
    LeastConnections { servers: Seq<ServerConnections> },
}

/// `i` is the first position of a least element of `loads`.
pub open spec fn is_first_min(loads: Seq<usize>, i: int) -> bool {
    &&& 0 <= i < loads.len()
    &&& forall|j: int| 0 <= j < loads.len() ==> loads[i] <= #[trigger] loads[j]
    &&& forall|j: int| 0 <= j < i ==> loads[i] < #[trigger] loads[j]
}

/// The first position of a least element of `loads`, where there is one.
pub open spec fn first_min(loads: Seq<usize>) -> int {
    choose|i: int| is_first_min(loads, i)
}

/// The load counters of `servers`, in order.
pub open spec fn loads_of(servers: Seq<ServerConnections>) -> Seq<usize> {
    Seq::new(servers.len(), |i: int| servers[i].active_conns)
}

/// `servers` with one more connection attributed to slot `i`. A counter at
/// its maximum starts again from zero.
pub open spec fn with_one_more(servers: Seq<ServerConnections>, i: int) -> Seq<ServerConnections> {
    servers.update(
        i,
        ServerConnections {
            addr: servers[i].addr,
            active_conns: if servers[i].active_conns == usize::MAX {
                0usize
            } else {
                (servers[i].active_conns + 1) as usize
            },
            generation: servers[i].generation,
        },
    )
}

/// `servers` with one connection fewer attributed to slot `i`.
pub open spec fn with_one_less(servers: Seq<ServerConnections>, i: int) -> Seq<ServerConnections> {
    servers.update(
        i,
        ServerConnections {
            addr: servers[i].addr,
            active_conns: (servers[i].active_conns - 1) as usize,
            generation: servers[i].generation,
        },
    )
}

impl BalancerView {
    /// Every slot has an index that a machine word holds, as is the case
    /// for the view of every [`Balancer`].
    pub open spec fn wf(self) -> bool {
        self.len() <= usize::MAX
    }

    /// Number of backends.
    pub open spec fn len(self) -> nat {
        match self {
            BalancerView::RoundRobin { servers, .. } => servers.len(),
            BalancerView::LeastConnections { servers } => servers.len(),
        }
    }

    /// The backend that the next pick yields: none where there is no
    /// backend; under round robin the slot at the counter modulo the number
    /// of backends; under least connections the first slot of least load.
    pub open spec fn pick(self) -> Option<Pick> {
        match self {
            BalancerView::RoundRobin { servers, counter } => {
                if servers.len() == 0 {
                    None
                } else {
                    let i = counter as int % servers.len() as int;
                    Some(
                        Pick {
                            addr: servers[i].addr,
                            index: i as usize,
                            generation: servers[i].generation,
                        },
                    )
                }
            },
            BalancerView::LeastConnections { servers } => {
                if servers.len() == 0 {
                    None
                } else {
                    let i = first_min(loads_of(servers));
                    Some(
                        Pick {
                            addr: servers[i].addr,
                            index: i as usize,
                            generation: servers[i].generation,
                        },
                    )
                }
            },
        }
    }

    /// The balancer after a pick. Round robin moves its counter on by one,
    /// starting again from zero past the largest value; least connections
    /// attributes one more connection to the picked backend. A balancer
    /// without backends stays as it is.
    pub open spec fn picked(self) -> BalancerView {
        match self {
            BalancerView::RoundRobin { servers, counter } => {
                if servers.len() == 0 {
                    self
                } else {
                    BalancerView::RoundRobin {
                        servers,
                        counter: if counter == usize::MAX {
                            0usize
                        } else {
                            (counter + 1) as usize
                        },
                    }
                }
            },
            BalancerView::LeastConnections { servers } => {
                if servers.len() == 0 {
                    self
                } else {
                    BalancerView::LeastConnections {
                        servers: with_one_more(servers, first_min(loads_of(servers))),
                    }
                }
            },
        }
    }

    /// Whether slot `index` exists wherever a release has to look it up.
    pub open spec fn knows(self, index: usize) -> bool {
        match self {
            BalancerView::RoundRobin { .. } => true,
            BalancerView::LeastConnections { servers } => index < servers.len(),
        }
    }

    /// What a release of slot `index`, picked at `generation`, reports.
    pub open spec fn release_outcome(self, index: usize, generation: usize) -> ReleaseOutcome {
        match self {
            BalancerView::RoundRobin { .. } => ReleaseOutcome::Untracked,
            BalancerView::LeastConnections { servers } => {
                if servers[index as int].generation != generation {
                    ReleaseOutcome::Stale
                } else if servers[index as int].active_conns == 0 {
                    ReleaseOutcome::Underflow
                } else {
                    ReleaseOutcome::Released
                }
            },
        }
    }

    /// The balancer after a release of slot `index`, picked at `generation`:
    /// one connection fewer on that slot where the release took effect, and
    /// the balancer as it was in every other case.
    pub open spec fn released(self, index: usize, generation: usize) -> BalancerView {
        match self {
            BalancerView::RoundRobin { .. } => self,
            BalancerView::LeastConnections { servers } => {
                if self.release_outcome(index, generation) == ReleaseOutcome::Released {
                    BalancerView::LeastConnections { servers: with_one_less(servers, index as int) }
                } else {
                    self
                }
            },
        }
    }
}

impl BalancerView {
    /// The balancer after slot `index` was given to another backend, which
    /// shows as the slot's generation becoming `generation`.
    pub open spec fn reassigned(self, index: usize, generation: usize) -> BalancerView {
        match self {
            BalancerView::RoundRobin { servers, counter } => BalancerView::RoundRobin {
                servers: servers.update(
                    index as int,
                    RRSlot { addr: servers[index as int].addr, generation },
                ),
                counter,
            },
            BalancerView::LeastConnections { servers } => BalancerView::LeastConnections {
                servers: servers.update(
                    index as int,
                    ServerConnections {
                        addr: servers[index as int].addr,
                        active_conns: servers[index as int].active_conns,
                        generation,
                    },
                ),
            },
        }
    }

    /// The load counters, in order; none under round robin.
    pub open spec fn loads(self) -> Seq<usize> {
        match self {
            BalancerView::RoundRobin { .. } => Seq::empty(),
            BalancerView::LeastConnections { servers } => loads_of(servers),
        }
    }
}

impl View for Balancer {
    type V = BalancerView;

    open spec fn view(&self) -> BalancerView {
        match self {
            Balancer::RoundRobin { servers, counter } => BalancerView::RoundRobin {
                servers: servers@,
                counter: *counter,
            },
            Balancer::LeastConnections { servers } => BalancerView::LeastConnections {
                servers: servers@,
            },
        }
    }
}

impl Balancer {
    /// The view of a balancer is well formed.
    pub proof fn lemma_view_wf(&self)
        ensures
            self@.wf(),
    {
        match self {
            Balancer::RoundRobin { servers, .. } => {
                assert(servers@.len() == servers.len());
            },
            Balancer::LeastConnections { servers } => {
                assert(servers@.len() == servers.len());
            },
        }
    }
}

/// A sequence has at most one first position of a least element.
pub proof fn lemma_first_min_unique(loads: Seq<usize>, i: int, j: int)
    requires
        is_first_min(loads, i),
        is_first_min(loads, j),
    ensures
        i == j,
{
    if i < j {
        assert(loads[j] < loads[i]);
        assert(loads[i] <= loads[j]);
    } else if j < i {
        assert(loads[i] < loads[j]);
        assert(loads[j] <= loads[i]);
    }
}

/// Position of the first least load among `servers`.
fn least_loaded(servers: &Vec<ServerConnections>) -> (best: usize)
    requires
        servers.len() > 0,
    ensures
        is_first_min(loads_of(servers@), best as int),
        best as int == first_min(loads_of(servers@)),
{
    let ghost loads = loads_of(servers@);
    let mut best: usize = 0;
    let mut i: usize = 1;
    while i < servers.len()
        invariant
            loads == loads_of(servers@),
            0 <= best < i <= servers.len(),
            forall|j: int| 0 <= j < i ==> loads[best as int] <= #[trigger] loads[j],
            forall|j: int| 0 <= j < best ==> loads[best as int] < #[trigger] loads[j],
        decreases servers.len() - i,
    {
        if servers[i].active_conns < servers[best].active_conns {
            best = i;
        }
        i += 1;
    }
    proof {
        assert(is_first_min(loads, best as int));
        lemma_first_min_unique(loads, best as int, first_min(loads));
    }
    best
}

impl Balancer {
    /// Picks the backend for a new connection and attributes the connection
    /// to it. Returns `None` exactly where the balancer has no backend.
    ///
    /// Round robin picks the slot at its counter modulo the number of
    /// backends and moves the counter on by one; past its largest value the
    /// counter starts again from zero. Least connections picks the first
    /// slot of least load and raises that load by one, in the same step.
    pub fn next(&mut self) -> (r: Option<(BackendAddr, ServerId)>)
        ensures
            final(self)@ == old(self)@.picked(),
            match r {
                Some((addr, id)) => old(self)@.pick() == Some(
                    Pick { addr, index: id.index(), generation: id.generation() },
                ),
                None => old(self)@.pick().is_none(),
            },
            r.is_none() <==> old(self)@.len() == 0,
            r.is_some() ==> r.unwrap().1.index() < old(self)@.len(),
            r.is_some() && old(self)@ is LeastConnections ==> is_first_min(
                old(self)@.loads(),
                r.unwrap().1.index() as int,
            ),
            r.is_some() ==> final(self)@.knows(r.unwrap().1.index()),
            final(self)@.len() == old(self)@.len(),
    {
        match self {
            Balancer::RoundRobin { servers, counter } => {
                let len = servers.len();
                if len == 0 {
                    return None;
                }
                let i = *counter % len;
                *counter = counter.wrapping_add(1);
                Some((servers[i].addr, ServerId { index: i, generation: servers[i].generation }))
            },
            Balancer::LeastConnections { servers } => {
                if servers.len() == 0 {
                    return None;
                }
                let i = least_loaded(servers);
                let addr = servers[i].addr;
                let generation = servers[i].generation;
                let active_conns = servers[i].active_conns.wrapping_add(1);
                servers[i] = ServerConnections { addr, active_conns, generation };
                Some((addr, ServerId { index: i, generation }))
            },
        }
    }

    /// Takes back the load that the pick behind `server_id` attributed.
    ///
    /// Round robin keeps no load, so nothing happens. Under least
    /// connections the slot is looked up; where its generation is no longer
    /// the one in `server_id` the slot belongs to another backend and is left
    /// alone; otherwise its load goes down by one, but never below zero.
    pub fn release(&mut self, server_id: &ServerId) -> (r: ReleaseOutcome)
        requires
            old(self)@.knows(server_id.index()),
        ensures
            r == old(self)@.release_outcome(server_id.index(), server_id.generation()),
            final(self)@ == old(self)@.released(server_id.index(), server_id.generation()),
            final(self)@.len() == old(self)@.len(),
    {
        match self {
            Balancer::RoundRobin { .. } => ReleaseOutcome::Untracked,
            Balancer::LeastConnections { servers } => {
                let i = server_id.index;
                let addr = servers[i].addr;
                let generation = servers[i].generation;
                let active_conns = servers[i].active_conns;
                if server_id.generation != generation {
                    ReleaseOutcome::Stale
                } else if active_conns == 0 {
                    ReleaseOutcome::Underflow
                } else {
                    servers[i] = ServerConnections {
                        addr,
                        active_conns: active_conns - 1,
                        generation,
                    };
                    ReleaseOutcome::Released
                }
            },
        }
    }
}

/// The claim of one connection on the backend that was picked for it.
///
/// A guard is made right after the pick and given up when the connection's
/// handling ends, however it ends. It can be neither copied nor cloned, and
/// giving it up consumes it, so the load of one pick is released at most
/// once.
pub struct ConnectionGuard {
    pub server_id: ServerId,
}

impl ConnectionGuard {
    /// Ends the claim: releases the guarded pick on `balancer`.
    pub fn release(self, balancer: &mut Balancer) -> (r: ReleaseOutcome)
        requires
            old(balancer)@.knows(self.server_id.index()),
        ensures
            r == old(balancer)@.release_outcome(
                self.server_id.index(),
                self.server_id.generation(),
            ),
            final(balancer)@ == old(balancer)@.released(
                self.server_id.index(),
                self.server_id.generation(),
            ),
    {
        balancer.release(&self.server_id)
    }
}

/// A non-empty sequence has a first position of a least element.
pub proof fn lemma_first_min_exists(loads: Seq<usize>)
    requires
        loads.len() > 0,
    ensures
        is_first_min(loads, first_min(loads)),
    decreases loads.len(),
{
    if loads.len() == 1 {
        assert(is_first_min(loads, 0));
    } else {
        let front = loads.drop_last();
        lemma_first_min_exists(front);
        let f = first_min(front);
        let last = loads.len() - 1;
        assert(forall|j: int| 0 <= j < front.len() ==> front[j] == loads[j]);
        if loads[last] < loads[f] {
            assert forall|j: int| 0 <= j < loads.len() implies loads[last] <= #[trigger] loads[j] by {
                if j < last {
                    assert(front[f] <= front[j]);
                }
            }
            assert forall|j: int| 0 <= j < last implies loads[last] < #[trigger] loads[j] by {
                assert(front[f] <= front[j]);
            }
            assert(is_first_min(loads, last));
        } else {
            assert forall|j: int| 0 <= j < loads.len() implies loads[f] <= #[trigger] loads[j] by {
                if j < last {
                    assert(front[f] <= front[j]);
                }
            }
            assert forall|j: int| 0 <= j < f implies loads[f] < #[trigger] loads[j] by {
                assert(front[f] < front[j]);
            }
            assert(is_first_min(loads, f));
        }
    }
}

/// A pick falls on an existing slot, and the slot's generation is the one
/// that the pick reports.
pub proof fn lemma_pick_in_range(b: BalancerView)
    requires
        b.wf(),
        b.len() > 0,
    ensures
        b.pick().is_some(),
        b.pick().unwrap().index < b.len(),
        b.knows(b.pick().unwrap().index),
        b.picked().len() == b.len(),
{
    match b {
        BalancerView::RoundRobin { servers, counter } => {
            assert(0 <= (counter as int) % (servers.len() as int) < servers.len());
        },
        BalancerView::LeastConnections { servers } => {
            lemma_first_min_exists(loads_of(servers));
        },
    }
}

/// A release with an outdated generation changes nothing: pick a backend,
/// let its slot be given to another backend, then release with the id of the
/// pick. The balancer, and with it every load counter, is as it was before
/// the release, and the release reports the id as stale.
pub proof fn lemma_stale_release_is_noop(b: BalancerView, generation: usize)
    requires
        b.wf(),
        b is LeastConnections,
        b.len() > 0,
        generation != b.pick().unwrap().generation,
    ensures
        ({
            let p = b.pick().unwrap();
            let moved = b.picked().reassigned(p.index, generation);
            &&& moved.knows(p.index)
            &&& moved.release_outcome(p.index, p.generation) == ReleaseOutcome::Stale
            &&& moved.released(p.index, p.generation) == moved
            &&& moved.loads() == b.picked().loads()
        }),
{
    lemma_pick_in_range(b);
    let p = b.pick().unwrap();
    let moved = b.picked().reassigned(p.index, generation);
    assert(moved.loads() =~= b.picked().loads());
}

/// Whatever the balancer holds, a release whose generation differs from the
/// slot's leaves it untouched.
pub proof fn lemma_release_with_other_generation(b: BalancerView, index: usize, generation: usize)
    requires
        b matches BalancerView::LeastConnections { servers } && index < servers.len()
            && servers[index as int].generation != generation,
    ensures
        b.released(index, generation) == b,
        b.release_outcome(index, generation) == ReleaseOutcome::Stale,
{
}

/// A release undoes its pick. Under least connections, a pick followed by
/// the release of the id it gave leaves the balancer, and so every load
/// counter, as it was before the pick. The picked counter must not stand at
/// its maximum, from where a pick would start it again at zero.
pub proof fn lemma_release_undoes_pick(b: BalancerView)
    requires
        b.wf(),
        b is LeastConnections,
        b.len() > 0,
        b.loads()[first_min(b.loads())] < usize::MAX,
    ensures
        ({
            let p = b.pick().unwrap();
            &&& b.picked().knows(p.index)
            &&& b.picked().release_outcome(p.index, p.generation) == ReleaseOutcome::Released
            &&& b.picked().released(p.index, p.generation) == b
        }),
{
    lemma_pick_in_range(b);
    let p = b.pick().unwrap();
    let servers = b->LeastConnections_servers;
    let i = first_min(loads_of(servers));
    lemma_first_min_exists(loads_of(servers));
    assert(p.index as int == i);
    assert(loads_of(servers)[i] == servers[i].active_conns);
    let more = with_one_more(servers, i);
    assert(more[i].active_conns == servers[i].active_conns + 1);
    assert(with_one_less(more, i) =~= servers);
}

} // verus!
