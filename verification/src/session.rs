//! Per-turn decisions of the peer-session orchestrator.
//!
//! The orchestrator owns two recurring deadlines (liveness ping and peer
//! replenishment) and a target peer count. On every scheduling turn it
//! forwards newly discovered peers to the transport, then services the
//! elapsed timers, re-arming each elapsed deadline to a future time. All
//! I/O is delegated: this module only decides, from the clock and the
//! active-peer count, which actions to perform, in which order.

use vstd::prelude::*;

verus! {

/// A peer learned from the discovery collaborator: a 512-bit identity, an
/// address, and its two ports.
#[derive(Debug, PartialEq, Eq)]
pub struct NodeRecord {
    pub id: Vec<u8>,
    pub address: Vec<u8>,
    pub udp_port: u16,
    pub tcp_port: u16,
}

/// Mathematical model of a discovered peer.
pub struct NodeModel {
    pub id: Seq<u8>,
    pub address: Seq<u8>,
    pub udp_port: u16,
    pub tcp_port: u16,
}

impl View for NodeRecord {
    type V = NodeModel;

    open spec fn view(&self) -> NodeModel {
        NodeModel { id: self.id@, address: self.address@, udp_port: self.udp_port, tcp_port: self.tcp_port }
    }
}

/// One action the orchestrator asks its caller to perform, in order.
#[derive(Debug, PartialEq, Eq)]
pub enum Action {
    /// Register a dial candidate (address, port, identity) with the
    /// transport.
    RegisterPeer { address: Vec<u8>, tcp_port: u16, id: Vec<u8> },
    /// Submit a request for new peers to the discovery collaborator.
    RequestNewPeers,
    /// Submit a liveness ping carrying a fresh per-link timeout deadline.
    Ping { timeout_deadline: u64 },
    /// Drop the peer from the transport.
    DisconnectTransport { id: Vec<u8> },
    /// Drop the peer from the discovery table.
    DisconnectDiscovery { id: Vec<u8> },
}

/// Mathematical model of an action.
#[verifier::ext_equal]
pub enum ActModel {
    RegisterPeer { address: Seq<u8>, tcp_port: u16, id: Seq<u8> },
    RequestNewPeers,
    Ping { timeout_deadline: u64 },
    DisconnectTransport { id: Seq<u8> },
    DisconnectDiscovery { id: Seq<u8> },
}

impl View for Action {
    type V = ActModel;

    open spec fn view(&self) -> ActModel {
        match *self {
            Action::RegisterPeer { ref address, tcp_port, ref id } => ActModel::RegisterPeer {
                address: address@,
                tcp_port,
                id: id@,
            },
            Action::RequestNewPeers => ActModel::RequestNewPeers,
            Action::Ping { timeout_deadline } => ActModel::Ping { timeout_deadline },
            Action::DisconnectTransport { ref id } => ActModel::DisconnectTransport { id: id@ },
            Action::DisconnectDiscovery { ref id } => ActModel::DisconnectDiscovery { id: id@ },
        }
    }
}

/// Models of an action sequence, in order.
pub open spec fn act_models(s: Seq<Action>) -> Seq<ActModel> {
    Seq::new(s.len(), |i: int| s[i]@)
}

/// Models of a sequence of discovered peers, in order.
pub open spec fn node_models(s: Seq<NodeRecord>) -> Seq<NodeModel> {
    Seq::new(s.len(), |i: int| s[i]@)
}

/// The registration actions for a batch of discovered peers: one dial
/// candidate per peer, in discovery order.
pub open spec fn spec_register(ns: Seq<NodeModel>) -> Seq<ActModel> {
    Seq::new(
        ns.len(),
        |i: int| ActModel::RegisterPeer {
            address: ns[i].address,
            tcp_port: ns[i].tcp_port,
            id: ns[i].id,
        },
    )
}

/// The timers and configuration owned by a peer session.
#[derive(Debug, Clone, Copy, PartialEq, Eq)]
pub struct SessionState {
    /// When the next liveness ping is due.
    pub ping_deadline: u64,
    /// Configured interval between pings.
    pub ping_period: u64,
    /// Configured per-link timeout carried by each ping.
    pub ping_timeout_period: u64,
    /// When the next peer-replenishment check is due.
    pub replenish_deadline: u64,
    /// Configured interval between replenishment checks.
    pub replenish_period: u64,
    /// Desired number of active peers.
    pub target_peers: usize,
}

impl SessionState {
    /// Both recurring periods are positive, so a re-armed deadline always
    /// lands in the future.
    pub open spec fn wf(self) -> bool {
        self.ping_period >= 1 && self.replenish_period >= 1
    }

    /// Start a session at time `now`: both deadlines are armed one full
    /// period ahead.
    pub fn new(
        now: u64,
        ping_period: u64,
        ping_timeout_period: u64,
        replenish_period: u64,
        target_peers: usize,
    ) -> (s: SessionState)
        requires
            ping_period >= 1,
            replenish_period >= 1,
            now + ping_period <= u64::MAX,
            now + replenish_period <= u64::MAX,
        ensures
            s.wf(),
            s.ping_deadline == now + ping_period,
            s.replenish_deadline == now + replenish_period,
            s.ping_period == ping_period,
            s.ping_timeout_period == ping_timeout_period,
            s.replenish_period == replenish_period,
            s.target_peers == target_peers,
    {
        SessionState {
            ping_deadline: now + ping_period,
            ping_period,
            ping_timeout_period,
            replenish_deadline: now + replenish_period,
            replenish_period,
            target_peers,
        }
    }
}

/// What one replenishment check at time `now` does: nothing while the
/// deadline lies in the future; otherwise one peer request exactly when the
/// active count is below target, and the deadline re-armed one period past
/// `now`.
pub open spec fn spec_replenish(s: SessionState, now: u64, active_peers: usize) -> (
    SessionState,
    Seq<ActModel>,
) {
    if now < s.replenish_deadline {
        (s, Seq::empty())
    } else {
        (
            SessionState { replenish_deadline: (now + s.replenish_period) as u64, ..s },
            if active_peers < s.target_peers {
                seq![ActModel::RequestNewPeers]
            } else {
                Seq::empty()
            },
        )
    }
}

/// What one liveness check at time `now` does: nothing while the ping
/// deadline lies in the future; otherwise one ping carrying the fresh
/// per-link timeout deadline `now + ping_timeout_period`, and the ping
/// deadline re-armed one period past `now`.
pub open spec fn spec_ping(s: SessionState, now: u64) -> (SessionState, Seq<ActModel>) {
    if now < s.ping_deadline {
        (s, Seq::empty())
    } else {
        (
            SessionState { ping_deadline: (now + s.ping_period) as u64, ..s },
            seq![ActModel::Ping { timeout_deadline: (now + s.ping_timeout_period) as u64 }],
        )
    }
}

impl SessionState {
    /// Service the peer-replenishment timer: an explicit catch-up loop that
    /// checks the deadline and re-arms it until it is back in the future.
    pub fn replenish_turn(&mut self, now: u64, active_peers: usize) -> (acts: Vec<Action>)
        requires
            old(self).wf(),
            now + old(self).replenish_period <= u64::MAX,
        ensures
            (*final(self), act_models(acts@)) == spec_replenish(*old(self), now, active_peers),
            final(self).replenish_deadline > now,
            final(self).wf(),
    {
        let mut acts: Vec<Action> = Vec::new();
        while now >= self.replenish_deadline
            invariant
                self.wf(),
                self.replenish_period == old(self).replenish_period,
                now + self.replenish_period <= u64::MAX,
                (*self, act_models(acts@)) == spec_replenish(*old(self), now, active_peers)
                    || (*self == *old(self) && acts@.len() == 0 && now >= self.replenish_deadline),
            decreases (if now >= self.replenish_deadline { 1int } else { 0int }),
        {
            proof {
                // The re-armed state below can only be reached from the
                // untouched state: a re-armed deadline lies past `now`.
                assert(*self == *old(self));
            }
            if active_peers < self.target_peers {
                acts.push(Action::RequestNewPeers);
                proof {
                    assert(act_models(acts@) =~= seq![ActModel::RequestNewPeers]);
                }
            }
            self.replenish_deadline = now + self.replenish_period;
            proof {
                assert(act_models(acts@) =~= spec_replenish(*old(self), now, active_peers).1);
            }
        }
        proof {
            if *self == *old(self) && acts@.len() == 0 && now < self.replenish_deadline {
                assert(act_models(acts@) =~= Seq::<ActModel>::empty());
            }
        }
        acts
    }

    /// Service the liveness timer: an explicit catch-up loop that pings,
    /// with a fresh per-link timeout deadline, and re-arms until the ping
    /// deadline is back in the future.
    pub fn ping_turn(&mut self, now: u64) -> (acts: Vec<Action>)
        requires
            old(self).wf(),
            now + old(self).ping_period <= u64::MAX,
            now + old(self).ping_timeout_period <= u64::MAX,
        ensures
            (*final(self), act_models(acts@)) == spec_ping(*old(self), now),
            final(self).ping_deadline > now,
            final(self).wf(),
    {
        let mut acts: Vec<Action> = Vec::new();
        while now >= self.ping_deadline
            invariant
                self.wf(),
                self.ping_period == old(self).ping_period,
                self.ping_timeout_period == old(self).ping_timeout_period,
                now + self.ping_period <= u64::MAX,
                now + self.ping_timeout_period <= u64::MAX,
                (*self, act_models(acts@)) == spec_ping(*old(self), now) || (*self == *old(self)
                    && acts@.len() == 0 && now >= self.ping_deadline),
            decreases (if now >= self.ping_deadline { 1int } else { 0int }),
        {
            proof {
                assert(*self == *old(self));
            }
            acts.push(Action::Ping { timeout_deadline: now + self.ping_timeout_period });
            self.ping_deadline = now + self.ping_period;
            proof {
                assert(act_models(acts@) =~= spec_ping(*old(self), now).1);
            }
        }
        proof {
            if *self == *old(self) && acts@.len() == 0 && now < self.ping_deadline {
                assert(act_models(acts@) =~= Seq::<ActModel>::empty());
            }
        }
        acts
    }
}

/// Turn a batch of discovered peers into transport registrations, keeping
/// discovery order.
pub fn drain_discovery(discovered: &Vec<NodeRecord>) -> (acts: Vec<Action>)
    ensures
        act_models(acts@) == spec_register(node_models(discovered@)),
{
    let mut acts: Vec<Action> = Vec::new();
    let mut i: usize = 0;
    while i < discovered.len()
        invariant
            i <= discovered@.len(),
            acts@.len() == i,
            forall|j: int| 0 <= j < i ==> (#[trigger] acts@[j])@ == (ActModel::RegisterPeer {
                address: discovered@[j].address@,
                tcp_port: discovered@[j].tcp_port,
                id: discovered@[j].id@,
            }),
        decreases discovered@.len() - i,
    {
        let n = &discovered[i];
        acts.push(Action::RegisterPeer {
            address: crate::item::clone_bytes(&n.address),
            tcp_port: n.tcp_port,
            id: crate::item::clone_bytes(&n.id),
        });
        i = i + 1;
    }
    proof {
        assert(act_models(acts@) =~= spec_register(node_models(discovered@)));
    }
    acts
}

/// Unconditionally drop a peer from both collaborators: transport first,
/// then discovery. Idempotent by construction: the same two instructions
/// are issued whether or not the peer is known.
pub fn disconnect_actions(id: &Vec<u8>) -> (acts: Vec<Action>)
    ensures
        act_models(acts@) == seq![
            ActModel::DisconnectTransport { id: id@ },
            ActModel::DisconnectDiscovery { id: id@ },
        ],
{
    let mut acts: Vec<Action> = Vec::new();
    acts.push(Action::DisconnectTransport { id: crate::item::clone_bytes(id) });
    acts.push(Action::DisconnectDiscovery { id: crate::item::clone_bytes(id) });
    proof {
        assert(act_models(acts@) =~= seq![
            ActModel::DisconnectTransport { id: id@ },
            ActModel::DisconnectDiscovery { id: id@ },
        ]);
    }
    acts
}

impl SessionState {
    /// One full scheduling turn, in the fixed order: forward every newly
    /// discovered peer to the transport, then (after the caller services
    /// transport traffic) the replenishment timer, then the liveness timer.
    /// The same order wraps an outbound send.
    pub fn poll_turn(&mut self, now: u64, discovered: &Vec<NodeRecord>, active_peers: usize) -> (acts: Vec<Action>)
        requires
            old(self).wf(),
            now + old(self).replenish_period <= u64::MAX,
            now + old(self).ping_period <= u64::MAX,
            now + old(self).ping_timeout_period <= u64::MAX,
        ensures
            final(self).wf(),
            final(self).replenish_deadline > now,
            final(self).ping_deadline > now,
            ({
                let (s1, reqs) = spec_replenish(*old(self), now, active_peers);
                let (s2, pings) = spec_ping(s1, now);
                &&& *final(self) == s2
                &&& act_models(acts@) == spec_register(node_models(discovered@)) + reqs + pings
            }),
    {
        let mut acts = drain_discovery(discovered);
        let ghost regs = act_models(acts@);
        let reqs = self.replenish_turn(now, active_peers);
        let pings = self.ping_turn(now);
        append_actions(&mut acts, &reqs);
        proof {
            assert(act_models(acts@) == regs + act_models(reqs@));
        }
        append_actions(&mut acts, &pings);
        proof {
            assert(act_models(acts@) =~= regs + act_models(reqs@) + act_models(pings@));
        }
        acts
    }
}

/// Append copies of all actions of `src` to `dst`, keeping order.
fn append_actions(dst: &mut Vec<Action>, src: &Vec<Action>)
    ensures
        act_models(final(dst)@) == act_models(old(dst)@) + act_models(src@),
{
    let ghost base = dst@;
    let mut k: usize = 0;
    while k < src.len()
        invariant
            k <= src@.len(),
            dst@.len() == base.len() + k,
            act_models(dst@) =~= act_models(base) + act_models(src@.take(k as int)),
        decreases src@.len() - k,
    {
        let ghost pre = dst@;
        dst.push(clone_action(&src[k]));
        proof {
            assert forall|j: int| 0 <= j < dst@.len() implies act_models(dst@)[j] == (act_models(
                base,
            ) + act_models(src@.take(k + 1)))[j] by {
                assert(act_models(base).len() == base.len());
                assert(act_models(pre).len() == pre.len());
                assert(act_models(src@.take(k as int)).len() == k);
                assert(act_models(src@.take(k + 1)).len() == k + 1);
                assert(act_models(dst@)[j] == dst@[j]@);
                if j < pre.len() {
                    assert(dst@[j] == pre[j]);
                    assert(pre[j]@ == act_models(pre)[j]);
                    if j >= base.len() {
                        let m = j - base.len();
                        assert(act_models(pre)[j] == act_models(src@.take(k as int))[m]);
                        assert(act_models(src@.take(k as int))[m] == src@.take(k as int)[m]@);
                        assert(src@.take(k as int)[m] == src@[m]);
                        assert(src@.take(k + 1)[m] == src@[m]);
                        assert(act_models(src@.take(k + 1))[m] == src@.take(k + 1)[m]@);
                    } else {
                        assert(act_models(pre)[j] == act_models(base)[j]);
                        assert((act_models(base) + act_models(src@.take(k + 1)))[j] == act_models(
                            base,
                        )[j]);
                    }
                } else {
                    assert(j == pre.len());
                    assert(dst@[j]@ == src@[k as int]@);
                    assert(src@.take(k + 1)[k as int] == src@[k as int]);
                    assert(act_models(src@.take(k + 1))[k as int] == src@.take(k + 1)[k as int]@);
                }
            }
            assert(act_models(dst@) =~= act_models(base) + act_models(src@.take(k + 1)));
        }
        k = k + 1;
    }
    proof {
        assert(src@.take(src@.len() as int) =~= src@);
        assert(act_models(dst@) =~= act_models(base) + act_models(src@));
    }
}

/// Copy of an action.
fn clone_action(a: &Action) -> (r: Action)
    ensures
        r@ == a@,
{
    match a {
        Action::RegisterPeer { address, tcp_port, id } => Action::RegisterPeer {
            address: crate::item::clone_bytes(address),
            tcp_port: *tcp_port,
            id: crate::item::clone_bytes(id),
        },
        Action::RequestNewPeers => Action::RequestNewPeers,
        Action::Ping { timeout_deadline } => Action::Ping { timeout_deadline: *timeout_deadline },
        Action::DisconnectTransport { id } => Action::DisconnectTransport {
            id: crate::item::clone_bytes(id),
        },
        Action::DisconnectDiscovery { id } => Action::DisconnectDiscovery {
            id: crate::item::clone_bytes(id),
        },
    }
}

// ---------------------------------------------------------------------------
// Liveness of peer replenishment.
// ---------------------------------------------------------------------------

/// The session state and the number of peer requests issued after servicing
/// the replenishment timer exactly at each of its next `n` successive
/// deadlines.
pub open spec fn replenish_run(s: SessionState, active_peers: usize, n: nat) -> (
    SessionState,
    nat,
)
    decreases n,
{
    if n == 0 {
        (s, 0)
    } else {
        let stepped = spec_replenish(s, s.replenish_deadline, active_peers);
        let rest = replenish_run(stepped.0, active_peers, (n - 1) as nat);
        (rest.0, (rest.1 + if stepped.1.len() > 0 { 1nat } else { 0nat }) as nat)
    }
}

/// Liveness of peer replenishment: while the active peer count stays below
/// the target, a session polled at each of `n` successive replenishment
/// deadlines issues exactly `n` peer requests, and the deadlines are spaced
/// exactly one configured period apart (the final deadline stands `n`
/// periods past the first).
pub proof fn lemma_replenish_liveness(s: SessionState, active_peers: usize, n: nat)
    requires
        s.wf(),
        active_peers < s.target_peers,
        s.replenish_deadline + n * s.replenish_period <= u64::MAX,
    ensures
        replenish_run(s, active_peers, n).1 == n,
        replenish_run(s, active_peers, n).0.replenish_deadline == s.replenish_deadline + n
            * s.replenish_period,
        replenish_run(s, active_peers, n).0.replenish_period == s.replenish_period,
    decreases n,
{
    if n == 0 {
        assert(n * s.replenish_period == 0) by (nonlinear_arith)
            requires n == 0;
    } else {
        let stepped = spec_replenish(s, s.replenish_deadline, active_peers);
        assert(n * s.replenish_period == s.replenish_period + (n - 1) * s.replenish_period)
            by (nonlinear_arith);
        assert((n - 1) * s.replenish_period >= 0) by (nonlinear_arith)
            requires n >= 1 && s.replenish_period >= 1;
        assert(1 * s.replenish_period <= n * s.replenish_period) by (nonlinear_arith)
            requires n >= 1 && s.replenish_period >= 0;
        assert(s.replenish_deadline + s.replenish_period <= u64::MAX);
        assert(stepped.0.replenish_deadline == s.replenish_deadline + s.replenish_period);
        lemma_replenish_liveness(stepped.0, active_peers, (n - 1) as nat);
        let rest = replenish_run(stepped.0, active_peers, (n - 1) as nat);
        assert(replenish_run(s, active_peers, n).0 == rest.0);
        assert(rest.0.replenish_deadline == stepped.0.replenish_deadline + (n - 1)
            * s.replenish_period);
        assert(stepped.0.replenish_deadline + (n - 1) * s.replenish_period == s.replenish_deadline
            + n * s.replenish_period);
    }
}

} // verus!
