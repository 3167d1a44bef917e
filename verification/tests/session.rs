//! Tests of the peer-session orchestrator decisions against mocked
//! discovery and transport collaborators (plain values standing in for
//! both).

use devp2p::session::{Action, NodeRecord, SessionState};

fn count_requests(acts: &[Action]) -> usize {
    let mut n: usize = 0;
    for a in acts {
        if *a == Action::RequestNewPeers {
            n += 1;
        }
    }
    n
}

#[test]
fn replenishment_fires_once_per_elapsed_period() {
    // Target 5 peers, replenishment period 10; the mocked transport reports
    // 2 active peers throughout.
    let mut s = SessionState::new(100, 1000, 50, 10, 5);
    let mut observed: Vec<(u64, usize)> = Vec::new();
    let mut n: usize = 0;
    while n < 4 {
        let now = s.replenish_deadline;
        let acts = s.replenish_turn(now, 2);
        observed.push((now, count_requests(&acts)));
        n += 1;
    }
    // Exactly one request per period, spaced by the configured period.
    assert_eq!(observed, vec![(110, 1), (120, 1), (130, 1), (140, 1)]);
}

#[test]
fn replenishment_skips_when_target_met() {
    let mut s = SessionState::new(0, 1000, 50, 10, 3);
    let acts = s.replenish_turn(10, 3);
    assert_eq!(count_requests(&acts), 0);
    // The deadline is still re-armed into the future.
    assert_eq!(s.replenish_deadline, 20);
    // Before the deadline nothing happens at all.
    let acts = s.replenish_turn(15, 0);
    assert!(acts.is_empty());
}

#[test]
fn replenishment_after_clock_jump_stays_live() {
    let mut s = SessionState::new(0, 1000, 50, 10, 3);
    // The clock jumps far past several missed periods: the check still
    // fires and the deadline lands one period past the observed time.
    let acts = s.replenish_turn(95, 0);
    assert_eq!(count_requests(&acts), 1);
    assert_eq!(s.replenish_deadline, 105);
}

#[test]
fn ping_carries_fresh_timeout_deadline() {
    let mut s = SessionState::new(0, 30, 7, 1000, 3);
    let acts = s.ping_turn(30);
    assert_eq!(acts, vec![Action::Ping { timeout_deadline: 37 }]);
    assert_eq!(s.ping_deadline, 60);
    // Not yet due: no ping.
    let acts = s.ping_turn(45);
    assert!(acts.is_empty());
}

#[test]
fn poll_turn_orders_registration_before_timers() {
    let mut s = SessionState::new(0, 10, 3, 10, 5);
    let discovered = vec![
        NodeRecord { id: vec![1; 64], address: vec![10, 0, 0, 1], udp_port: 30301, tcp_port: 30303 },
        NodeRecord { id: vec![2; 64], address: vec![10, 0, 0, 2], udp_port: 30301, tcp_port: 30304 },
    ];
    let acts = s.poll_turn(10, &discovered, 0);
    assert_eq!(
        acts,
        vec![
            Action::RegisterPeer { address: vec![10, 0, 0, 1], tcp_port: 30303, id: vec![1; 64] },
            Action::RegisterPeer { address: vec![10, 0, 0, 2], tcp_port: 30304, id: vec![2; 64] },
            Action::RequestNewPeers,
            Action::Ping { timeout_deadline: 13 },
        ]
    );
}

#[test]
fn disconnect_is_idempotent_and_hits_both_collaborators() {
    let id = vec![7; 64];
    let first = devp2p::session::disconnect_actions(&id);
    let again = devp2p::session::disconnect_actions(&id);
    assert_eq!(
        first,
        vec![
            Action::DisconnectTransport { id: vec![7; 64] },
            Action::DisconnectDiscovery { id: vec![7; 64] },
        ]
    );
    assert_eq!(first, again);
}
