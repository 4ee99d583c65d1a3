use site::connection::{on_frame, take_reply, Frame};
use site::heartbeat::{HeartbeatCycle, ProbeStatus};
use site::registry::Registry;

/// Runs one cycle: `sent` says whether each probe goes out, and each buffer is scanned.
fn run_cycle(reg: &mut Registry<Vec<Frame>>, sent: impl Fn(i64) -> bool) -> Vec<Vec<Frame>> {
    let mut cycle = HeartbeatCycle::begin(reg);
    for i in 0..cycle.len() {
        cycle.record_probe(i, sent(cycle.target(i)));
    }
    let ids: Vec<i64> = (0..cycle.len()).map(|i| cycle.target(i)).collect();
    for (i, id) in ids.iter().enumerate() {
        if cycle.awaiting_reply(i) {
            let mut buf = reg.remove(*id).unwrap();
            let replied = take_reply(&mut buf);
            reg.insert(*id, buf);
            cycle.record_scan(i, replied);
        }
    }
    let evict = cycle.evictions();
    reg.remove_all(&evict)
}

fn reply(reg: &mut Registry<Vec<Frame>>, id: i64) {
    let mut buf = reg.remove(id).unwrap();
    on_frame(&mut buf, Frame::Pong(vec![]));
    reg.insert(id, buf);
}

#[test]
fn replying_client_survives_then_silent_client_is_evicted_once() {
    let mut reg: Registry<Vec<Frame>> = Registry::new();
    reg.insert(7, Vec::new());
    for _ in 0..5 {
        reply(&mut reg, 7);
        let evicted = run_cycle(&mut reg, |_| true);
        assert!(evicted.is_empty());
        assert!(reg.contains(7));
    }
    let evicted = run_cycle(&mut reg, |_| true);
    assert_eq!(evicted.len(), 1);
    assert!(!reg.contains(7));
    assert!(reg.remove(7).is_none());
    assert!(run_cycle(&mut reg, |_| true).is_empty());
}

#[test]
fn failed_probe_send_evicts_without_scanning() {
    let mut reg: Registry<Vec<Frame>> = Registry::new();
    reg.insert(1, Vec::new());
    reg.insert(2, Vec::new());
    reply(&mut reg, 1);
    reply(&mut reg, 2);
    let mut cycle = HeartbeatCycle::begin(&reg);
    cycle.record_probe(0, false);
    cycle.record_probe(1, true);
    assert!(!cycle.awaiting_reply(0));
    assert!(cycle.awaiting_reply(1));
    cycle.record_scan(1, true);
    assert!(cycle.status(0) == ProbeStatus::SendFailed);
    assert!(cycle.status(1) == ProbeStatus::Replied);
    assert_eq!(cycle.evictions(), vec![1]);
}

#[test]
fn other_traffic_does_not_save_a_silent_client() {
    let mut reg: Registry<Vec<Frame>> = Registry::new();
    reg.insert(3, Vec::new());
    let mut buf = reg.remove(3).unwrap();
    on_frame(&mut buf, Frame::Text("Response busy".to_string()));
    reg.insert(3, buf);
    let evicted = run_cycle(&mut reg, |_| true);
    assert_eq!(evicted.len(), 1);
    assert_eq!(evicted[0].len(), 1);
}

#[test]
fn other_traffic_does_not_harm_a_replying_client() {
    let mut reg: Registry<Vec<Frame>> = Registry::new();
    reg.insert(4, Vec::new());
    let mut buf = reg.remove(4).unwrap();
    on_frame(&mut buf, Frame::Text("Response busy".to_string()));
    on_frame(&mut buf, Frame::Pong(vec![]));
    reg.insert(4, buf);
    assert!(run_cycle(&mut reg, |_| true).is_empty());
    assert_eq!(reg.get(4).unwrap().len(), 1);
}

#[test]
fn unscanned_probe_counts_as_silent() {
    let mut reg: Registry<u8> = Registry::new();
    reg.insert(5, 0);
    let mut cycle = HeartbeatCycle::begin(&reg);
    cycle.record_probe(0, true);
    assert!(cycle.status(0) == ProbeStatus::Probed);
    assert_eq!(cycle.evictions(), vec![5]);
    cycle.record_probe(0, false);
    assert!(cycle.status(0) == ProbeStatus::Probed);
}
