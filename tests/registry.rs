use websocket_control::socket_collection::needs_restart;
use websocket_control::SocketCollection;

fn hand_in(c: &SocketCollection<u32>, id: &str, transport: u32) {
    c.get_handle().sender().try_send((id.to_string(), transport)).unwrap();
}

#[test]
fn readmitting_keeps_only_the_newest() {
    let mut c = SocketCollection::<u32>::new();
    hand_in(&c, "alpha", 1);
    hand_in(&c, "alpha", 2);
    c.collect_connections();
    let ports = c.ports();
    let all = ports.all_ports();
    assert_eq!(all.len(), 1);
    assert_eq!(all[0].0, "alpha");
    assert_eq!(all[0].1.transport, 2);
}

#[test]
fn take_is_once_per_tick() {
    let mut c = SocketCollection::<u32>::new();
    hand_in(&c, "alpha", 1);
    hand_in(&c, "beta", 2);
    c.collect_connections();
    {
        let mut ports = c.ports();
        assert_eq!(ports.len(), 2);
        assert_eq!(ports.get_port("alpha").map(|p| p.transport), Some(1));
        assert!(ports.get_port("alpha").is_none());
        assert_eq!(ports.len(), 1);
        assert!(ports.get_port("gamma").is_none());
    }
    c.collect_connections();
    c.clean();
    let mut ports = c.ports();
    assert_eq!(ports.get_port("alpha").map(|p| p.transport), Some(1));
}

#[test]
fn sweep_removes_exactly_the_closed() {
    let mut c = SocketCollection::<u32>::new();
    for (id, t) in [("a", 1), ("b", 2), ("c", 3), ("d", 4)] {
        hand_in(&c, id, t);
    }
    c.collect_connections();
    {
        let mut ports = c.ports();
        ports.get_port("b").unwrap().closed = true;
        ports.get_port("d").unwrap().closed = true;
    }
    c.clean();
    let mut left: Vec<(String, u32, bool)> = c
        .ports()
        .all_ports()
        .into_iter()
        .map(|(k, p)| (k, p.transport, p.closed))
        .collect();
    left.sort();
    assert_eq!(left, vec![("a".to_string(), 1, false), ("c".to_string(), 3, false)]);
}

#[test]
fn supervisor_restarts_after_last_peer_leaves() {
    let mut c = SocketCollection::<u32>::new();
    let state = c.get_state_handle();
    assert!(!state.needs_restart());
    hand_in(&c, "alpha", 1);
    c.collect_connections();
    assert!(!state.needs_restart());
    c.ports().get_port("alpha").unwrap().closed = true;
    c.clean();
    assert!(state.needs_restart());
}

#[test]
fn counters_follow_the_table() {
    let mut c = SocketCollection::<u32>::new();
    let state = c.get_state_handle();
    hand_in(&c, "alpha", 1);
    hand_in(&c, "beta", 2);
    c.collect_connections();
    assert_eq!(state.ws_count.load(std::sync::atomic::Ordering::Relaxed), 2);
    assert!(state.ws_added.load(std::sync::atomic::Ordering::Relaxed));
}

#[test]
fn restart_decision() {
    assert!(needs_restart(true, 0));
    assert!(needs_restart(true, -1));
    assert!(!needs_restart(true, 1));
    assert!(!needs_restart(false, 0));
}

#[test]
fn drain_takes_only_what_is_queued() {
    let mut c = SocketCollection::<u32>::new();
    c.collect_connections();
    assert_eq!(c.ports().len(), 0);
    hand_in(&c, "x", 5);
    c.collect_connections();
    assert_eq!(c.ports().len(), 1);
}
