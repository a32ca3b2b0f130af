use pumpkin_net::keepalive::{KeepAlive, KeepAliveAction, KEEP_ALIVE_INTERVAL_MS, KEEP_ALIVE_TIMEOUT_MS};

#[test]
fn silent_live_connection_is_kicked_at_timeout() {
    let mut k = KeepAlive::new(0);
    let mut t = 0u64;
    let mut kicked_at = None;
    while t <= 20_000 {
        match k.on_tick(t, true, t as i64) {
            KeepAliveAction::Probe(id) => {
                assert_eq!(id, t as i64);
                k.on_reply(None);
            }
            KeepAliveAction::Kick => {
                kicked_at = Some(t);
                break;
            }
            other => panic!("unexpected {other:?}"),
        }
        t += KEEP_ALIVE_INTERVAL_MS;
    }
    assert_eq!(kicked_at, Some(15_000));
    assert!(k.finished);
    assert_eq!(k.on_tick(21_000, true, 1), KeepAliveAction::Stopped);
}

#[test]
fn not_kicked_just_before_timeout() {
    let mut k = KeepAlive::new(1_000);
    assert_eq!(k.on_tick(15_999, true, 9), KeepAliveAction::Probe(9));
    k.on_reply(Some(8));
    assert_eq!(k.last_alive, 1_000);
    assert_eq!(k.on_tick(16_000, true, 10), KeepAliveAction::Kick);
}

#[test]
fn echoing_connection_lives_for_a_thousand_ticks() {
    let mut k = KeepAlive::new(0);
    for n in 1..=1000u64 {
        let now = n * KEEP_ALIVE_INTERVAL_MS;
        let a = k.tick(now, true);
        match a {
            KeepAliveAction::Probe(id) => k.on_reply(Some(id)),
            other => panic!("tick {n}: unexpected {other:?}"),
        }
        assert_eq!(k.last_alive, now);
    }
    assert!(!k.finished);
}

#[test]
fn wrong_echo_does_not_refresh() {
    let mut k = KeepAlive::new(0);
    assert_eq!(k.on_tick(1_000, true, 77), KeepAliveAction::Probe(77));
    k.on_reply(Some(78));
    assert_eq!(k.last_alive, 0);
    assert_eq!(k.pending, None);
    assert_eq!(k.on_tick(2_000, true, 5), KeepAliveAction::Probe(5));
    k.on_reply(Some(5));
    assert_eq!(k.last_alive, 2_000);
}

#[test]
fn not_live_connection_is_never_kicked() {
    let mut k = KeepAlive::new(0);
    for n in 1..=100u64 {
        let now = n * 60 * 60 * 1000;
        assert_eq!(k.tick(now, false), KeepAliveAction::Refreshed);
        assert_eq!(k.last_alive, now);
    }
    assert!(!k.finished);
    // going live afterwards counts from the last refresh
    let last = k.last_alive;
    assert!(matches!(k.on_tick(last + KEEP_ALIVE_TIMEOUT_MS - 1, true, 3), KeepAliveAction::Probe(3)));
}

#[test]
fn cancelled_monitor_stops() {
    let mut k = KeepAlive::new(10);
    k.cancel();
    assert!(k.finished);
    assert_eq!(k.last_alive, 10);
    assert_eq!(k.on_tick(100_000, true, 1), KeepAliveAction::Stopped);
    assert_eq!(k.on_tick(100_000, false, 1), KeepAliveAction::Stopped);
}

#[test]
fn timeout_constants() {
    assert_eq!(KEEP_ALIVE_TIMEOUT_MS, 15_000);
    assert_eq!(KEEP_ALIVE_INTERVAL_MS, 1_000);
}

#[test]
fn challenges_are_drawn_afresh() {
    let mut k = KeepAlive::new(0);
    let mut ids = Vec::new();
    for n in 1..=10u64 {
        match k.tick(n * 1_000, true) {
            KeepAliveAction::Probe(id) => {
                ids.push(id);
                k.on_reply(Some(id));
            }
            other => panic!("unexpected {other:?}"),
        }
    }
    assert!(ids.iter().any(|&id| id != ids[0]));
}
