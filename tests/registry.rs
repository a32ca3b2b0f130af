use pumpkin_net::registry::{Owner, Registry, Settled, LISTENER_TOKEN};

fn registry_with_clients(n: usize) -> (Registry<String, u32>, Vec<usize>) {
    let mut r: Registry<String, u32> = Registry::new();
    let mut tokens = Vec::new();
    for i in 0..n {
        let t = r.next_token().unwrap();
        assert!(r.add_client(t, format!("client{i}")).is_ok());
        tokens.push(t);
    }
    (r, tokens)
}

#[test]
fn first_token_is_above_listener() {
    let mut r: Registry<String, u32> = Registry::new();
    let t = r.next_token().unwrap();
    assert!(t > LISTENER_TOKEN);
    assert_eq!(t, 2);
    assert_eq!(r.next_token(), Some(3));
}

#[test]
fn accepted_tokens_are_distinct() {
    let (_, tokens) = registry_with_clients(100);
    for i in 0..tokens.len() {
        for j in (i + 1)..tokens.len() {
            assert_ne!(tokens[i], tokens[j]);
        }
    }
}

#[test]
fn add_client_refuses_unissued_or_held_token() {
    let (mut r, tokens) = registry_with_clients(1);
    assert_eq!(r.add_client(tokens[0], "again".to_string()), Err("again".to_string()));
    assert_eq!(r.add_client(LISTENER_TOKEN, "listener".to_string()), Err("listener".to_string()));
    assert_eq!(r.add_client(tokens[0] + 1, "future".to_string()), Err("future".to_string()));
    assert_eq!(r.client(tokens[0]), Some(&"client0".to_string()));
}

#[test]
fn closed_client_is_torn_down() {
    let (mut r, tokens) = registry_with_clients(2);
    match r.settle(tokens[0], true, false) {
        Settled::ClosedClient(c) => assert_eq!(c, "client0"),
        _ => panic!("expected teardown"),
    }
    assert_eq!(r.owner(tokens[0]), Owner::Unregistered);
    assert_eq!(r.owner(tokens[1]), Owner::Client);
}

#[test]
fn teardown_wins_over_promotion() {
    let (mut r, tokens) = registry_with_clients(1);
    match r.settle(tokens[0], true, true) {
        Settled::ClosedClient(c) => assert_eq!(c, "client0"),
        _ => panic!("expected teardown"),
    }
    assert_eq!(r.owner(tokens[0]), Owner::Unregistered);
    assert_eq!(r.player(tokens[0]), None);
    assert_eq!(r.complete_promotion(7), Err(7));
}

#[test]
fn promotion_moves_client_to_players() {
    let (mut r, tokens) = registry_with_clients(2);
    match r.settle(tokens[1], false, true) {
        Settled::Promoting(c) => assert_eq!(c, "client1"),
        _ => panic!("expected promotion"),
    }
    assert_eq!(r.owner(tokens[1]), Owner::Unregistered);
    // a second promotion waits while one is under way
    assert!(matches!(r.settle(tokens[0], false, true), Settled::Unchanged));
    assert_eq!(r.complete_promotion(42), Ok(tokens[1]));
    assert_eq!(r.owner(tokens[1]), Owner::Player);
    assert_eq!(r.player(tokens[1]), Some(&42));
    assert_eq!(r.client(tokens[1]), None);
    assert_eq!(r.owner(tokens[0]), Owner::Client);
}

#[test]
fn promotion_token_is_not_reissued_or_reused() {
    let (mut r, tokens) = registry_with_clients(1);
    assert!(matches!(r.settle(tokens[0], false, true), Settled::Promoting(_)));
    assert_eq!(r.add_client(tokens[0], "x".to_string()), Err("x".to_string()));
    assert_eq!(r.abandon_promotion(), Some(tokens[0]));
    assert_eq!(r.abandon_promotion(), None);
    assert_eq!(r.owner(tokens[0]), Owner::Unregistered);
}

#[test]
fn closed_player_is_torn_down() {
    let (mut r, tokens) = registry_with_clients(1);
    assert!(matches!(r.settle(tokens[0], false, true), Settled::Promoting(_)));
    assert_eq!(r.complete_promotion(5), Ok(tokens[0]));
    assert!(matches!(r.settle(tokens[0], false, false), Settled::Unchanged));
    // make_player means nothing to a player
    assert!(matches!(r.settle(tokens[0], false, true), Settled::Unchanged));
    match r.settle(tokens[0], true, false) {
        Settled::ClosedPlayer(p) => assert_eq!(p, 5),
        _ => panic!("expected teardown"),
    }
    assert_eq!(r.owner(tokens[0]), Owner::Unregistered);
}

#[test]
fn idle_and_unknown_tokens_are_unchanged() {
    let (mut r, tokens) = registry_with_clients(1);
    assert!(matches!(r.settle(tokens[0], false, false), Settled::Unchanged));
    assert!(matches!(r.settle(999, true, true), Settled::Unchanged));
    assert_eq!(r.owner(tokens[0]), Owner::Client);
}

#[test]
fn clients_and_players_stay_disjoint() {
    let (mut r, tokens) = registry_with_clients(5);
    for (k, t) in tokens.iter().enumerate() {
        if k % 2 == 0 {
            assert!(matches!(r.settle(*t, false, true), Settled::Promoting(_)));
            assert_eq!(r.complete_promotion(k as u32), Ok(*t));
        }
    }
    for t in &tokens {
        assert!(!(r.client(*t).is_some() && r.player(*t).is_some()));
        assert!(r.client(*t).is_some() || r.player(*t).is_some());
    }
}
