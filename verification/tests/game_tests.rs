use session_server::codec::encode_client_event;
use session_server::events::{ClientEvent, ServerEvent};
use session_server::game::{Game, Outbound};
use session_server::player::{PlayerId, WorldCoordinate};
use session_server::session::Address;
use session_server::{
    remaining_budget_ms, should_poll, tick_budget_ms, INACTIVITY_TIMEOUT_MS, SERVER_TICK_PER_SEC,
};

fn addr(n: u16) -> Address {
    Address { ip: 0x7f00_0001, port: n }
}

/// Registers a session by feeding a connect datagram from `a`, as the poll
/// path would, and dispatching it.
fn connect_from(game: &mut Game, a: Address, now: u64) -> PlayerId {
    let bytes = encode_client_event(&ClientEvent::Connect);
    let (id, event) = game.ingest_packet(a, &bytes);
    assert_eq!(event, Some(ClientEvent::Connect));
    let _ = game.handle_event(id, &ClientEvent::Connect, now);
    id
}

#[test]
fn connect_makes_one_player_and_answers_a_snapshot() {
    let mut game = Game::new(42);
    let a = connect_from(&mut game, addr(1), 0);
    assert_eq!(game.player_count(), 1);
    assert!(game.has_player(a));

    // Replay the same connect to inspect the outbound batch.
    let mut game = Game::new(42);
    let bytes = encode_client_event(&ClientEvent::Connect);
    let (a, _) = game.ingest_packet(addr(1), &bytes);
    let out = game.handle_event(a, &ClientEvent::Connect, 0);
    assert_eq!(game.player_count(), 1);
    assert_eq!(out.len(), 2);
    // The snapshot goes to the sender and was taken before insertion, so the
    // id list is empty and carries the current seed.
    assert_eq!(
        out[0],
        Outbound::To { id: a, event: ServerEvent::SessionInfo { seed: 42, known_ids: vec![] } }
    );
    assert_eq!(
        out[1],
        Outbound::BroadcastExcept { excluded: a, event: ServerEvent::PlayerConnected { id: a } }
    );
}

#[test]
fn second_connect_sees_the_first_in_the_snapshot() {
    let mut game = Game::new(7);
    let a = connect_from(&mut game, addr(1), 0);
    let bytes = encode_client_event(&ClientEvent::Connect);
    let (b, _) = game.ingest_packet(addr(2), &bytes);
    let out = game.handle_event(b, &ClientEvent::Connect, 0);
    assert_eq!(
        out[0],
        Outbound::To { id: b, event: ServerEvent::SessionInfo { seed: 7, known_ids: vec![a] } }
    );
    assert_eq!(game.player_count(), 2);
}

#[test]
fn move_updates_position_and_reaches_both_players() {
    let mut game = Game::new(0);
    let a = connect_from(&mut game, addr(1), 0);
    let b = connect_from(&mut game, addr(2), 0);

    let position = WorldCoordinate::new(1, 2, 3);
    let bytes = encode_client_event(&ClientEvent::Move { position });
    let (sender, event) = game.ingest_packet(addr(1), &bytes);
    assert_eq!(sender, a);
    assert_eq!(event, Some(ClientEvent::Move { position }));
    let out = game.handle_event(a, &ClientEvent::Move { position }, 10);

    assert_eq!(out.len(), 1);
    assert_eq!(
        out[0],
        Outbound::Broadcast { event: ServerEvent::PlayerMoved { id: a, position } }
    );
    assert_eq!(game.player_position(a), Some(position));
    // A full broadcast is delivered to every known session, the mover included.
    let targets = game.broadcast();
    assert!(targets.contains(&a));
    assert!(targets.contains(&b));
}

#[test]
fn move_from_unknown_session_is_a_no_op() {
    let mut game = Game::new(0);
    let out = game.handle_event(99, &ClientEvent::Move { position: WorldCoordinate::new(1, 1, 1) }, 0);
    assert!(out.is_empty());
    assert_eq!(game.player_count(), 0);
}

#[test]
fn disconnect_removes_the_player_and_is_announced() {
    let mut game = Game::new(0);
    let a = connect_from(&mut game, addr(1), 0);
    let out = game.handle_event(a, &ClientEvent::Disconnect, 5);
    assert_eq!(out.len(), 1);
    assert_eq!(
        out[0],
        Outbound::Broadcast { event: ServerEvent::PlayerDisconnected { id: a } }
    );
    assert!(!game.has_player(a));
    assert_eq!(game.player_count(), 0);
}

#[test]
fn disconnect_from_unknown_session_is_a_no_op() {
    let mut game = Game::new(0);
    let out = game.handle_event(1234, &ClientEvent::Disconnect, 0);
    assert!(out.is_empty());
}

#[test]
fn duplicate_connect_resets_the_player() {
    let mut game = Game::new(0);
    let a = connect_from(&mut game, addr(1), 0);
    let position = WorldCoordinate::new(4, 5, 6);
    let _ = game.handle_event(a, &ClientEvent::Move { position }, 1);
    assert_eq!(game.player_position(a), Some(position));
    let _ = game.handle_event(a, &ClientEvent::Connect, 2);
    assert_eq!(game.player_count(), 1);
    assert_eq!(game.player_position(a), Some(WorldCoordinate::new(0, 0, 0)));
}

#[test]
fn silent_session_is_swept_and_observed_by_the_other() {
    let mut game = Game::new(0);
    let a = connect_from(&mut game, addr(1), 0);
    let b = connect_from(&mut game, addr(2), 1000);

    // At this instant the first session has been silent past the threshold,
    // while the second is only halfway there.
    let (out, positions) = game.maintenance(INACTIVITY_TIMEOUT_MS + 500, INACTIVITY_TIMEOUT_MS);
    assert_eq!(out.len(), 1);
    assert_eq!(
        out[0],
        Outbound::Broadcast { event: ServerEvent::PlayerDisconnected { id: a } }
    );
    assert!(!game.has_player(a));
    assert!(game.has_player(b));
    assert_eq!(positions.len(), 1);
    // The other connected session is among the recipients of the broadcast.
    assert!(game.broadcast().contains(&b));
}

#[test]
fn sweep_removes_exactly_at_the_threshold() {
    let mut game = Game::new(0);
    let a = connect_from(&mut game, addr(1), 0);
    let (out, _) = game.maintenance(INACTIVITY_TIMEOUT_MS, INACTIVITY_TIMEOUT_MS);
    assert_eq!(out.len(), 1);
    assert!(!game.has_player(a));
}

#[test]
fn active_sessions_survive_maintenance() {
    let mut game = Game::new(0);
    let a = connect_from(&mut game, addr(1), 0);
    let (out, positions) = game.maintenance(INACTIVITY_TIMEOUT_MS - 1, INACTIVITY_TIMEOUT_MS);
    assert!(out.is_empty());
    assert!(game.has_player(a));
    assert_eq!(positions, vec![WorldCoordinate::new(0, 0, 0)]);
}

#[test]
fn broadcast_except_skips_exactly_the_excluded_session() {
    let mut game = Game::new(0);
    let a = connect_from(&mut game, addr(1), 0);
    let b = connect_from(&mut game, addr(2), 0);
    let c = connect_from(&mut game, addr(3), 0);

    let all = game.broadcast();
    assert_eq!(all.len(), 3);
    assert!(all.contains(&a) && all.contains(&b) && all.contains(&c));

    let except = game.broadcast_except(b);
    assert_eq!(except.len(), 2);
    assert!(except.contains(&a) && except.contains(&c));
    assert!(!except.contains(&b));
}

#[test]
fn a_swept_session_stays_known_to_the_transport() {
    // The address cache never forgets, so the leaver's stale entry still
    // receives the announcement of its own removal.
    let mut game = Game::new(0);
    let a = connect_from(&mut game, addr(1), 0);
    let _ = game.maintenance(INACTIVITY_TIMEOUT_MS, INACTIVITY_TIMEOUT_MS);
    assert!(!game.has_player(a));
    assert!(game.broadcast().contains(&a));
    assert_eq!(game.addr_of(a), Some(addr(1)));
}

#[test]
fn the_same_address_keeps_its_identity() {
    let mut game = Game::new(0);
    let bytes = encode_client_event(&ClientEvent::Connect);
    let (a1, _) = game.ingest_packet(addr(1), &bytes);
    let (a2, _) = game.ingest_packet(addr(1), &bytes);
    assert_eq!(a1, a2);
    let (b, _) = game.ingest_packet(addr(2), &bytes);
    assert_ne!(a1, b);
}

#[test]
fn a_malformed_datagram_still_binds_the_address() {
    let mut game = Game::new(0);
    let (id, event) = game.ingest_packet(addr(9), &[255, 255]);
    assert_eq!(event, None);
    // The same address later resolves to the same identity.
    let (again, _) = game.ingest_packet(addr(9), &[0]);
    assert_eq!(id, again);
}

#[test]
fn a_move_counts_as_activity() {
    let mut game = Game::new(0);
    let a = connect_from(&mut game, addr(1), 0);
    let _ = game.handle_event(
        a,
        &ClientEvent::Move { position: WorldCoordinate::new(1, 0, 0) },
        1500,
    );
    // Last activity is now 1500, so at 3000 the session is only 1500 silent.
    let (out, _) = game.maintenance(3000, INACTIVITY_TIMEOUT_MS);
    assert!(out.is_empty());
    assert!(game.has_player(a));
}

#[test]
fn broadcasts_on_an_empty_table_reach_nobody() {
    let game = Game::new(0);
    assert!(game.broadcast().is_empty());
    assert!(game.broadcast_except(5).is_empty());
    assert_eq!(game.addr_of(5), None);
}

#[test]
fn tick_arithmetic_matches_the_configured_rate() {
    assert_eq!(SERVER_TICK_PER_SEC, 20);
    assert_eq!(tick_budget_ms(), 50);
    assert_eq!(remaining_budget_ms(30, 50), 20);
    assert_eq!(remaining_budget_ms(50, 50), 0);
    assert_eq!(remaining_budget_ms(80, 50), 0);
    assert!(should_poll(0, 50));
    assert!(should_poll(49, 50));
    assert!(!should_poll(50, 50));
}
