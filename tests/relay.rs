use handshake_spoof::relay::{Direction, Relay, RelayAction, RelayEvent};

#[test]
fn relay_client_end_abandons_server_direction() {
    let mut r = Relay::new();
    assert_eq!(r.idle(), RelayAction::Continue);
    assert_eq!(
        r.step(RelayEvent::Ended(Direction::ClientToServer)),
        RelayAction::Abandon(Direction::ServerToClient)
    );
    assert_eq!(r.idle(), RelayAction::Finished);
    assert_eq!(r.step(RelayEvent::Ended(Direction::ServerToClient)), RelayAction::Finished);
    assert_eq!(r.ended_by, Some(Direction::ClientToServer));
}

#[test]
fn relay_server_error_finishes() {
    let mut r = Relay::new();
    assert_eq!(
        r.step(RelayEvent::Errored(Direction::ServerToClient)),
        RelayAction::Abandon(Direction::ClientToServer)
    );
    assert_eq!(r.step(RelayEvent::Errored(Direction::ClientToServer)), RelayAction::Finished);
}
