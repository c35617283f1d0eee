use termcraft::network::{record_remote_player, MessageKind, ServerAction, ServerState};

#[test]
fn joins_get_increasing_ids() {
    let mut s = ServerState::new();
    assert_eq!(s.handle(MessageKind::Join, 100), ServerAction::Welcome { to: 100, id: 1 });
    assert_eq!(s.handle(MessageKind::Join, 200), ServerAction::Welcome { to: 200, id: 2 });
    assert_eq!(s.players, vec![(1, 100), (2, 200)]);
    assert_eq!(s.next_id, 3);
}

#[test]
fn relays_go_to_everyone_else() {
    let mut s = ServerState::new();
    s.handle(MessageKind::Join, 100);
    s.handle(MessageKind::Join, 200);
    s.handle(MessageKind::Join, 300);
    assert_eq!(s.handle(MessageKind::Relay, 200), ServerAction::Forward { to: vec![100, 300] });
    assert_eq!(s.handle(MessageKind::Relay, 999), ServerAction::Forward { to: vec![100, 200, 300] });
    assert_eq!(s.handle(MessageKind::Leave, 100), ServerAction::Ignore);
    assert_eq!(s.players.len(), 3);
}

#[test]
fn remote_players_are_updated_in_place() {
    let mut players: Vec<(u32, (i32, i32))> = Vec::new();
    record_remote_player(&mut players, 1, 2, (5, 5));
    record_remote_player(&mut players, 1, 3, (6, 6));
    record_remote_player(&mut players, 1, 2, (7, 7));
    record_remote_player(&mut players, 1, 1, (9, 9));
    assert_eq!(players, vec![(2, (7, 7)), (3, (6, 6))]);
}
