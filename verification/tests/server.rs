use lib::gamenet::enums::Team;
use lib::server::on_message;
use lib::server::PeerMessage;
use lib::server::PeerState;
use lib::server::ServerAction;

fn info(version: &[u8], password: Option<&[u8]>) -> PeerMessage {
    PeerMessage::Info { version: version.to_vec(), password: password.map(|p| p.to_vec()) }
}

#[test]
fn server_connection_sequence() {
    let s = PeerState::SystemInfo;
    let (s, a, unprocessed) = on_message(&s, true, &info(b"0.6 626fce9a778df4d4", Some(b"foobar")));
    assert!(matches!(s, PeerState::SystemReady));
    assert_eq!(a, vec![ServerAction::SendMapChange, ServerAction::Flush]);
    assert!(!unprocessed);
    let (s, a, unprocessed) = on_message(&s, true, &PeerMessage::RequestMapData { chunk: 3 });
    assert_eq!(a, vec![ServerAction::ServeMapData { chunk: 3 }]);
    assert!(unprocessed);
    let (s, a, _) = on_message(&s, true, &PeerMessage::Ready);
    assert!(matches!(s, PeerState::GameInfo));
    assert_eq!(a, vec![ServerAction::SendMotd, ServerAction::SendConReady, ServerAction::Flush]);
    let name = b"a rather long player name".to_vec();
    let (s, a, _) = on_message(&s, true, &PeerMessage::StartInfo { name });
    assert_eq!(a.len(), 4);
    match &s {
        PeerState::SystemEnterGame { name } => assert_eq!(name.as_slice(), b"a rather long p"),
        _ => panic!("not entering the game"),
    }
    let (s, a, _) = on_message(&s, true, &PeerMessage::EnterGame);
    assert!(a.is_empty());
    assert!(matches!(s, PeerState::Ingame { spectator: true, .. }));
    let (s, a, unprocessed) = on_message(&s, false, &PeerMessage::Input { ack_snapshot: 7 });
    assert_eq!(a, vec![ServerAction::TakeInput { ack_snapshot: 7 }]);
    assert!(!unprocessed);
    let (s, a, unprocessed) = on_message(&s, true, &PeerMessage::SetTeam { team: Team::Spectators });
    assert!(a.is_empty());
    assert!(!unprocessed);
    let (s, a, _) = on_message(&s, true, &PeerMessage::SetTeam { team: Team::Red });
    assert_eq!(a, vec![ServerAction::JoinGame]);
    assert!(matches!(s, PeerState::Ingame { spectator: false, .. }));
    let (_, a, _) = on_message(&s, true, &PeerMessage::CallVote { type_: b"kick".to_vec() });
    assert_eq!(a, vec![ServerAction::ChatNoKickVotes]);
}

#[test]
fn server_refusals() {
    let s = PeerState::SystemInfo;
    let (s, a, _) = on_message(&s, true, &info(b"0.6 626fce9a778df4d4", Some(b"wrong")));
    assert_eq!(a, vec![ServerAction::DisconnectWrongPassword]);
    let (s, a, _) = on_message(&s, true, &info(b"0.5", None));
    assert_eq!(a, vec![ServerAction::DisconnectWrongVersion]);
    let (s, a, unprocessed) = on_message(&s, false, &PeerMessage::Ready);
    assert!(a.is_empty() && !unprocessed);
    let (s, a, unprocessed) = on_message(&s, true, &PeerMessage::Ready);
    assert!(a.is_empty() && unprocessed);
    let (_, a, _) = on_message(&s, true, &PeerMessage::RconAuth);
    assert_eq!(a, vec![ServerAction::SendRconWrongPassword]);
}
