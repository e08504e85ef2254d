//! The decisions of a proof-of-concept Teeworlds 0.6 server: how a peer
//! moves through the connection sequence (info, map change, ready, start
//! info, enter game) and what the server answers each message with.
//!
//! The caller decodes the messages, performs the actions (sending,
//! flushing, disconnecting, serving map data, keeping inputs and the
//! player list) and keeps each peer's state.
use vstd::prelude::*;
use crate::gamenet::enums::Team;
use crate::register::bytes_eq;

verus! {

/// The network version a client must speak.
pub const VERSION: [u8; 20] = [
    48u8, 46, 54, 32, 54, 50, 54, 102, 99, 101, 57, 97, 55, 55, 56, 100, 102, 52, 100, 52,
];

/// The password the server asks for.
pub const PASSWORD: [u8; 6] = [102u8, 111, 111, 98, 97, 114];

/// The vote type that kicks a player.
pub const VOTE_KICK: [u8; 4] = [107u8, 105, 99, 107];

/// The vote type that moves a player to the spectators.
pub const VOTE_SPECTATE: [u8; 8] = [115u8, 112, 101, 99, 116, 97, 116, 101];

/// The longest player name kept, without its null termination.
pub const PLAYER_NAME_LENGTH: usize = 15;

/// Where a peer stands in the connection sequence.
pub enum PeerState {
    /// Waiting for the client's info.
    SystemInfo,
    /// The map change was sent; waiting for the client to be ready.
    SystemReady,
    /// Waiting for the client's start info.
    GameInfo,
    /// Waiting for the client to enter the game.
    SystemEnterGame { name: Vec<u8> },
    /// In the game, as a player or a spectator.
    Ingame { name: Vec<u8>, spectator: bool },
}

/// A peer's state, as a value.
#[verifier::ext_equal]
pub enum PeerStateView {
    SystemInfo,
    SystemReady,
    GameInfo,
    SystemEnterGame { name: Seq<u8> },
    Ingame { name: Seq<u8>, spectator: bool },
}

impl View for PeerState {
    type V = PeerStateView;

    open spec fn view(&self) -> PeerStateView {
        match self {
            PeerState::SystemInfo => PeerStateView::SystemInfo,
            PeerState::SystemReady => PeerStateView::SystemReady,
            PeerState::GameInfo => PeerStateView::GameInfo,
            PeerState::SystemEnterGame { name } => PeerStateView::SystemEnterGame { name: name@ },
            PeerState::Ingame { name, spectator } => PeerStateView::Ingame { name: name@, spectator: *spectator },
        }
    }
}

/// What a peer's message says, as far as the server looks at it.
pub enum PeerMessage {
    /// The client's info: its version and password.
    Info { version: Vec<u8>, password: Option<Vec<u8>> },
    /// A request for the chunk `chunk` of the map.
    RequestMapData { chunk: i32 },
    /// The client has the map.
    Ready,
    /// The client's start info: its name.
    StartInfo { name: Vec<u8> },
    /// The client enters the game.
    EnterGame,
    /// The client tries to log in to the remote console.
    RconAuth,
    /// The client's input, acknowledging the snapshot `ack_snapshot`.
    Input { ack_snapshot: i32 },
    /// The client calls a vote of type `type_`.
    CallVote { type_: Vec<u8> },
    /// The client asks to join the team `team`.
    SetTeam { team: Team },
    /// Any other message.
    Other,
}

/// What the server does for a message.
#[derive(Clone, Copy, Debug, PartialEq, Eq, Structural)]
pub enum ServerAction {
    /// Sends the map change for the server's map.
    SendMapChange,
    /// Sends what is queued for the peer.
    Flush,
    /// Disconnects the peer for its wrong password.
    DisconnectWrongPassword,
    /// Disconnects the peer for its version, naming both versions.
    DisconnectWrongVersion,
    /// Sends the map chunk `chunk`, where the map has it.
    ServeMapData { chunk: i32 },
    /// Sends the message of the day.
    SendMotd,
    /// Sends that the connection is ready.
    SendConReady,
    /// Sends that there are no vote options.
    SendVoteClearOptions,
    /// Sends the default tuning parameters.
    SendTuneParams,
    /// Sends that the peer may enter the game.
    SendReadyToEnter,
    /// Answers the remote console login with a wrong password line.
    SendRconWrongPassword,
    /// Keeps the input and its acknowledged snapshot `ack_snapshot`.
    TakeInput { ack_snapshot: i32 },
    /// Tells the peer that kick votes are not allowed.
    ChatNoKickVotes,
    /// Tells the peer that spectate votes are not allowed.
    ChatNoSpectateVotes,
    /// Moves the peer's player to the spectators and announces it.
    JoinSpectators,
    /// Spawns a player for the peer and announces it.
    JoinGame,
}

/// The name kept of the name `name`: its first `PLAYER_NAME_LENGTH` bytes.
pub open spec fn kept_name(name: Seq<u8>) -> Seq<u8> {
    if name.len() <= PLAYER_NAME_LENGTH {
        name
    } else {
        name.subrange(0, PLAYER_NAME_LENGTH as int)
    }
}

/// The peer's next state, the actions, and whether the message counts as
/// not processed (and is logged so), for the message `m`, sent vital or
/// not, in the state `s`. A message that is not vital, other than an
/// input, is passed over.
pub open spec fn message_step(s: PeerStateView, vital: bool, m: PeerMessage) -> (
    PeerStateView,
    Seq<ServerAction>,
    bool,
) {
    if !vital && !(m is Input) {
        (s, seq![], false)
    } else {
        match m {
            PeerMessage::Info { version, password } => if s is SystemInfo {
                if version@ != VERSION@ {
                    (s, seq![ServerAction::DisconnectWrongVersion], false)
                } else if password matches Some(p) && p@ == PASSWORD@ {
                    (PeerStateView::SystemReady, seq![ServerAction::SendMapChange, ServerAction::Flush], false)
                } else {
                    (s, seq![ServerAction::DisconnectWrongPassword], false)
                }
            } else {
                (s, seq![], true)
            },
            PeerMessage::RequestMapData { chunk } => if s is SystemReady {
                (s, seq![ServerAction::ServeMapData { chunk }], true)
            } else {
                (s, seq![], true)
            },
            PeerMessage::Ready => if s is SystemReady {
                (
                    PeerStateView::GameInfo,
                    seq![ServerAction::SendMotd, ServerAction::SendConReady, ServerAction::Flush],
                    false,
                )
            } else {
                (s, seq![], true)
            },
            PeerMessage::StartInfo { name } => if s is GameInfo {
                (
                    PeerStateView::SystemEnterGame { name: kept_name(name@) },
                    seq![
                        ServerAction::SendVoteClearOptions,
                        ServerAction::SendTuneParams,
                        ServerAction::SendReadyToEnter,
                        ServerAction::Flush,
                    ],
                    false,
                )
            } else {
                (s, seq![], true)
            },
            PeerMessage::EnterGame => match s {
                PeerStateView::SystemEnterGame { name } => (
                    PeerStateView::Ingame { name, spectator: true },
                    seq![],
                    false,
                ),
                _ => (s, seq![], true),
            },
            PeerMessage::RconAuth => (s, seq![ServerAction::SendRconWrongPassword], false),
            PeerMessage::Input { ack_snapshot } => if s is Ingame {
                (s, seq![ServerAction::TakeInput { ack_snapshot }], false)
            } else {
                (s, seq![], true)
            },
            PeerMessage::CallVote { type_ } => if s is Ingame {
                if type_@ == VOTE_KICK@ {
                    (s, seq![ServerAction::ChatNoKickVotes], false)
                } else if type_@ == VOTE_SPECTATE@ {
                    (s, seq![ServerAction::ChatNoSpectateVotes], false)
                } else {
                    (s, seq![], true)
                }
            } else {
                (s, seq![], true)
            },
            PeerMessage::SetTeam { team } => match s {
                PeerStateView::Ingame { name, spectator } => {
                    let join = team == Team::Spectators;
                    if spectator == join {
                        (s, seq![], false)
                    } else if join {
                        (PeerStateView::Ingame { name, spectator: true }, seq![ServerAction::JoinSpectators], true)
                    } else {
                        (PeerStateView::Ingame { name, spectator: false }, seq![ServerAction::JoinGame], true)
                    }
                },
                _ => (s, seq![], true),
            },
            PeerMessage::Other => (s, seq![], true),
        }
    }
}

/// The connection sequence: a client that sends, vital, its info with the
/// right version and password, then ready, its start info and enter game,
/// ends in the game as a spectator under its (kept) name, and each step is
/// processed.
pub proof fn lemma_connection_sequence(version: Vec<u8>, password: Vec<u8>, name: Vec<u8>)
    requires
        version@ == VERSION@,
        password@ == PASSWORD@,
    ensures
        ({
            let s1 = message_step(PeerStateView::SystemInfo, true, PeerMessage::Info { version, password: Some(password) });
            let s2 = message_step(s1.0, true, PeerMessage::Ready);
            let s3 = message_step(s2.0, true, PeerMessage::StartInfo { name });
            let s4 = message_step(s3.0, true, PeerMessage::EnterGame);
            &&& s1.0 == PeerStateView::SystemReady && !s1.2
            &&& s2.0 == PeerStateView::GameInfo && !s2.2
            &&& s3.0 == PeerStateView::SystemEnterGame { name: kept_name(name@) } && !s3.2
            &&& s4.0 == PeerStateView::Ingame { name: kept_name(name@), spectator: true } && !s4.2
        }),
{
}

/// A copy of the first `n` bytes of `b`.
fn copy_bytes(b: &[u8], n: usize) -> (r: Vec<u8>)
    requires
        n <= b@.len(),
    ensures
        r@ == b@.subrange(0, n as int),
{
    let mut r: Vec<u8> = Vec::new();
    let mut i: usize = 0;
    while i < n
        invariant
            i <= n <= b@.len(),
            r@ == b@.subrange(0, i as int),
        decreases n - i,
    {
        r.push(b[i]);
        i = i + 1;
    }
    r
}

/// A copy of the state `s`.
fn copy_state(s: &PeerState) -> (r: PeerState)
    ensures
        r@ == s@,
{
    match s {
        PeerState::SystemInfo => PeerState::SystemInfo,
        PeerState::SystemReady => PeerState::SystemReady,
        PeerState::GameInfo => PeerState::GameInfo,
        PeerState::SystemEnterGame { name } => PeerState::SystemEnterGame {
            name: copy_bytes(name.as_slice(), name.len()),
        },
        PeerState::Ingame { name, spectator } => PeerState::Ingame {
            name: copy_bytes(name.as_slice(), name.len()),
            spectator: *spectator,
        },
    }
}

/// Handles the message `msg` of a peer in the state `state`: the peer's
/// next state, what to do, and whether the message counts as not
/// processed.
pub fn on_message(state: &PeerState, vital: bool, msg: &PeerMessage) -> (r: (PeerState, Vec<ServerAction>, bool))
    ensures
        r.0@ == message_step(state@, vital, *msg).0,
        r.1@ == message_step(state@, vital, *msg).1,
        r.2 == message_step(state@, vital, *msg).2,
{
    let is_input = match msg {
        PeerMessage::Input { .. } => true,
        _ => false,
    };
    if !vital && !is_input {
        return (copy_state(state), Vec::new(), false);
    }
    let mut actions: Vec<ServerAction> = Vec::new();
    match msg {
        PeerMessage::Info { version, password } => match state {
            PeerState::SystemInfo => {
                let version_ok = bytes_eq(version.as_slice(), VERSION.as_slice());
                if !version_ok {
                    actions.push(ServerAction::DisconnectWrongVersion);
                    return (PeerState::SystemInfo, actions, false);
                }
                let password_ok = match password {
                    Some(p) => bytes_eq(p.as_slice(), PASSWORD.as_slice()),
                    None => false,
                };
                if password_ok {
                    actions.push(ServerAction::SendMapChange);
                    actions.push(ServerAction::Flush);
                    proof {
                        assert(actions@ =~= seq![ServerAction::SendMapChange, ServerAction::Flush]);
                    }
                    (PeerState::SystemReady, actions, false)
                } else {
                    actions.push(ServerAction::DisconnectWrongPassword);
                    (PeerState::SystemInfo, actions, false)
                }
            },
            _ => (copy_state(state), actions, true),
        },
        PeerMessage::RequestMapData { chunk } => match state {
            PeerState::SystemReady => {
                actions.push(ServerAction::ServeMapData { chunk: *chunk });
                (PeerState::SystemReady, actions, true)
            },
            _ => (copy_state(state), actions, true),
        },
        PeerMessage::Ready => match state {
            PeerState::SystemReady => {
                actions.push(ServerAction::SendMotd);
                actions.push(ServerAction::SendConReady);
                actions.push(ServerAction::Flush);
                proof {
                    assert(actions@ =~= seq![ServerAction::SendMotd, ServerAction::SendConReady, ServerAction::Flush]);
                }
                (PeerState::GameInfo, actions, false)
            },
            _ => (copy_state(state), actions, true),
        },
        PeerMessage::StartInfo { name } => match state {
            PeerState::GameInfo => {
                let n = if name.len() <= PLAYER_NAME_LENGTH {
                    name.len()
                } else {
                    PLAYER_NAME_LENGTH
                };
                let kept = copy_bytes(name.as_slice(), n);
                proof {
                    if name@.len() <= PLAYER_NAME_LENGTH {
                        assert(kept@ =~= name@);
                    }
                }
                actions.push(ServerAction::SendVoteClearOptions);
                actions.push(ServerAction::SendTuneParams);
                actions.push(ServerAction::SendReadyToEnter);
                actions.push(ServerAction::Flush);
                proof {
                    assert(actions@ =~= seq![
                        ServerAction::SendVoteClearOptions,
                        ServerAction::SendTuneParams,
                        ServerAction::SendReadyToEnter,
                        ServerAction::Flush,
                    ]);
                }
                (PeerState::SystemEnterGame { name: kept }, actions, false)
            },
            _ => (copy_state(state), actions, true),
        },
        PeerMessage::EnterGame => match state {
            PeerState::SystemEnterGame { name } => (
                PeerState::Ingame { name: copy_bytes(name.as_slice(), name.len()), spectator: true },
                actions,
                false,
            ),
            _ => (copy_state(state), actions, true),
        },
        PeerMessage::RconAuth => {
            actions.push(ServerAction::SendRconWrongPassword);
            (copy_state(state), actions, false)
        },
        PeerMessage::Input { ack_snapshot } => match state {
            PeerState::Ingame { .. } => {
                actions.push(ServerAction::TakeInput { ack_snapshot: *ack_snapshot });
                (copy_state(state), actions, false)
            },
            _ => (copy_state(state), actions, true),
        },
        PeerMessage::CallVote { type_ } => match state {
            PeerState::Ingame { .. } => {
                if bytes_eq(type_.as_slice(), VOTE_KICK.as_slice()) {
                    actions.push(ServerAction::ChatNoKickVotes);
                    (copy_state(state), actions, false)
                } else if bytes_eq(type_.as_slice(), VOTE_SPECTATE.as_slice()) {
                    actions.push(ServerAction::ChatNoSpectateVotes);
                    (copy_state(state), actions, false)
                } else {
                    (copy_state(state), actions, true)
                }
            },
            _ => (copy_state(state), actions, true),
        },
        PeerMessage::SetTeam { team } => match state {
            PeerState::Ingame { name, spectator } => {
                let join = match team {
                    Team::Spectators => true,
                    _ => false,
                };
                if *spectator == join {
                    return (copy_state(state), actions, false);
                }
                let name = copy_bytes(name.as_slice(), name.len());
                if join {
                    actions.push(ServerAction::JoinSpectators);
                } else {
                    actions.push(ServerAction::JoinGame);
                }
                (PeerState::Ingame { name, spectator: join }, actions, true)
            },
            _ => (copy_state(state), actions, true),
        },
        PeerMessage::Other => (copy_state(state), actions, true),
    }
}

} // verus!
