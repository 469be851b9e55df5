//! Simulation core of a multiplayer falling-block game: piece geometry and
//! rotation, the board engine, the action interpreter shared by client and
//! server, the client's prediction log, and the server's pool scheduler.

use vstd::prelude::*;

pub mod actions;
pub mod agent;
pub mod client_server_showdown;
pub mod game;
pub mod matchmaking;
pub mod players;
pub mod pools;
pub mod rotation_tetrimino;
pub mod simulate_action;
pub mod tetrimino;
pub mod tetrimino_bag;

verus! {

/// What a client sends to the server.
#[derive(Debug, Clone, PartialEq)]
pub enum ClientRequest {
    SetName(String),
    AskForAGame,
    Input(game::Input),
}

/// What the server sends to a client.
#[derive(Debug, PartialEq)]
pub enum ServerRequest {
    BadRequest,
    /// The match starts: the player's board and the tick interval in
    /// milliseconds.
    GameReady(game::PlayerGame, u16),
    PlayerListUpdate(Vec<game::PlayerMinimalInfos>),
    /// An action that was applied to the player's board, to replay.
    MinifiedAction(game::GameAction),
    GameOver,
    Message(String, String),
}

/// A message of the server as contracts see it.
pub enum ServerMessage {
    BadRequest,
    GameReady(game::BoardState, u16),
    PlayerListUpdate(Seq<game::MinimalInfos>),
    MinifiedAction(game::GameAction),
    GameOver,
    Message(Seq<char>, Seq<char>),
}

impl Clone for ServerRequest {
    fn clone(&self) -> (r: Self)
        ensures
            r@ == self@,
    {
        match self {
            ServerRequest::BadRequest => ServerRequest::BadRequest,
            ServerRequest::GameReady(board, tick) => ServerRequest::GameReady(board.clone(), *tick),
            ServerRequest::PlayerListUpdate(list) => {
                let mut copy: Vec<game::PlayerMinimalInfos> = Vec::new();
                let mut i: usize = 0;
                while i < list.len()
                    invariant
                        i <= list@.len(),
                        copy@.len() == i,
                        forall|k: int| 0 <= k < i ==> (#[trigger] copy@[k])@ == list@[k]@,
                    decreases list@.len() - i,
                {
                    copy.push(
                        game::PlayerMinimalInfos {
                            name: list[i].name.clone(),
                            dead: list[i].dead,
                        },
                    );
                    i += 1;
                }
                assert(game::roster_view(copy@) =~= game::roster_view(list@));
                ServerRequest::PlayerListUpdate(copy)
            },
            ServerRequest::MinifiedAction(action) => ServerRequest::MinifiedAction(*action),
            ServerRequest::GameOver => ServerRequest::GameOver,
            ServerRequest::Message(from, text) => ServerRequest::Message(
                from.clone(),
                text.clone(),
            ),
        }
    }
}

impl View for ServerRequest {
    type V = ServerMessage;

    open spec fn view(&self) -> ServerMessage {
        match self {
            ServerRequest::BadRequest => ServerMessage::BadRequest,
            ServerRequest::GameReady(board, tick) => ServerMessage::GameReady(board@, *tick),
            ServerRequest::PlayerListUpdate(list) => ServerMessage::PlayerListUpdate(
                game::roster_view(list@),
            ),
            ServerRequest::MinifiedAction(action) => ServerMessage::MinifiedAction(*action),
            ServerRequest::GameOver => ServerMessage::GameOver,
            ServerRequest::Message(from, text) => ServerMessage::Message(from@, text@),
        }
    }
}

} // verus!
