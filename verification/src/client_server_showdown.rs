use crate::actions::{apply_action, next_state, verdict, ApplyActionError};
use crate::game::{BoardState, GameAction, PlayerGame};
use vstd::prelude::*;

verus! {

/// What comparing the client's log with the server's log gives.
#[derive(Debug, Clone, Copy, PartialEq, Eq, Structural)]
pub enum ShowDownResult {
    /// The logs disagree, or the server is ahead: the predictions are void.
    NeedReSynchronize,
    /// The logs agree as far as the server has come.
    ServerLate,
    /// The logs agree and have the same length.
    Synchronized,
}

/// The two logs as contracts see them. In both the newest action comes
/// first and the oldest last.
pub struct Queues {
    /// Actions applied here and not yet confirmed by the server.
    pub client: Seq<GameAction>,
    /// Actions confirmed by the server and not yet held against `client`.
    pub server: Seq<GameAction>,
}

/// Whether an action of the server confirms an action of the client. A new
/// piece confirms a new piece whatever type was drawn; any other action
/// confirms only its equal.
pub open spec fn actions_match(server: GameAction, client: GameAction) -> bool {
    if server is NewTetrimino {
        client is NewTetrimino
    } else {
        server == client
    }
}

/// Every action of the server confirms the client's action of the same
/// age, counted from the oldest.
pub open spec fn logs_agree(q: Queues) -> bool {
    forall|k: int|
        0 <= k < q.server.len() ==> actions_match(
            #[trigger] q.server[k],
            q.client[k + q.client.len() - q.server.len()],
        )
}

/// What comparing the two logs gives.
pub open spec fn showdown(q: Queues) -> ShowDownResult {
    if q.server.len() > q.client.len() || !logs_agree(q) {
        ShowDownResult::NeedReSynchronize
    } else if q.server.len() != q.client.len() {
        ShowDownResult::ServerLate
    } else {
        ShowDownResult::Synchronized
    }
}

/// The logs after they were compared: the server's log is empty, and the
/// client's log holds the actions that the server has not confirmed yet,
/// or nothing where the predictions are void.
pub open spec fn synchronized(q: Queues) -> Queues {
    match showdown(q) {
        ShowDownResult::ServerLate => Queues {
            client: q.client.take(q.client.len() - q.server.len()),
            server: Seq::empty(),
        },
        _ => Queues { client: Seq::empty(), server: Seq::empty() },
    }
}

/// The logs after an action came in from the server. Garbage is not
/// predicted here: it has the logs compared first and then joins the
/// client's log as its oldest action.
pub open spec fn after_server_action(q: Queues, action: GameAction) -> Queues {
    if action is GetGarbage {
        Queues {
            client: synchronized(q).client.push(action),
            server: seq![action] + synchronized(q).server,
        }
    } else {
        Queues { client: q.client, server: seq![action] + q.server }
    }
}

/// The board after the actions of a log were applied to it, from the
/// oldest to the newest. A rejected action changes nothing.
pub open spec fn replay(s: BoardState, log: Seq<GameAction>) -> BoardState
    decreases log.len(),
{
    if log.len() == 0 {
        s
    } else {
        replay(next_state(s, log.last()), log.drop_last())
    }
}

/// The client's log of predicted actions and the server's log of confirmed
/// ones.
pub struct ActionsQueues(Vec<GameAction>, Vec<GameAction>);

impl View for ActionsQueues {
    type V = Queues;

    closed spec fn view(&self) -> Queues {
        Queues { client: self.0@, server: self.1@ }
    }
}

impl ActionsQueues {
    pub fn new() -> (r: Self)
        ensures
            r@.client.len() == 0,
            r@.server.len() == 0,
    {
        Self(vec![], vec![])
    }

    /// Compares the two logs.
    pub fn are_client_server_synchronized(&self) -> (r: ShowDownResult)
        ensures
            r == showdown(self@),
    {
        let client_len = self.0.len();
        let server_len = self.1.len();
        if server_len > client_len {
            return ShowDownResult::NeedReSynchronize;
        }
        let mut i: usize = 0;
        while i < server_len
            invariant
                client_len == self.0@.len(),
                server_len == self.1@.len(),
                server_len <= client_len,
                i <= server_len,
                forall|k: int|
                    server_len - i <= k < server_len ==> actions_match(
                        #[trigger] self.1@[k],
                        self.0@[k + client_len - server_len],
                    ),
            decreases server_len - i,
        {
            let j = client_len - i - 1;
            let k = server_len - i - 1;
            let server_action = self.1[k];
            let client_action = self.0[j];
            if let GameAction::NewTetrimino(_) = server_action {
                if let GameAction::NewTetrimino(_) = client_action {
                } else {
                    assert(!actions_match(self.1@[k as int], self.0@[k + client_len - server_len]));
                    return ShowDownResult::NeedReSynchronize;
                }
            } else if server_action != client_action {
                assert(!actions_match(self.1@[k as int], self.0@[k + client_len - server_len]));
                return ShowDownResult::NeedReSynchronize;
            }
            i += 1;
        }
        if server_len != client_len {
            return ShowDownResult::ServerLate;
        }
        ShowDownResult::Synchronized
    }

    /// Logs an action that was applied here ahead of the server.
    pub fn push_client_action(&mut self, action: GameAction)
        ensures
            final(self)@ == (Queues {
                client: seq![action] + old(self)@.client,
                server: old(self)@.server,
            }),
    {
        self.0.insert(0, action);
        assert(self.0@ =~= seq![action] + old(self).0@);
    }

    /// Logs an action that the server sent.
    pub fn push_server_action(&mut self, action: GameAction)
        ensures
            final(self)@ == after_server_action(old(self)@, action),
    {
        if let GameAction::GetGarbage(_, _) = &action {
            self.client_server_synchronization();
            self.0.push(action.clone());
        }
        let ghost before = self.1@;
        self.1.insert(0, action);
        assert(self.1@ =~= seq![action] + before);
    }

    /// Compares the two logs and drops from them what the comparison has
    /// settled.
    pub fn client_server_synchronization(&mut self) -> (r: ShowDownResult)
        ensures
            r == showdown(old(self)@),
            final(self)@ == synchronized(old(self)@),
    {
        let client_server_synchronization = self.are_client_server_synchronized();
        match client_server_synchronization {
            ShowDownResult::NeedReSynchronize | ShowDownResult::Synchronized => {
                self.0 = vec![];
                self.1 = vec![];
                assert(self.0@ =~= Seq::empty());
                assert(self.1@ =~= Seq::empty());
            },
            ShowDownResult::ServerLate => {
                self.0.truncate(self.0.len() - self.1.len());
                self.1 = vec![];
                assert(self.1@ =~= Seq::empty());
                assert(self.0@ =~= old(self).0@.take(old(self).0@.len() - old(self).1@.len()));
            },
        }
        client_server_synchronization
    }

    /// The board to show: the server's board with the actions applied that
    /// the server has not confirmed yet, from the oldest to the newest.
    pub fn client_board_prediction(&mut self, board: PlayerGame) -> (r: (
        PlayerGame,
        ShowDownResult,
    ))
        requires
            board.wf(),
        ensures
            r.1 == showdown(old(self)@),
            final(self)@ == synchronized(old(self)@),
            r.0@ == replay(board@, final(self)@.client),
            r.0.wf(),
    {
        let client_server_synchronization = self.client_server_synchronization();
        let mut board = board;
        self.replay_on(&mut board);
        (board, client_server_synchronization)
    }

    /// Applies the client's log to a board, from the oldest action to the
    /// newest.
    fn replay_on(&self, board: &mut PlayerGame)
        requires
            old(board).wf(),
        ensures
            final(board).wf(),
            final(board)@ == replay(old(board)@, self@.client),
    {
        let ghost log = self.0@;
        let mut i: usize = self.0.len();
        assert(log.take(i as int) =~= log);
        while i > 0
            invariant
                i <= log.len(),
                log == self.0@,
                board.wf(),
                replay(board@, log.take(i as int)) == replay(old(board)@, log),
            decreases i,
        {
            i -= 1;
            assert(log.take(i + 1).drop_last() =~= log.take(i as int));
            let _ = apply_action(board, self.0[i].clone());
        }
    }

    /// Whether an action would be applied to the board to show.
    pub fn action_result(&mut self, board: &PlayerGame, action: GameAction) -> (r: Result<
        (),
        ApplyActionError,
    >)
        requires
            board.wf(),
        ensures
            final(self)@ == synchronized(old(self)@),
            r == verdict(replay(board@, final(self)@.client), action),
    {
        self.client_server_synchronization();
        let mut board = board.clone();
        self.replay_on(&mut board);
        apply_action(&mut board, action)
    }
}

} // verus!
