use crate::actions::{
    apply_action, drop_current_tetrimino, dropped, input_action, input_to_action, next_state,
    verdict, ApplyActionError,
};
use crate::game::{
    empty_grid, lemma_full_rows_below, roster_view, BoardState, Direction, GameAction, Grid, Input, Matrix,
    MinimalInfos, PlayerGame, PlayerMinimalInfos,
};
use crate::tetrimino::{Placement, Tetrimino, TetriminoType};
use crate::tetrimino_bag::{fresh_split, random_below};
use crate::{ServerMessage, ServerRequest};
use vstd::prelude::*;

verus! {

/// What names a pool: the millisecond at which it was made.
pub type PoolId = u64;

/// Where a connected player stands.
#[derive(Debug, PartialEq, Eq, Structural, Clone, Copy)]
pub enum PoolState {
    /// In the match of the pool named.
    Pool(PoolId),
    /// Waiting for a match.
    PendingPool,
    /// Neither.
    NoPool,
}

/// A player in a match: the board, the millisecond of the last tick or
/// counted input, the garbage rows received so far, and whether the player
/// has lost. The count of garbage stops at the end of its range.
pub struct PlayerInfos {
    pub player: PlayerGame,
    pub last_call: u64,
    pub garbage_received: u32,
    pub dead: bool,
}

/// A player in a match as contracts see them.
pub struct PlayerInfosView {
    pub board: BoardState,
    pub last_call: u64,
    pub garbage_received: u32,
    pub dead: bool,
}

impl View for PlayerInfos {
    type V = PlayerInfosView;

    open spec fn view(&self) -> PlayerInfosView {
        PlayerInfosView {
            board: self.player@,
            last_call: self.last_call,
            garbage_received: self.garbage_received,
            dead: self.dead,
        }
    }
}

/// What a lock reports to the garbage routing: how many rows it removed,
/// and whether the piece could move neither left nor right nor up where it
/// was locked.
#[derive(Debug, PartialEq, Eq, Structural, Clone, Copy)]
pub struct LockReport {
    pub rows: u32,
    pub spin: bool,
}

/// What one step of a player's board gives to the scheduler.
#[derive(Debug, PartialEq, Eq, Structural, Clone, Copy)]
pub struct StepOutcome {
    /// The action applied, for the player to replay.
    pub reply: Option<GameAction>,
    /// The player lost in this step.
    pub died: bool,
    /// A piece was locked in this step.
    pub lock: Option<LockReport>,
}

/// The piece can move neither left nor right nor up.
pub open spec fn immobile(p: Placement, g: Grid) -> bool {
    &&& !p.moved(Direction::Left).valid_on(g)
    &&& !p.moved(Direction::Right).valid_on(g)
    &&& !p.moved(Direction::Up).valid_on(g)
}

/// What locking the active piece of `s` where it stands reports.
pub open spec fn lock_report(s: BoardState) -> LockReport {
    LockReport { rows: s.locked_lines().len() as u32, spin: immobile(s.current->0, s.grid) }
}

/// The player's fall timer has run out.
pub open spec fn due(v: PlayerInfosView, now: u64, call_every: u64) -> bool {
    !v.dead && now >= v.last_call && now - v.last_call >= call_every
}

/// Whether the piece that a spawn gave cannot stand where it appeared.
pub open spec fn spawn_fails(s: BoardState) -> bool {
    s.current matches Some(q) && !q.valid_on(s.grid)
}

/// What a step gives to the scheduler. `draw` is the place in the bag of
/// the type that is drawn if the step spawns a piece.
pub open spec fn outcome_of(v: PlayerInfosView, input: Input, draw: int) -> StepOutcome {
    match input {
        Input::Fall => match v.board.current {
            Some(p) => StepOutcome {
                reply: Some(GameAction::Fall),
                died: false,
                lock: if p.moved(Direction::Down).valid_on(v.board.grid) {
                    None
                } else {
                    Some(lock_report(v.board))
                },
            },
            None => StepOutcome {
                reply: if spawn_fails(v.board.spawned_next(draw)) {
                    None
                } else {
                    Some(GameAction::NewTetrimino(v.board.bag[draw]))
                },
                died: spawn_fails(v.board.spawned_next(draw)),
                lock: None,
            },
        },
        Input::FastMove => match v.board.current {
            Some(p) => StepOutcome {
                reply: Some(input_action(input)),
                died: false,
                lock: Some(lock_report(dropped(v.board))),
            },
            None => StepOutcome { reply: None, died: false, lock: None },
        },
        _ => StepOutcome {
            reply: if verdict(v.board, input_action(input)) is Ok {
                Some(input_action(input))
            } else {
                None
            },
            died: false,
            lock: None,
        },
    }
}

/// The player after a step at the millisecond `now`. A fall tick lets the
/// piece fall or lock, and spawns the next piece where none is active; a
/// player whose spawned piece cannot stand has lost. Any other input is
/// the action it asks for, and the timer starts anew unless the action
/// found no active piece.
pub open spec fn played(v: PlayerInfosView, input: Input, now: u64, draw: int) -> PlayerInfosView {
    match input {
        Input::Fall => match v.board.current {
            Some(p) => PlayerInfosView {
                board: next_state(v.board, GameAction::Fall),
                last_call: now,
                ..v
            },
            None => PlayerInfosView {
                board: v.board.spawned_next(draw),
                last_call: now,
                dead: v.dead || spawn_fails(v.board.spawned_next(draw)),
                ..v
            },
        },
        _ => PlayerInfosView {
            board: next_state(v.board, input_action(input)),
            last_call: if verdict(v.board, input_action(input)) == Err::<(), ApplyActionError>(
                ApplyActionError::InvalidActionNoResetTimer,
            ) {
                v.last_call
            } else {
                now
            },
            ..v
        },
    }
}

/// Whether the piece can move neither left nor right nor up.
pub fn is_immobile(tetrimino: &Tetrimino, matrix: &Matrix) -> (r: bool)
    requires
        tetrimino.wf(),
    ensures
        r == immobile(tetrimino@, crate::game::grid_view(*matrix)),
{
    !tetrimino.can_move_to(matrix, Direction::Left) && !tetrimino.can_move_to(
        matrix,
        Direction::Right,
    ) && !tetrimino.can_move_to(matrix, Direction::Up)
}

impl PlayerInfos {
    pub open spec fn wf(&self) -> bool {
        self.player.wf()
    }

    /// A player at the start of a match, at the millisecond `now`.
    pub fn new(player: PlayerGame, now: u64) -> (r: Self)
        ensures
            r@ == (PlayerInfosView {
                board: player@,
                last_call: now,
                garbage_received: 0,
                dead: false,
            }),
    {
        Self { player, last_call: now, garbage_received: 0, dead: false }
    }

    /// Whether the player's fall timer has run out.
    pub fn is_due(&self, now: u64, call_every: u64) -> (r: bool)
        ensures
            r == due(self@, now, call_every),
    {
        !self.dead && now >= self.last_call && now - self.last_call >= call_every
    }

    /// Locks the active piece where it stands and reports the lock.
    fn lock_current(&mut self) -> (report: LockReport)
        requires
            old(self).wf(),
            old(self)@.board.current is Some,
        ensures
            final(self).wf(),
            final(self)@ == (PlayerInfosView { board: old(self)@.board.locked(), ..old(self)@ }),
            report == lock_report(old(self)@.board),
    {
        let spin = match self.player.current_tetrimino() {
            Some(tetrimino) => is_immobile(&tetrimino, self.player.matrix()),
            None => false,
        };
        proof {
            lemma_full_rows_below(self.player@.stamped_grid(), 32);
        }
        let lines = self.player.place_current_tetrimino();
        LockReport { rows: lines.len() as u32, spin }
    }

    /// One step of the player's board at the millisecond `now`, with
    /// `draw` as the place in the bag of the type to draw if the step
    /// spawns a piece.
    pub fn play_at(&mut self, input: Input, now: u64, draw: usize) -> (outcome: StepOutcome)
        requires
            old(self).wf(),
            input == Input::Fall && old(self)@.board.current is None ==> draw < old(
                self,
            )@.board.bag.len(),
        ensures
            final(self).wf(),
            final(self)@ == played(old(self)@, input, now, draw as int),
            outcome == outcome_of(old(self)@, input, draw as int),
    {
        match input {
            Input::Fall => {
                match self.player.current_tetrimino() {
                    Some(tetrimino) => {
                        let lock = if tetrimino.can_move_to(self.player.matrix(), Direction::Down) {
                            let _ = apply_action(&mut self.player, GameAction::Fall);
                            None
                        } else {
                            Some(self.lock_current())
                        };
                        self.last_call = now;
                        StepOutcome { reply: Some(GameAction::Fall), died: false, lock }
                    },
                    None => {
                        let added_tetrimino = self.player.new_tetrimino_at(draw);
                        let died = match self.player.current_tetrimino() {
                            Some(tetrimino) => !tetrimino.is_valid(self.player.matrix()),
                            None => false,
                        };
                        if died {
                            self.dead = true;
                        }
                        self.last_call = now;
                        StepOutcome {
                            reply: if died {
                                None
                            } else {
                                Some(GameAction::NewTetrimino(added_tetrimino))
                            },
                            died,
                            lock: None,
                        }
                    },
                }
            },
            Input::FastMove => {
                if self.player.current_tetrimino().is_some() {
                    drop_current_tetrimino(&mut self.player);
                    let report = self.lock_current();
                    self.last_call = now;
                    StepOutcome {
                        reply: Some(input_to_action(input)),
                        died: false,
                        lock: Some(report),
                    }
                } else {
                    StepOutcome { reply: None, died: false, lock: None }
                }
            },
            _ => {
                let action = input_to_action(input);
                let result = apply_action(&mut self.player, action);
                match result {
                    Ok(_) => {
                        self.last_call = now;
                        StepOutcome { reply: Some(action), died: false, lock: None }
                    },
                    Err(ApplyActionError::InvalidActionResetTimer) => {
                        self.last_call = now;
                        StepOutcome { reply: None, died: false, lock: None }
                    },
                    Err(ApplyActionError::InvalidActionNoResetTimer) => StepOutcome {
                        reply: None,
                        died: false,
                        lock: None,
                    },
                }
            },
        }
    }
}

/// A lock never reports more rows than the grid has.
pub proof fn lemma_lock_report_rows(s: BoardState)
    ensures
        lock_report(s).rows <= 32,
        lock_report(s).rows == s.locked_lines().len(),
{
    lemma_full_rows_below(s.stamped_grid(), 32);
}

/// A member of a pool: the number that stands for the player's connection,
/// and the player.
pub struct Seat {
    pub id: u64,
    pub infos: PlayerInfos,
}

pub struct SeatView {
    pub id: u64,
    pub infos: PlayerInfosView,
}

impl View for Seat {
    type V = SeatView;

    open spec fn view(&self) -> SeatView {
        SeatView { id: self.id, infos: self.infos@ }
    }
}

/// To whom a message of the pool goes.
#[derive(Debug, PartialEq, Eq, Structural, Clone, Copy)]
pub enum Recipient {
    /// The player with this connection.
    Player(u64),
    /// Every member of the pool.
    Pool,
}

/// A message that the pool wants sent.
#[derive(Debug, Clone, PartialEq)]
pub struct Outgoing {
    pub to: Recipient,
    pub request: ServerRequest,
}

pub struct OutgoingView {
    pub to: Recipient,
    pub request: ServerMessage,
}

impl View for Outgoing {
    type V = OutgoingView;

    open spec fn view(&self) -> OutgoingView {
        OutgoingView { to: self.to, request: self.request@ }
    }
}

/// The messages as contracts see them.
pub open spec fn outgoing_view(out: Seq<Outgoing>) -> Seq<OutgoingView> {
    Seq::new(out.len(), |i: int| out[i]@)
}

/// A lock that waits for its garbage to be routed.
#[derive(Debug, PartialEq, Eq, Structural, Clone, Copy)]
pub struct LockEvent {
    pub sender: u64,
    pub report: LockReport,
}

/// How many garbage rows a lock sends: one for two rows removed, two for
/// three, four for four; and twice the rows removed where the piece was
/// immobile.
pub open spec fn garbage_quantity(row_broken: nat, is_t_spin: bool) -> nat {
    if is_t_spin {
        2 * row_broken
    } else if row_broken == 2 {
        1
    } else if row_broken == 3 {
        2
    } else if row_broken == 4 {
        4
    } else {
        0
    }
}

/// The sum of two counts, or the end of the range where the sum lies beyond.
pub open spec fn saturating_sum(a: u32, b: u32) -> u32 {
    if a + b > u32::MAX {
        u32::MAX
    } else {
        (a + b) as u32
    }
}

/// A pool as contracts see it: its members in the order in which they
/// joined, and the fall interval in milliseconds.
pub struct PoolView {
    pub members: Seq<SeatView>,
    pub call_every: u64,
}

/// The pool and the messages after the members had their fall ticks, with
/// the locks that wait for their garbage to be routed.
pub struct TickPhase {
    pub pool: PoolView,
    pub out: Seq<OutgoingView>,
    pub locks: Seq<LockEvent>,
}

/// The pool and the messages after garbage was routed.
pub struct RoutePhase {
    pub pool: PoolView,
    pub out: Seq<OutgoingView>,
}

impl PoolView {
    /// No two members have the same connection, and every board is a board.
    pub open spec fn wf(self) -> bool {
        &&& forall|i: int, j: int|
            0 <= i < j < self.members.len() ==> self.members[i].id != self.members[j].id
        &&& forall|i: int|
            0 <= i < self.members.len() ==> (#[trigger] self.members[i]).infos.board.wf()
    }

    /// The place of the member with connection `id`.
    pub open spec fn index_of(self, id: u64) -> Option<int> {
        if exists|i: int| 0 <= i < self.members.len() && self.members[i].id == id {
            Some(choose|i: int| 0 <= i < self.members.len() && self.members[i].id == id)
        } else {
            None
        }
    }

    /// The pool without the member with connection `id`.
    pub open spec fn without(self, id: u64) -> PoolView {
        match self.index_of(id) {
            Some(i) => PoolView { members: self.members.remove(i), ..self },
            None => self,
        }
    }

    /// The names of the members and who of them has lost.
    pub open spec fn roster(self) -> Seq<MinimalInfos> {
        Seq::new(
            self.members.len(),
            |i: int|
                MinimalInfos {
                    name: self.members[i].infos.board.name,
                    dead: self.members[i].infos.dead,
                },
        )
    }

    /// Member `i` can take garbage from `sender`: it is another player, and
    /// one who has not lost.
    pub open spec fn eligible(self, i: int, sender: u64) -> bool {
        self.members[i].id != sender && !self.members[i].infos.dead
    }

    /// Who among the first `n` members takes garbage from `sender`: of those
    /// who can, the one who has received the least, and of several such the
    /// one who joined first.
    pub open spec fn best_receiver(self, sender: u64, n: nat) -> Option<int>
        decreases n,
    {
        if n == 0 {
            None
        } else {
            let best = self.best_receiver(sender, (n - 1) as nat);
            if self.eligible(n - 1, sender) && (best matches Some(b) ==> self.members[b].infos.garbage_received
                > self.members[n - 1].infos.garbage_received) {
                Some(n - 1)
            } else {
                best
            }
        }
    }

    /// Who among the members takes garbage from `sender`.
    pub open spec fn receiver(self, sender: u64) -> Option<int> {
        self.best_receiver(sender, self.members.len())
    }

    /// The pool with member `i` replaced.
    pub open spec fn with_member(self, i: int, infos: PlayerInfosView) -> PoolView {
        PoolView {
            members: self.members.update(i, SeatView { id: self.members[i].id, infos }),
            ..self
        }
    }

    /// The pool after member `i` took `amount` garbage rows with their hole
    /// in column `hole`.
    pub open spec fn delivered(self, i: int, amount: u32, hole: int) -> PoolView {
        let v = self.members[i].infos;
        self.with_member(
            i,
            PlayerInfosView {
                board: v.board.with_garbage_rows(hole, amount as nat),
                garbage_received: saturating_sum(v.garbage_received, amount),
                ..v
            },
        )
    }

    /// The pool after the garbage of a lock was routed. Garbage that finds
    /// no receiver is lost.
    pub open spec fn garbage_sent(self, sender: u64, report: LockReport, hole: int) -> PoolView {
        let amount = garbage_quantity(report.rows as nat, report.spin);
        match self.receiver(sender) {
            Some(i) => if amount == 0 {
                self
            } else {
                self.delivered(i, amount as u32, hole)
            },
            None => self,
        }
    }

    /// The message that tells the receiver of its garbage.
    pub open spec fn garbage_message(self, sender: u64, report: LockReport, hole: int) -> Seq<
        OutgoingView,
    > {
        let amount = garbage_quantity(report.rows as nat, report.spin);
        match self.receiver(sender) {
            Some(i) => if amount == 0 {
                Seq::empty()
            } else {
                seq![
                    OutgoingView {
                        to: Recipient::Player(self.members[i].id),
                        request: ServerMessage::MinifiedAction(
                            GameAction::GetGarbage(amount as u32, hole as usize),
                        ),
                    },
                ]
            },
            None => Seq::empty(),
        }
    }

    /// The pool after a step of member `i`.
    pub open spec fn after_step(self, i: int, input: Input, now: u64, draw: int) -> PoolView {
        self.with_member(i, played(self.members[i].infos, input, now, draw))
    }

    /// The messages that a step of member `i` has sent: the action applied
    /// to the player, and, where the player lost, the notice to the player
    /// and the new roster to the pool.
    pub open spec fn step_messages(self, i: int, input: Input, now: u64, draw: int) -> Seq<
        OutgoingView,
    > {
        let outcome = outcome_of(self.members[i].infos, input, draw);
        let to = Recipient::Player(self.members[i].id);
        let reply = match outcome.reply {
            Some(action) => seq![
                OutgoingView { to, request: ServerMessage::MinifiedAction(action) },
            ],
            None => Seq::empty(),
        };
        if outcome.died {
            reply + seq![
                OutgoingView { to, request: ServerMessage::GameOver },
                OutgoingView {
                    to: Recipient::Pool,
                    request: ServerMessage::PlayerListUpdate(
                        self.after_step(i, input, now, draw).roster(),
                    ),
                },
            ]
        } else {
            reply
        }
    }

    /// The fall ticks of an update: member after member, in the order in
    /// which they joined, each member whose timer has run out takes a fall
    /// tick. `draws` holds for each member the place in the bag of the type
    /// drawn if the tick spawns a piece.
    pub open spec fn ticked(self, now: u64, draws: Seq<int>) -> TickPhase
        decreases draws.len(),
    {
        if draws.len() == 0 {
            TickPhase { pool: self, out: Seq::empty(), locks: Seq::empty() }
        } else {
            let before = self.ticked(now, draws.drop_last());
            let i = draws.len() - 1;
            let seat = before.pool.members[i];
            if due(seat.infos, now, self.call_every) {
                TickPhase {
                    pool: before.pool.after_step(i, Input::Fall, now, draws.last()),
                    out: before.out + before.pool.step_messages(i, Input::Fall, now, draws.last()),
                    locks: match outcome_of(seat.infos, Input::Fall, draws.last()).lock {
                        Some(report) => before.locks.push(LockEvent { sender: seat.id, report }),
                        None => before.locks,
                    },
                }
            } else {
                before
            }
        }
    }

    /// The routing of an update: lock after lock, in the order in which
    /// they happened, the garbage of each goes to its receiver. `holes`
    /// holds for each lock the column of the hole of its garbage rows.
    pub open spec fn routed(self, locks: Seq<LockEvent>, holes: Seq<int>) -> RoutePhase
        decreases holes.len(),
    {
        if holes.len() == 0 {
            RoutePhase { pool: self, out: Seq::empty() }
        } else {
            let before = self.routed(locks, holes.drop_last());
            let event = locks[holes.len() - 1];
            RoutePhase {
                pool: before.pool.garbage_sent(event.sender, event.report, holes.last()),
                out: before.out + before.pool.garbage_message(
                    event.sender,
                    event.report,
                    holes.last(),
                ),
            }
        }
    }

    /// An update: the fall ticks, and then the routing of the garbage of
    /// the locks that the ticks made.
    pub open spec fn updated(self, now: u64, draws: Seq<int>, holes: Seq<int>) -> RoutePhase {
        let ticks = self.ticked(now, draws);
        let routes = ticks.pool.routed(ticks.locks, holes);
        RoutePhase { pool: routes.pool, out: ticks.out + routes.out }
    }

    /// What a player's input leads to: nothing for a player who is no
    /// member or has lost, and else a step of the player followed by the
    /// routing of the garbage of a lock that the step made.
    pub open spec fn input_handled(
        self,
        id: u64,
        input: Input,
        now: u64,
        draw: int,
        hole: int,
    ) -> RoutePhase {
        match self.index_of(id) {
            Some(i) => if self.members[i].infos.dead {
                RoutePhase { pool: self, out: Seq::empty() }
            } else {
                let stepped = self.after_step(i, input, now, draw);
                let out = self.step_messages(i, input, now, draw);
                match outcome_of(self.members[i].infos, input, draw).lock {
                    Some(report) => RoutePhase {
                        pool: stepped.garbage_sent(id, report, hole),
                        out: out + stepped.garbage_message(id, report, hole),
                    },
                    None => RoutePhase { pool: stepped, out },
                }
            },
            None => RoutePhase { pool: self, out: Seq::empty() },
        }
    }
}

/// The receiver of garbage can take it, has received no more than any other
/// member who can, and joined before every other member who can and has
/// received as little. There is a receiver if any member can take it.
pub proof fn lemma_best_receiver(v: PoolView, sender: u64, n: nat)
    requires
        n <= v.members.len(),
    ensures
        v.best_receiver(sender, n) matches Some(r) ==> {
            &&& 0 <= r < n
            &&& v.eligible(r, sender)
            &&& forall|j: int|
                0 <= j < n && v.eligible(j, sender) ==> v.members[r].infos.garbage_received
                    <= (#[trigger] v.members[j]).infos.garbage_received
            &&& forall|j: int|
                0 <= j < r && v.eligible(j, sender) ==> v.members[r].infos.garbage_received
                    < (#[trigger] v.members[j]).infos.garbage_received
        },
        v.best_receiver(sender, n) is None ==> forall|j: int|
            0 <= j < n ==> !v.eligible(j, sender),
    decreases n,
{
    if n > 0 {
        lemma_best_receiver(v, sender, (n - 1) as nat);
    }
}

/// Routing garbage changes no member but the receiver, who is neither the
/// sender nor a player who has lost; it changes neither who the members are
/// nor who of them has lost.
pub proof fn lemma_garbage_sent(v: PoolView, sender: u64, report: LockReport, hole: int)
    ensures
        same_members(v, v.garbage_sent(sender, report, hole)),
        forall|j: int|
            0 <= j < v.members.len() && !v.eligible(j, sender) ==> (#[trigger] v.garbage_sent(
                sender,
                report,
                hole,
            ).members[j]) == v.members[j],
{
    lemma_best_receiver(v, sender, v.members.len());
}

/// Two pools have the same members in the same order, of whom the same
/// have lost, and the same fall interval.
pub open spec fn same_members(a: PoolView, b: PoolView) -> bool {
    &&& a.members.len() == b.members.len()
    &&& a.call_every == b.call_every
    &&& forall|j: int|
        0 <= j < a.members.len() ==> (#[trigger] b.members[j]).id == a.members[j].id
            && b.members[j].infos.dead == a.members[j].infos.dead
}

/// Two pools have the same members in the same order and the same fall
/// interval; a player who had lost in the first is unchanged in the second.
pub open spec fn carries_on(a: PoolView, b: PoolView) -> bool {
    &&& a.members.len() == b.members.len()
    &&& a.call_every == b.call_every
    &&& forall|j: int| 0 <= j < a.members.len() ==> (#[trigger] b.members[j]).id == a.members[j].id
    &&& forall|j: int|
        0 <= j < a.members.len() && a.members[j].infos.dead ==> (#[trigger] b.members[j])
            == a.members[j]
}

/// How many garbage rows a lock sends.
pub fn garbage_amount(row_broken: u32, is_t_spin: bool) -> (r: u32)
    requires
        is_t_spin ==> 2 * row_broken <= u32::MAX,
    ensures
        r == garbage_quantity(row_broken as nat, is_t_spin),
{
    match (is_t_spin, row_broken) {
        (false, 2) => 1,
        (false, 3) => 2,
        (false, 4) => 4,
        (true, x) => 2 * x,
        (_, _) => 0,
    }
}

fn push_message(out: &mut Vec<Outgoing>, to: Recipient, request: ServerRequest)
    ensures
        outgoing_view(final(out)@) == outgoing_view(old(out)@).push(
            OutgoingView { to, request: request@ },
        ),
{
    out.push(Outgoing { to, request });
    assert(outgoing_view(out@) =~= outgoing_view(old(out)@).push(
        OutgoingView { to, request: request@ },
    ));
}

/// A board at the start of a match.
pub open spec fn fresh_board(s: BoardState, name: Seq<char>) -> bool {
    &&& s.wf()
    &&& s.name == name
    &&& s.grid == empty_grid()
    &&& s.current is None
    &&& s.stocked == TetriminoType::Empty
    &&& s.pending.len() == 6
    &&& fresh_split(s.pending, s.bag)
}

/// A player at the start of a match.
pub open spec fn fresh_seat(seat: SeatView, id: u64, name: Seq<char>, now: u64) -> bool {
    &&& seat.id == id
    &&& fresh_board(seat.infos.board, name)
    &&& seat.infos.last_call == now
    &&& seat.infos.garbage_received == 0
    &&& !seat.infos.dead
}

/// No two of the players have the same connection.
pub open spec fn distinct_ids(members: Seq<(u64, String)>) -> bool {
    forall|i: int, j: int| 0 <= i < j < members.len() ==> members[i].0 != members[j].0
}

/// The players of one match and the interval of their fall ticks.
pub struct Pool {
    players: Vec<Seat>,
    call_every: u64,
}

impl View for Pool {
    type V = PoolView;

    closed spec fn view(&self) -> PoolView {
        PoolView {
            members: Seq::new(self.players@.len(), |i: int| self.players@[i]@),
            call_every: self.call_every,
        }
    }
}

impl Pool {
    pub open spec fn wf(&self) -> bool {
        self@.wf()
    }

    /// A pool for the players given by connection and name, made at the
    /// millisecond `now`. Every player gets a fresh board and is told so
    /// with the tick interval; then the pool is told who plays.
    pub fn create(members: Vec<(u64, String)>, call_every: u16, now: u64) -> (r: (
        Pool,
        Vec<Outgoing>,
    ))
        requires
            distinct_ids(members@),
        ensures
            r.0.wf(),
            r.0@.call_every == call_every,
            r.0@.members.len() == members@.len(),
            forall|i: int|
                0 <= i < members@.len() ==> fresh_seat(
                    #[trigger] r.0@.members[i],
                    members@[i].0,
                    members@[i].1@,
                    now,
                ),
            r.1@.len() == members@.len() + 1,
            forall|i: int|
                0 <= i < members@.len() ==> (#[trigger] r.1@[i])@ == (OutgoingView {
                    to: Recipient::Player(members@[i].0),
                    request: ServerMessage::GameReady(r.0@.members[i].infos.board, call_every),
                }),
            r.1@[members@.len() as int]@ == (OutgoingView {
                to: Recipient::Pool,
                request: ServerMessage::PlayerListUpdate(r.0@.roster()),
            }),
            outgoing_view(r.1@) == creation_messages(r.0@, call_every),
    {
        let mut pool = Pool { players: Vec::new(), call_every: call_every as u64 };
        let mut out: Vec<Outgoing> = Vec::new();
        let mut i: usize = 0;
        while i < members.len()
            invariant
                i <= members@.len(),
                distinct_ids(members@),
                pool.call_every == call_every,
                pool.players@.len() == i,
                out@.len() == i,
                forall|k: int|
                    0 <= k < i ==> fresh_seat(
                        (#[trigger] pool.players@[k])@,
                        members@[k].0,
                        members@[k].1@,
                        now,
                    ),
                forall|k: int|
                    0 <= k < i ==> (#[trigger] out@[k])@ == (OutgoingView {
                        to: Recipient::Player(members@[k].0),
                        request: ServerMessage::GameReady(
                            pool.players@[k]@.infos.board,
                            call_every,
                        ),
                    }),
            decreases members@.len() - i,
        {
            let id = members[i].0;
            let player_game = PlayerGame::new(members[i].1.clone());
            out.push(
                Outgoing {
                    to: Recipient::Player(id),
                    request: ServerRequest::GameReady(player_game.clone(), call_every),
                },
            );
            pool.players.push(Seat { id, infos: PlayerInfos::new(player_game, now) });
            i += 1;
        }
        assert(pool@.wf());
        let list = pool.user_list();
        out.push(Outgoing { to: Recipient::Pool, request: ServerRequest::PlayerListUpdate(list) });
        assert(outgoing_view(out@) =~= creation_messages(pool@, call_every));
        (pool, out)
    }

    /// A pool of the members given, if no two of them have one connection.
    pub fn from_parts(players: Vec<Seat>, call_every: u64) -> (r: Option<Pool>)
        requires
            forall|i: int| 0 <= i < players@.len() ==> (#[trigger] players@[i]).infos.wf(),
        ensures
            r is Some <==> forall|i: int, j: int|
                0 <= i < j < players@.len() ==> players@[i].id != players@[j].id,
            r matches Some(pool) ==> pool.wf() && pool@.call_every == call_every
                && pool@.members == Seq::new(players@.len(), |i: int| players@[i]@),
    {
        let n = players.len();
        let mut j: usize = 0;
        while j < n
            invariant
                n == players@.len(),
                j <= n,
                forall|a: int, b: int| 0 <= a < b < j ==> players@[a].id != players@[b].id,
            decreases n - j,
        {
            let mut i: usize = 0;
            while i < j
                invariant
                    n == players@.len(),
                    j < n,
                    i <= j,
                    forall|a: int| 0 <= a < i ==> players@[a].id != players@[j as int].id,
                decreases j - i,
            {
                if players[i].id == players[j].id {
                    return None;
                }
                i += 1;
            }
            j += 1;
        }
        Some(Pool { players, call_every })
    }

    pub fn len(&self) -> (r: usize)
        ensures
            r == self@.members.len(),
    {
        self.players.len()
    }

    pub fn call_every(&self) -> (r: u64)
        ensures
            r == self@.call_every,
    {
        self.call_every
    }

    /// The connections of the members, in the order in which they joined.
    pub fn members(&self) -> (r: Vec<u64>)
        ensures
            r@.len() == self@.members.len(),
            forall|i: int| 0 <= i < r@.len() ==> r@[i] == (#[trigger] self@.members[i]).id,
    {
        let mut r: Vec<u64> = Vec::new();
        let mut i: usize = 0;
        while i < self.players.len()
            invariant
                i <= self.players@.len(),
                r@.len() == i,
                forall|k: int| 0 <= k < i ==> r@[k] == (#[trigger] self@.members[k]).id,
            decreases self.players@.len() - i,
        {
            r.push(self.players[i].id);
            i += 1;
        }
        r
    }

    /// The member with connection `id`.
    pub fn player(&self, id: u64) -> (r: Option<&PlayerInfos>)
        requires
            self.wf(),
        ensures
            match r {
                Some(infos) => self@.index_of(id) matches Some(i) && infos@
                    == self@.members[i].infos,
                None => self@.index_of(id) is None,
            },
    {
        match self.find(id) {
            Some(i) => Some(&self.players[i].infos),
            None => None,
        }
    }

    fn find(&self, id: u64) -> (r: Option<usize>)
        requires
            self.wf(),
        ensures
            match r {
                Some(i) => i < self@.members.len() && self@.index_of(id) == Some(i as int),
                None => self@.index_of(id) is None,
            },
    {
        let mut i: usize = 0;
        while i < self.players.len()
            invariant
                self.wf(),
                i <= self.players@.len(),
                forall|k: int| 0 <= k < i ==> self@.members[k].id != id,
            decreases self.players@.len() - i,
        {
            if self.players[i].id == id {
                proof {
                    assert(self@.members[i as int].id == id);
                    let j = choose|j: int| 0 <= j < self@.members.len() && self@.members[j].id == id;
                    if j < i {
                        assert(self@.members[j].id != self@.members[i as int].id);
                    } else if i < j {
                        assert(self@.members[i as int].id != self@.members[j].id);
                    }
                }
                return Some(i);
            }
            i += 1;
        }
        None
    }

    /// Takes the member with connection `id` out of the pool.
    pub fn remove_user(&mut self, id: u64)
        requires
            old(self).wf(),
        ensures
            final(self).wf(),
            final(self)@ == old(self)@.without(id),
    {
        match self.find(id) {
            Some(i) => {
                let _ = self.players.remove(i);
                assert(self@.members =~= old(self)@.members.remove(i as int));
            },
            None => {},
        }
    }

    /// The names of the members and who of them has lost.
    pub fn user_list(&self) -> (r: Vec<PlayerMinimalInfos>)
        ensures
            roster_view(r@) == self@.roster(),
    {
        let mut r: Vec<PlayerMinimalInfos> = Vec::new();
        let mut i: usize = 0;
        while i < self.players.len()
            invariant
                i <= self.players@.len(),
                r@.len() == i,
                forall|k: int| 0 <= k < i ==> (#[trigger] r@[k])@ == self@.roster()[k],
            decreases self.players@.len() - i,
        {
            r.push(
                PlayerMinimalInfos {
                    name: self.players[i].infos.player.name().to_owned(),
                    dead: self.players[i].infos.dead,
                },
            );
            i += 1;
        }
        assert(roster_view(r@) =~= self@.roster());
        r
    }

    fn receiver_index(&self, sender: u64) -> (r: Option<usize>)
        ensures
            match r {
                Some(i) => self@.receiver(sender) == Some(i as int) && i < self@.members.len(),
                None => self@.receiver(sender) is None,
            },
    {
        let mut receiver: Option<usize> = None;
        let mut last_receiver_garbage: u32 = 0;
        let mut i: usize = 0;
        while i < self.players.len()
            invariant
                i <= self.players@.len(),
                match receiver {
                    Some(b) => self@.best_receiver(sender, i as nat) == Some(b as int) && b < i
                        && last_receiver_garbage == self@.members[b as int].infos.garbage_received,
                    None => self@.best_receiver(sender, i as nat) is None,
                },
            decreases self.players@.len() - i,
        {
            let seat = &self.players[i];
            if !(seat.id == sender || seat.infos.dead) {
                if receiver.is_none() || last_receiver_garbage > seat.infos.garbage_received {
                    receiver = Some(i);
                    last_receiver_garbage = seat.infos.garbage_received;
                }
            }
            i += 1;
        }
        receiver
    }

    /// Who takes garbage from `sender`: of the other members who have not
    /// lost, the one who has received the least, and of several such the
    /// one who joined first.
    pub fn choose_receiver(&self, sender: u64) -> (r: Option<u64>)
        ensures
            r == (match self@.receiver(sender) {
                Some(i) => Some(self@.members[i].id),
                None => None,
            }),
    {
        match self.receiver_index(sender) {
            Some(i) => Some(self.players[i].id),
            None => None,
        }
    }

    /// Gives member `i` garbage rows with their hole in column `hole`.
    fn deliver_garbage(&mut self, i: usize, amount: u32, hole: usize)
        requires
            old(self).wf(),
            i < old(self)@.members.len(),
        ensures
            final(self).wf(),
            final(self)@ == old(self)@.delivered(i as int, amount, hole as int),
    {
        assert(self@.members[i as int].infos.board.wf());
        let received = self.players[i].infos.garbage_received;
        self.players[i].infos.garbage_received = received.saturating_add(amount);
        let _ = apply_action(
            &mut self.players[i].infos.player,
            GameAction::GetGarbage(amount, hole),
        );
        assert(self@.members =~= old(self)@.delivered(i as int, amount, hole as int).members);
    }

    /// Routes the garbage of a lock, with the hole of the rows in column
    /// `hole`. Returns the message for the receiver, if there is one.
    pub fn send_garbage_at(&mut self, sender: u64, report: LockReport, hole: usize) -> (r: Option<
        Outgoing,
    >)
        requires
            old(self).wf(),
            report.spin ==> 2 * report.rows <= u32::MAX,
        ensures
            final(self).wf(),
            final(self)@ == old(self)@.garbage_sent(sender, report, hole as int),
            match r {
                Some(message) => old(self)@.garbage_message(sender, report, hole as int)
                    == seq![message@],
                None => old(self)@.garbage_message(sender, report, hole as int).len() == 0,
            },
    {
        let garbage_to_send = garbage_amount(report.rows, report.spin);
        if garbage_to_send == 0 {
            return None;
        }
        match self.receiver_index(sender) {
            Some(i) => {
                let to = Recipient::Player(self.players[i].id);
                self.deliver_garbage(i, garbage_to_send, hole);
                Some(
                    Outgoing {
                        to,
                        request: ServerRequest::MinifiedAction(
                            GameAction::GetGarbage(garbage_to_send, hole),
                        ),
                    },
                )
            },
            None => None,
        }
    }

    /// Routes the garbage of a lock that removed `row_broken` rows; the
    /// hole of the rows is a column drawn at random.
    pub fn send_garbage(&mut self, sender: u64, row_broken: u32, is_t_spin: bool) -> (r: Option<
        Outgoing,
    >)
        requires
            old(self).wf(),
            is_t_spin ==> 2 * row_broken <= u32::MAX,
        ensures
            final(self).wf(),
            exists|hole: int|
                {
                    &&& 0 <= hole < 10
                    &&& final(self)@ == #[trigger] old(self)@.garbage_sent(
                        sender,
                        LockReport { rows: row_broken, spin: is_t_spin },
                        hole,
                    )
                    &&& match r {
                        Some(message) => old(self)@.garbage_message(
                            sender,
                            LockReport { rows: row_broken, spin: is_t_spin },
                            hole,
                        ) == seq![message@],
                        None => old(self)@.garbage_message(
                            sender,
                            LockReport { rows: row_broken, spin: is_t_spin },
                            hole,
                        ).len() == 0,
                    }
                },
    {
        let hole_position = random_below(10);
        self.send_garbage_at(
            sender,
            LockReport { rows: row_broken, spin: is_t_spin },
            hole_position,
        )
    }
}

/// The messages that tell the members of a new pool that their match
/// starts: to each member the member's board and the tick interval, and
/// to the pool who plays.
pub open spec fn creation_messages(pool: PoolView, call_every: u16) -> Seq<OutgoingView> {
    Seq::new(
        pool.members.len() + 1,
        |i: int|
            if i < pool.members.len() {
                OutgoingView {
                    to: Recipient::Player(pool.members[i].id),
                    request: ServerMessage::GameReady(pool.members[i].infos.board, call_every),
                }
            } else {
                OutgoingView {
                    to: Recipient::Pool,
                    request: ServerMessage::PlayerListUpdate(pool.roster()),
                }
            },
    )
}

/// An update led from `before` to `after` and sent `out`, with `draws` as
/// the places drawn from the bags and `holes` as the columns drawn for the
/// garbage.
pub open spec fn update_outcome(
    before: PoolView,
    now: u64,
    after: PoolView,
    out: Seq<OutgoingView>,
    draws: Seq<int>,
    holes: Seq<int>,
) -> bool {
    &&& draws.len() == before.members.len()
    &&& forall|i: int|
        0 <= i < draws.len() ==> 0 <= #[trigger] draws[i]
            < before.members[i].infos.board.bag.len()
    &&& holes.len() == before.ticked(now, draws).locks.len()
    &&& forall|k: int| 0 <= k < holes.len() ==> 0 <= #[trigger] holes[k] < 10
    &&& after == before.updated(now, draws, holes).pool
    &&& out == before.updated(now, draws, holes).out
}

/// A player's input led from `before` to `after` and sent `out`, with
/// `draw` as the place drawn from the player's bag and `hole` as the column
/// drawn for the garbage.
pub open spec fn input_outcome(
    before: PoolView,
    id: u64,
    input: Input,
    now: u64,
    after: PoolView,
    out: Seq<OutgoingView>,
    draw: int,
    hole: int,
) -> bool {
    &&& 0 <= hole < 10
    &&& before.index_of(id) matches Some(i) ==> 0 <= draw
        < before.members[i].infos.board.bag.len()
    &&& after == before.input_handled(id, input, now, draw, hole).pool
    &&& out == before.input_handled(id, input, now, draw, hole).out
}

pub(crate) fn push_outgoing(out: &mut Vec<Outgoing>, message: Outgoing)
    ensures
        outgoing_view(final(out)@) == outgoing_view(old(out)@).push(message@),
{
    out.push(message);
    assert(outgoing_view(out@) =~= outgoing_view(old(out)@).push(message@));
}

impl Pool {
    /// One step of member `i`. The messages that the step sends are added
    /// to `out`; a lock that the step made is returned.
    fn step_member(
        &mut self,
        i: usize,
        input: Input,
        now: u64,
        draw: usize,
        out: &mut Vec<Outgoing>,
    ) -> (lock: Option<LockReport>)
        requires
            old(self).wf(),
            i < old(self)@.members.len(),
            draw < old(self)@.members[i as int].infos.board.bag.len(),
        ensures
            final(self).wf(),
            final(self)@ == old(self)@.after_step(i as int, input, now, draw as int),
            outgoing_view(final(out)@) == outgoing_view(old(out)@) + old(self)@.step_messages(
                i as int,
                input,
                now,
                draw as int,
            ),
            lock == outcome_of(old(self)@.members[i as int].infos, input, draw as int).lock,
            lock matches Some(report) ==> report.rows <= 32,
    {
        proof {
            assert(self@.members[i as int].infos.board.wf());
            lemma_lock_report_rows(self@.members[i as int].infos.board);
            lemma_lock_report_rows(dropped(self@.members[i as int].infos.board));
        }
        let id = self.players[i].id;
        let outcome = self.players[i].infos.play_at(input, now, draw);
        proof {
            assert(self@.members =~= old(self)@.after_step(
                i as int,
                input,
                now,
                draw as int,
            ).members);
            assert(outgoing_view(out@) + Seq::<OutgoingView>::empty() =~= outgoing_view(out@));
        }
        let ghost sent = outgoing_view(out@);
        match outcome.reply {
            Some(action) => {
                push_message(out, Recipient::Player(id), ServerRequest::MinifiedAction(action));
            },
            None => {},
        }
        if outcome.died {
            push_message(out, Recipient::Player(id), ServerRequest::GameOver);
            let list = self.user_list();
            push_message(out, Recipient::Pool, ServerRequest::PlayerListUpdate(list));
        }
        proof {
            assert(outgoing_view(out@) =~= sent + old(self)@.step_messages(
                i as int,
                input,
                now,
                draw as int,
            ));
        }
        outcome.lock
    }

    /// One round of the scheduler at the millisecond `now`. Every member
    /// whose fall timer has run out takes a fall tick: the piece falls or
    /// locks, or the next piece spawns where none is active, and a member
    /// whose spawned piece cannot stand has lost. Then the garbage of the
    /// locks is routed. Returns the messages to send, in their order.
    pub fn update(&mut self, now: u64) -> (out: Vec<Outgoing>)
        requires
            old(self).wf(),
        ensures
            final(self).wf(),
            carries_on(old(self)@, final(self)@),
            exists|draws: Seq<int>, holes: Seq<int>|
                update_outcome(old(self)@, now, final(self)@, outgoing_view(out@), draws, holes),
    {
        let ghost start = self@;
        let ghost mut draws: Seq<int> = Seq::empty();
        let mut out: Vec<Outgoing> = Vec::new();
        let mut locks: Vec<LockEvent> = Vec::new();
        let n = self.players.len();
        let mut i: usize = 0;
        proof {
            assert(outgoing_view(out@) =~= Seq::empty());
        }
        while i < n
            invariant
                i <= n,
                n == start.members.len(),
                self.wf(),
                self@.members.len() == n,
                self@.call_every == start.call_every,
                draws.len() == i,
                forall|k: int|
                    0 <= k < i ==> 0 <= #[trigger] draws[k]
                        < start.members[k].infos.board.bag.len(),
                forall|j: int| i <= j < n ==> #[trigger] self@.members[j] == start.members[j],
                carries_on(start, self@),
                self@ == start.ticked(now, draws).pool,
                outgoing_view(out@) == start.ticked(now, draws).out,
                locks@ == start.ticked(now, draws).locks,
                forall|k: int| 0 <= k < locks@.len() ==> (#[trigger] locks@[k]).report.rows <= 32,
            decreases n - i,
        {
            let ghost before_draws = draws;
            let ghost before = self@;
            let ghost before_out = outgoing_view(out@);
            let mut draw: usize = 0;
            assert(self@.members[i as int].infos.board.wf());
            if self.players[i].infos.is_due(now, self.call_every) {
                if self.players[i].infos.player.current_tetrimino().is_none() {
                    draw = random_below(self.players[i].infos.player.bag().len());
                }
                let id = self.players[i].id;
                let lock = self.step_member(i, Input::Fall, now, draw, &mut out);
                match lock {
                    Some(report) => {
                        locks.push(LockEvent { sender: id, report });
                    },
                    None => {},
                }
            }
            proof {
                draws = draws.push(draw as int);
                assert(draws.drop_last() =~= before_draws);
                assert(before.members[i as int] == start.members[i as int]);
            }
            i += 1;
        }
        let ghost ticks = start.ticked(now, draws);
        let ghost mut holes: Seq<int> = Seq::empty();
        let mut k: usize = 0;
        proof {
            assert(ticks.out + Seq::<OutgoingView>::empty() =~= ticks.out);
        }
        while k < locks.len()
            invariant
                k <= locks@.len(),
                self.wf(),
                holes.len() == k,
                forall|h: int| 0 <= h < holes.len() ==> 0 <= #[trigger] holes[h] < 10,
                forall|h: int| 0 <= h < locks@.len() ==> (#[trigger] locks@[h]).report.rows <= 32,
                carries_on(start, self@),
                self@ == ticks.pool.routed(locks@, holes).pool,
                outgoing_view(out@) == ticks.out + ticks.pool.routed(locks@, holes).out,
            decreases locks@.len() - k,
        {
            let ghost before_holes = holes;
            let ghost before = self@;
            let ghost before_out = outgoing_view(out@);
            let event = locks[k];
            let hole = random_below(10);
            proof {
                lemma_garbage_sent(before, event.sender, event.report, hole as int);
            }
            let message = self.send_garbage_at(event.sender, event.report, hole);
            match message {
                Some(message) => {
                    push_outgoing(&mut out, message);
                },
                None => {},
            }
            proof {
                holes = holes.push(hole as int);
                assert(holes.drop_last() =~= before_holes);
                let sent = before.garbage_message(event.sender, event.report, hole as int);
                assert(outgoing_view(out@) =~= before_out + sent);
                assert(before_out + sent =~= ticks.out + (ticks.pool.routed(
                    locks@,
                    before_holes,
                ).out + sent));
            }
            k += 1;
        }
        proof {
            assert(update_outcome(start, now, self@, outgoing_view(out@), draws, holes));
        }
        out
    }

    /// What a player asks for, at the millisecond `now`. Nothing happens
    /// for a player who is no member or has lost. Any other player takes
    /// the step that the input asks for, and the garbage of a lock that the
    /// step made is routed. Returns the messages to send, in their order.
    pub fn handle_player_input(&mut self, id: u64, input: Input, now: u64) -> (out: Vec<Outgoing>)
        requires
            old(self).wf(),
        ensures
            final(self).wf(),
            carries_on(old(self)@, final(self)@),
            exists|draw: int, hole: int|
                input_outcome(
                    old(self)@,
                    id,
                    input,
                    now,
                    final(self)@,
                    outgoing_view(out@),
                    draw,
                    hole,
                ),
    {
        let mut out: Vec<Outgoing> = Vec::new();
        proof {
            assert(outgoing_view(out@) =~= Seq::empty());
        }
        match self.find(id) {
            Some(i) => {
                assert(self@.members[i as int].infos.board.wf());
                if self.players[i].infos.dead {
                    assert(input_outcome(old(self)@, id, input, now, self@, outgoing_view(out@), 0, 0));
                    return out;
                }
                let mut draw: usize = 0;
                let spawns = match input {
                    Input::Fall => self.players[i].infos.player.current_tetrimino().is_none(),
                    _ => false,
                };
                if spawns {
                    draw = random_below(self.players[i].infos.player.bag().len());
                }
                let lock = self.step_member(i, input, now, draw, &mut out);
                let ghost stepped = self@;
                let ghost stepped_out = outgoing_view(out@);
                let mut hole: usize = 0;
                match lock {
                    Some(report) => {
                        hole = random_below(10);
                        proof {
                            lemma_garbage_sent(stepped, id, report, hole as int);
                        }
                        let message = self.send_garbage_at(id, report, hole);
                        match message {
                            Some(message) => {
                                push_outgoing(&mut out, message);
                            },
                            None => {},
                        }
                        proof {
                            assert(outgoing_view(out@) =~= stepped_out + stepped.garbage_message(
                                id,
                                report,
                                hole as int,
                            ));
                        }
                    },
                    None => {},
                }
                proof {
                    assert(outgoing_view(Seq::<Outgoing>::empty()) + old(self)@.step_messages(
                        i as int,
                        input,
                        now,
                        draw as int,
                    ) =~= old(self)@.step_messages(i as int, input, now, draw as int));
                    assert(input_outcome(
                        old(self)@,
                        id,
                        input,
                        now,
                        self@,
                        outgoing_view(out@),
                        draw as int,
                        hole as int,
                    ));
                }
                out
            },
            None => {
                assert(input_outcome(old(self)@, id, input, now, self@, outgoing_view(out@), 0, 0));
                out
            },
        }
    }
}

} // verus!
