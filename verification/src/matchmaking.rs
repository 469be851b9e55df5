use crate::game::Input;
use crate::players::{Player, PlayerView};
use crate::pools::{
    carries_on, creation_messages, fresh_seat, input_outcome, outgoing_view, push_outgoing,
    update_outcome, Outgoing, OutgoingView, Pool, PoolId, PoolState, PoolView, Recipient,
};
use crate::{ClientRequest, ServerMessage, ServerRequest};
use vstd::prelude::*;

verus! {

/// What happened on a connection.
#[derive(Debug, Clone, PartialEq)]
pub enum NetworkAction {
    OpenStream,
    Request(ClientRequest),
    CloseStream,
}

/// What happened, and on which connection. A number stands for the
/// connection's address.
#[derive(Debug, Clone, PartialEq)]
pub struct NetworkPacket {
    pub addr: u64,
    pub action: NetworkAction,
}

impl NetworkPacket {
    pub fn new(addr: u64, action: NetworkAction) -> (r: Self)
        ensures
            r.addr == addr,
            r.action == action,
    {
        Self { addr, action }
    }
}

/// A connected player.
pub struct Connection {
    pub addr: u64,
    pub player: Player,
}

pub struct ConnectionView {
    pub addr: u64,
    pub player: PlayerView,
}

impl View for Connection {
    type V = ConnectionView;

    open spec fn view(&self) -> ConnectionView {
        ConnectionView { addr: self.addr, player: self.player@ }
    }
}

/// A running match.
pub struct Room {
    pub id: PoolId,
    pub pool: Pool,
}

pub struct RoomView {
    pub id: PoolId,
    pub pool: PoolView,
}

impl View for Room {
    type V = RoomView;

    open spec fn view(&self) -> RoomView {
        RoomView { id: self.id, pool: self.pool@ }
    }
}

/// No key occurs twice.
pub open spec fn distinct(keys: Seq<u64>) -> bool {
    forall|i: int, j: int| 0 <= i < j < keys.len() ==> keys[i] != keys[j]
}

/// The place of a key among keys.
pub open spec fn index_in(keys: Seq<u64>, key: u64) -> Option<int> {
    if exists|i: int| 0 <= i < keys.len() && keys[i] == key {
        Some(choose|i: int| 0 <= i < keys.len() && keys[i] == key)
    } else {
        None
    }
}

/// Among keys of which none occurs twice a key has one place.
pub proof fn lemma_index_in(keys: Seq<u64>, i: int)
    requires
        distinct(keys),
        0 <= i < keys.len(),
    ensures
        index_in(keys, keys[i]) == Some(i),
{
    let j = choose|j: int| 0 <= j < keys.len() && keys[j] == keys[i];
    if j < i {
        assert(keys[j] != keys[i]);
    } else if i < j {
        assert(keys[i] != keys[j]);
    }
}

/// A player who has just connected.
pub open spec fn fresh_player() -> PlayerView {
    PlayerView { name: "Anonyme"@, pool: PoolState::NoPool }
}

/// The connections of the members of a pool, in their order.
pub open spec fn member_ids(pool: PoolView) -> Seq<u64> {
    Seq::new(pool.members.len(), |i: int| pool.members[i].id)
}

/// The messages with every message to the pool replaced by one message to
/// each of the members.
pub open spec fn expanded(out: Seq<OutgoingView>, members: Seq<u64>) -> Seq<OutgoingView>
    decreases out.len(),
{
    if out.len() == 0 {
        Seq::empty()
    } else {
        expanded(out.drop_last(), members) + (match out.last().to {
            Recipient::Player(_) => seq![out.last()],
            Recipient::Pool => Seq::new(
                members.len(),
                |i: int|
                    OutgoingView { to: Recipient::Player(members[i]), request: out.last().request },
            ),
        })
    }
}

/// Replaces every message to the pool by one message to each member.
pub fn expand(out: Vec<Outgoing>, members: &Vec<u64>) -> (r: Vec<Outgoing>)
    ensures
        outgoing_view(r@) == expanded(outgoing_view(out@), members@),
{
    let mut r: Vec<Outgoing> = Vec::new();
    let mut i: usize = 0;
    assert(outgoing_view(out@).take(0) =~= Seq::empty());
    assert(outgoing_view(r@) =~= Seq::empty());
    while i < out.len()
        invariant
            i <= out@.len(),
            outgoing_view(r@) == expanded(outgoing_view(out@).take(i as int), members@),
        decreases out@.len() - i,
    {
        let ghost done = outgoing_view(r@);
        let ghost prefix = outgoing_view(out@).take(i + 1);
        assert(prefix.drop_last() =~= outgoing_view(out@).take(i as int));
        assert(prefix.last() == out@[i as int]@);
        match out[i].to {
            Recipient::Player(_) => {
                push_outgoing(&mut r, Outgoing { to: out[i].to, request: out[i].request.clone() });
                assert(outgoing_view(r@) =~= done + seq![out@[i as int]@]);
            },
            Recipient::Pool => {
                let mut k: usize = 0;
                while k < members.len()
                    invariant
                        i < out@.len(),
                        out@[i as int].to == Recipient::Pool,
                        k <= members@.len(),
                        outgoing_view(r@) == done + Seq::new(
                            k as nat,
                            |m: int|
                                OutgoingView {
                                    to: Recipient::Player(members@[m]),
                                    request: out@[i as int]@.request,
                                },
                        ),
                    decreases members@.len() - k,
                {
                    let ghost before = outgoing_view(r@);
                    push_outgoing(
                        &mut r,
                        Outgoing {
                            to: Recipient::Player(members[k]),
                            request: out[i].request.clone(),
                        },
                    );
                    assert(outgoing_view(r@) =~= done + Seq::new(
                        (k + 1) as nat,
                        |m: int|
                            OutgoingView {
                                to: Recipient::Player(members@[m]),
                                request: out@[i as int]@.request,
                            },
                    ));
                    k += 1;
                }
            },
        }
        i += 1;
    }
    assert(outgoing_view(out@).take(out@.len() as int) =~= outgoing_view(out@));
    r
}

/// The server as contracts see it: who is connected, which matches run,
/// and who waits for a match, in the order in which they asked.
pub struct ServerView {
    pub players: Seq<ConnectionView>,
    pub pools: Seq<RoomView>,
    pub pending: Seq<u64>,
    /// How many players make a match.
    pub pool_size: usize,
    /// The tick interval of the matches, in milliseconds.
    pub call_every: u16,
    /// The name of the next match.
    pub next_pool: PoolId,
}

impl ServerView {
    pub open spec fn addrs(self) -> Seq<u64> {
        Seq::new(self.players.len(), |i: int| self.players[i].addr)
    }

    pub open spec fn pool_ids(self) -> Seq<u64> {
        Seq::new(self.pools.len(), |i: int| self.pools[i].id)
    }

    /// The connection `addr` is a player's who waits for a match.
    pub open spec fn waits(self, addr: u64) -> bool {
        exists|i: int|
            0 <= i < self.players.len() && (#[trigger] self.players[i]).addr == addr
                && self.players[i].player.pool == PoolState::PendingPool
    }

    /// No connection, no match and no waiting player occurs twice; every
    /// match is a pool with a name that was given out; who waits is
    /// connected and marked as waiting, and fewer wait than make a match.
    pub open spec fn wf(self) -> bool {
        &&& distinct(self.addrs())
        &&& distinct(self.pool_ids())
        &&& distinct(self.pending)
        &&& forall|k: int|
            0 <= k < self.pools.len() ==> (#[trigger] self.pools[k]).pool.wf() && self.pools[k].id
                < self.next_pool
        &&& self.pool_size >= 1
        &&& self.pending.len() < self.pool_size
        &&& forall|j: int| 0 <= j < self.pending.len() ==> self.waits(#[trigger] self.pending[j])
    }

    /// Where the player with connection `addr` stands.
    pub open spec fn state_of(self, addr: u64) -> Option<PoolState> {
        match index_in(self.addrs(), addr) {
            Some(i) => Some(self.players[i].player.pool),
            None => None,
        }
    }

    /// The name of the player with connection `addr`.
    pub open spec fn name_of(self, addr: u64) -> Seq<char> {
        match index_in(self.addrs(), addr) {
            Some(i) => self.players[i].player.name,
            None => "Anonyme"@,
        }
    }

    /// The place of the match in which the player with connection `addr`
    /// plays.
    pub open spec fn room_of(self, addr: u64) -> Option<int> {
        match self.state_of(addr) {
            Some(PoolState::Pool(id)) => index_in(self.pool_ids(), id),
            _ => None,
        }
    }

    /// The server after `addr` connected. A connection that is known
    /// already changes nothing.
    pub open spec fn opened(self, addr: u64) -> ServerView {
        if index_in(self.addrs(), addr) is Some {
            self
        } else {
            ServerView {
                players: self.players.push(ConnectionView { addr, player: fresh_player() }),
                ..self
            }
        }
    }

    /// Whether the player with connection `addr` may take a name or ask
    /// for a match: the player is connected and neither plays nor waits.
    pub open spec fn is_free(self, addr: u64) -> bool {
        self.state_of(addr) == Some(PoolState::NoPool)
    }

    /// The server after the player with connection `addr` took a name.
    pub open spec fn named(self, addr: u64, name: Seq<char>) -> ServerView {
        if self.is_free(addr) {
            let i = index_in(self.addrs(), addr)->0;
            ServerView {
                players: self.players.update(
                    i,
                    ConnectionView { addr, player: PlayerView { name, pool: PoolState::NoPool } },
                ),
                ..self
            }
        } else {
            self
        }
    }

    /// The matches after the player with connection `addr` left the match
    /// `id`. A match that its last player left is over.
    pub open spec fn pools_without(self, id: PoolId, addr: u64) -> Seq<RoomView> {
        match index_in(self.pool_ids(), id) {
            Some(k) => {
                let left = self.pools[k].pool.without(addr);
                if left.members.len() == 0 {
                    self.pools.remove(k)
                } else {
                    self.pools.update(k, RoomView { id, pool: left })
                }
            },
            None => self.pools,
        }
    }

    /// Who waits, without `addr`.
    pub open spec fn pending_without(self, addr: u64) -> Seq<u64> {
        match index_in(self.pending, addr) {
            Some(j) => self.pending.remove(j),
            None => self.pending,
        }
    }

    /// The server after `addr` disconnected: the player leaves the match
    /// or the waiting players, and is known no longer.
    pub open spec fn closed(self, addr: u64) -> ServerView {
        match index_in(self.addrs(), addr) {
            Some(i) => ServerView {
                players: self.players.remove(i),
                pools: match self.players[i].player.pool {
                    PoolState::Pool(id) => self.pools_without(id, addr),
                    _ => self.pools,
                },
                pending: match self.players[i].player.pool {
                    PoolState::PendingPool => self.pending_without(addr),
                    _ => self.pending,
                },
                ..self
            },
            None => self,
        }
    }

    /// The server after the player with connection `addr` joined those who
    /// wait.
    pub open spec fn queued(self, addr: u64) -> ServerView {
        let i = index_in(self.addrs(), addr)->0;
        ServerView {
            players: self.players.update(
                i,
                ConnectionView {
                    addr,
                    player: PlayerView { pool: PoolState::PendingPool, ..self.players[i].player },
                },
            ),
            pending: self.pending.push(addr),
            ..self
        }
    }
}

/// The server's book of connections, matches and waiting players.
pub struct GameServer {
    players: Vec<Connection>,
    pools: Vec<Room>,
    pending_pool: Vec<u64>,
    pool_size: usize,
    call_every: u16,
    next_pool: PoolId,
}

impl View for GameServer {
    type V = ServerView;

    closed spec fn view(&self) -> ServerView {
        ServerView {
            players: Seq::new(self.players@.len(), |i: int| self.players@[i]@),
            pools: Seq::new(self.pools@.len(), |i: int| self.pools@[i]@),
            pending: self.pending_pool@,
            pool_size: self.pool_size,
            call_every: self.call_every,
            next_pool: self.next_pool,
        }
    }
}

impl GameServer {
    pub open spec fn wf(&self) -> bool {
        self@.wf()
    }

    /// A server without connections, for matches of `pool_size` players
    /// with a tick every `call_every` milliseconds.
    pub fn new(pool_size: usize, call_every: u16) -> (r: Self)
        requires
            pool_size >= 1,
        ensures
            r.wf(),
            r@ == (ServerView {
                players: Seq::empty(),
                pools: Seq::empty(),
                pending: Seq::empty(),
                pool_size,
                call_every,
                next_pool: 0,
            }),
    {
        let r = Self {
            players: Vec::new(),
            pools: Vec::new(),
            pending_pool: Vec::new(),
            pool_size,
            call_every,
            next_pool: 0,
        };
        assert(r@.players =~= Seq::empty());
        assert(r@.pools =~= Seq::empty());
        r
    }

    fn find_player(&self, addr: u64) -> (r: Option<usize>)
        requires
            self.wf(),
        ensures
            match r {
                Some(i) => i < self@.players.len() && index_in(self@.addrs(), addr) == Some(
                    i as int,
                ),
                None => index_in(self@.addrs(), addr) is None,
            },
    {
        let mut i: usize = 0;
        while i < self.players.len()
            invariant
                self.wf(),
                i <= self.players@.len(),
                forall|k: int| 0 <= k < i ==> self@.addrs()[k] != addr,
            decreases self.players@.len() - i,
        {
            if self.players[i].addr == addr {
                proof {
                    assert(self@.addrs()[i as int] == addr);
                    lemma_index_in(self@.addrs(), i as int);
                }
                return Some(i);
            }
            i += 1;
        }
        None
    }

    fn find_pool(&self, id: PoolId) -> (r: Option<usize>)
        requires
            self.wf(),
        ensures
            match r {
                Some(k) => k < self@.pools.len() && index_in(self@.pool_ids(), id) == Some(
                    k as int,
                ),
                None => index_in(self@.pool_ids(), id) is None,
            },
    {
        let mut k: usize = 0;
        while k < self.pools.len()
            invariant
                self.wf(),
                k <= self.pools@.len(),
                forall|j: int| 0 <= j < k ==> self@.pool_ids()[j] != id,
            decreases self.pools@.len() - k,
        {
            if self.pools[k].id == id {
                proof {
                    assert(self@.pool_ids()[k as int] == id);
                    lemma_index_in(self@.pool_ids(), k as int);
                }
                return Some(k);
            }
            k += 1;
        }
        None
    }

    fn find_pending(&self, addr: u64) -> (r: Option<usize>)
        requires
            self.wf(),
        ensures
            match r {
                Some(j) => j < self@.pending.len() && index_in(self@.pending, addr) == Some(
                    j as int,
                ),
                None => index_in(self@.pending, addr) is None,
            },
    {
        let mut j: usize = 0;
        while j < self.pending_pool.len()
            invariant
                self.wf(),
                j <= self.pending_pool@.len(),
                forall|k: int| 0 <= k < j ==> self@.pending[k] != addr,
            decreases self.pending_pool@.len() - j,
        {
            if self.pending_pool[j] == addr {
                proof {
                    lemma_index_in(self@.pending, j as int);
                }
                return Some(j);
            }
            j += 1;
        }
        None
    }

    /// The player with connection `addr`.
    pub fn player(&self, addr: u64) -> (r: Option<&Player>)
        requires
            self.wf(),
        ensures
            match r {
                Some(player) => index_in(self@.addrs(), addr) matches Some(i) && player@
                    == self@.players[i].player,
                None => index_in(self@.addrs(), addr) is None,
            },
    {
        match self.find_player(addr) {
            Some(i) => Some(&self.players[i].player),
            None => None,
        }
    }

    /// The match with the name `id`.
    pub fn pool(&self, id: PoolId) -> (r: Option<&Pool>)
        requires
            self.wf(),
        ensures
            match r {
                Some(pool) => index_in(self@.pool_ids(), id) matches Some(k) && pool@
                    == self@.pools[k].pool,
                None => index_in(self@.pool_ids(), id) is None,
            },
    {
        match self.find_pool(id) {
            Some(k) => Some(&self.pools[k].pool),
            None => None,
        }
    }

    /// How many matches run.
    pub fn pools_len(&self) -> (r: usize)
        ensures
            r == self@.pools.len(),
    {
        self.pools.len()
    }

    /// How many players wait for a match.
    pub fn pending_len(&self) -> (r: usize)
        ensures
            r == self@.pending.len(),
    {
        self.pending_pool.len()
    }

    /// A connection opened.
    pub fn open_stream(&mut self, addr: u64)
        requires
            old(self).wf(),
        ensures
            final(self).wf(),
            final(self)@ == old(self)@.opened(addr),
    {
        if self.find_player(addr).is_none() {
            self.players.push(Connection { addr, player: Player::new() });
            proof {
                let before = old(self)@;
                let after = self@;
                assert(after.players =~= before.players.push(
                    ConnectionView { addr, player: fresh_player() },
                ));
                assert(after.pools =~= before.pools);
                assert forall|j: int| 0 <= j < after.pending.len() implies after.waits(
                    #[trigger] after.pending[j],
                ) by {
                    assert(before.waits(before.pending[j]));
                    let i = choose|i: int|
                        0 <= i < before.players.len() && (#[trigger] before.players[i]).addr
                            == before.pending[j] && before.players[i].player.pool
                            == PoolState::PendingPool;
                    assert(after.players[i] == before.players[i]);
                }
                assert forall|a: int, b: int| 0 <= a < b < after.addrs().len() implies after.addrs()[a]
                    != after.addrs()[b] by {
                    if b < before.addrs().len() {
                        assert(before.addrs()[a] != before.addrs()[b]);
                    } else {
                        assert(before.addrs()[a] == after.addrs()[a]);
                    }
                }
                assert(after.pool_ids() =~= before.pool_ids());
            }
        }
    }

    /// A player asks for a name. Returns whether the player gets it: a
    /// player who plays or waits keeps the name they have.
    pub fn set_name(&mut self, addr: u64, name: String) -> (accepted: bool)
        requires
            old(self).wf(),
        ensures
            final(self).wf(),
            accepted == old(self)@.is_free(addr),
            final(self)@ == old(self)@.named(addr, name@),
    {
        match self.find_player(addr) {
            Some(i) => {
                if self.players[i].player.pool() != PoolState::NoPool {
                    false
                } else {
                    self.players[i].player.set_name(name);
                    proof {
                        let before = old(self)@;
                        let after = self@;
                        assert(after.players =~= before.named(addr, name@).players);
                        assert(after.pools =~= before.pools);
                        assert(after.addrs() =~= before.addrs());
                        assert(after.pool_ids() =~= before.pool_ids());
                        assert forall|j: int| 0 <= j < after.pending.len() implies after.waits(
                            #[trigger] after.pending[j],
                        ) by {
                            assert(before.waits(before.pending[j]));
                            let w = choose|w: int|
                                0 <= w < before.players.len() && (#[trigger] before.players[w]).addr
                                    == before.pending[j] && before.players[w].player.pool
                                    == PoolState::PendingPool;
                            assert(after.players[w] == before.players[w]);
                        }
                    }
                    true
                }
            },
            None => false,
        }
    }
}

/// Keys of which none occurs twice stay such when one is taken out.
pub proof fn lemma_remove_distinct(keys: Seq<u64>, i: int)
    requires
        distinct(keys),
        0 <= i < keys.len(),
    ensures
        distinct(keys.remove(i)),
        forall|j: int| 0 <= j < keys.remove(i).len() ==> keys.remove(i)[j] != keys[i],
{
    let left = keys.remove(i);
    assert forall|a: int, b: int| 0 <= a < b < left.len() implies left[a] != left[b] by {
        let sa = if a < i {
            a
        } else {
            a + 1
        };
        let sb = if b < i {
            b
        } else {
            b + 1
        };
        assert(keys[sa] != keys[sb]);
    }
    assert forall|j: int| 0 <= j < left.len() implies left[j] != keys[i] by {
        let sj = if j < i {
            j
        } else {
            j + 1
        };
        if sj < i {
            assert(keys[sj] != keys[i]);
        } else {
            assert(keys[i] != keys[sj]);
        }
    }
}

/// A player who neither plays nor waits is not among those who wait.
pub proof fn lemma_not_pending(v: ServerView, addr: u64)
    requires
        v.wf(),
        v.state_of(addr) is Some,
        v.state_of(addr) != Some(PoolState::PendingPool),
    ensures
        forall|j: int| 0 <= j < v.pending.len() ==> v.pending[j] != addr,
{
    let i = index_in(v.addrs(), addr)->0;
    assert(v.addrs()[i] == addr);
    assert forall|j: int| 0 <= j < v.pending.len() implies v.pending[j] != addr by {
        if v.pending[j] == addr {
            assert(v.waits(v.pending[j]));
            let w = choose|w: int|
                0 <= w < v.players.len() && (#[trigger] v.players[w]).addr == addr
                    && v.players[w].player.pool == PoolState::PendingPool;
            assert(v.addrs()[w] == addr);
            if w < i {
                assert(v.addrs()[w] != v.addrs()[i]);
            } else if i < w {
                assert(v.addrs()[i] != v.addrs()[w]);
            }
        }
    }
}

/// The server stays in order when a player disconnects.
pub proof fn lemma_closed_wf(v: ServerView, addr: u64)
    requires
        v.wf(),
    ensures
        v.closed(addr).wf(),
{
    if let Some(i) = index_in(v.addrs(), addr) {
        let after = v.closed(addr);
        assert(v.addrs()[i] == addr);
        lemma_remove_distinct(v.addrs(), i);
        assert(after.addrs() =~= v.addrs().remove(i));
        let state = v.players[i].player.pool;
        // The matches.
        match state {
            PoolState::Pool(id) => {
                if let Some(k) = index_in(v.pool_ids(), id) {
                    assert(v.pool_ids()[k] == id);
                    let left = v.pools[k].pool.without(addr);
                    assert(v.pools[k].pool.wf());
                    assert(left.wf()) by {
                        if let Some(m) = v.pools[k].pool.index_of(addr) {
                            let members = v.pools[k].pool.members;
                            assert forall|a: int, b: int|
                                0 <= a < b < left.members.len() implies left.members[a].id
                                != left.members[b].id by {
                                let sa = if a < m {
                                    a
                                } else {
                                    a + 1
                                };
                                let sb = if b < m {
                                    b
                                } else {
                                    b + 1
                                };
                                assert(members[sa].id != members[sb].id);
                            }
                            assert forall|a: int| 0 <= a < left.members.len() implies (
                            #[trigger] left.members[a]).infos.board.wf() by {
                                let sa = if a < m {
                                    a
                                } else {
                                    a + 1
                                };
                                assert(members[sa].infos.board.wf());
                            }
                        }
                    }
                    if left.members.len() == 0 {
                        lemma_remove_distinct(v.pool_ids(), k);
                        assert(after.pool_ids() =~= v.pool_ids().remove(k));
                        assert forall|j: int| 0 <= j < after.pools.len() implies (
                        #[trigger] after.pools[j]).pool.wf() && after.pools[j].id
                            < after.next_pool by {
                            let sj = if j < k {
                                j
                            } else {
                                j + 1
                            };
                            assert(v.pools[sj].pool.wf());
                        }
                    } else {
                        assert(after.pool_ids() =~= v.pool_ids());
                        assert forall|j: int| 0 <= j < after.pools.len() implies (
                        #[trigger] after.pools[j]).pool.wf() && after.pools[j].id
                            < after.next_pool by {
                            assert(v.pools[j].pool.wf());
                        }
                    }
                }
            },
            _ => {},
        }
        // Those who wait.
        match state {
            PoolState::PendingPool => {
                if let Some(j) = index_in(v.pending, addr) {
                    lemma_remove_distinct(v.pending, j);
                }
            },
            _ => {
                lemma_not_pending(v, addr);
            },
        }
        assert forall|j: int| 0 <= j < after.pending.len() implies after.waits(
            #[trigger] after.pending[j],
        ) by {
            let x = after.pending[j];
            assert(x != addr) by {
                if state == PoolState::PendingPool {
                    if let Some(r) = index_in(v.pending, addr) {
                        assert(v.pending[r] == addr);
                    } else {
                        let sj = j;
                        assert(v.pending[sj] != addr);
                    }
                }
            }
            let sj = if state == PoolState::PendingPool && index_in(v.pending, addr) is Some && j
                >= index_in(v.pending, addr)->0 {
                j + 1
            } else {
                j
            };
            assert(v.pending[sj] == x);
            assert(v.waits(v.pending[sj]));
            let w = choose|w: int|
                0 <= w < v.players.len() && (#[trigger] v.players[w]).addr == x
                    && v.players[w].player.pool == PoolState::PendingPool;
            assert(w != i);
            let nw = if w < i {
                w
            } else {
                w - 1
            };
            assert(after.players[nw] == v.players[w]);
        }
    }
}

/// The server stays in order when a player joins those who wait and they
/// are still too few for a match.
pub proof fn lemma_queued_wf(v: ServerView, addr: u64)
    requires
        v.wf(),
        v.is_free(addr),
        v.pending.len() + 1 < v.pool_size,
    ensures
        v.queued(addr).wf(),
{
    let after = v.queued(addr);
    let i = index_in(v.addrs(), addr)->0;
    assert(v.addrs()[i] == addr);
    lemma_not_pending(v, addr);
    assert(after.addrs() =~= v.addrs());
    assert(after.pool_ids() =~= v.pool_ids());
    assert forall|j: int| 0 <= j < after.pending.len() implies after.waits(
        #[trigger] after.pending[j],
    ) by {
        if j < v.pending.len() {
            assert(v.waits(v.pending[j]));
            let w = choose|w: int|
                0 <= w < v.players.len() && (#[trigger] v.players[w]).addr == v.pending[j]
                    && v.players[w].player.pool == PoolState::PendingPool;
            assert(after.players[w] == v.players[w]);
        } else {
            assert(after.players[i].addr == addr);
        }
    }
}

/// The messages of several senders, one sender after the other.
pub open spec fn joined(outs: Seq<Seq<OutgoingView>>) -> Seq<OutgoingView>
    decreases outs.len(),
{
    if outs.len() == 0 {
        Seq::empty()
    } else {
        joined(outs.drop_last()) + outs.last()
    }
}

/// A player's input led the player's match from `pool` to `after` and had
/// `out` sent, every message to the pool as one message to each member.
pub open spec fn input_relayed(
    pool: PoolView,
    addr: u64,
    input: Input,
    now: u64,
    after: PoolView,
    out: Seq<OutgoingView>,
    draw: int,
    hole: int,
) -> bool {
    let pool_out = pool.input_handled(addr, input, now, draw, hole).out;
    &&& input_outcome(pool, addr, input, now, after, pool_out, draw, hole)
    &&& out == expanded(pool_out, member_ids(pool))
}

/// A round of the scheduler led a match from `pool` to `after` and had
/// `out` sent, every message to the pool as one message to each member.
pub open spec fn round_relayed(
    pool: PoolView,
    now: u64,
    after: PoolView,
    out: Seq<OutgoingView>,
    draws: Seq<int>,
    holes: Seq<int>,
) -> bool {
    let pool_out = pool.updated(now, draws, holes).out;
    &&& update_outcome(pool, now, after, pool_out, draws, holes)
    &&& out == expanded(pool_out, member_ids(pool))
}

/// What a player's input leads to: nothing for a player who is in no
/// match, and else what it leads to in the player's match, which is the
/// one match that changes.
pub open spec fn input_taken(
    before: ServerView,
    addr: u64,
    input: Input,
    now: u64,
    after: ServerView,
    out: Seq<OutgoingView>,
) -> bool {
    match before.room_of(addr) {
        Some(k) => {
            &&& after == (ServerView { pools: before.pools.update(k, after.pools[k]), ..before })
            &&& after.pools[k].id == before.pools[k].id
            &&& carries_on(before.pools[k].pool, after.pools[k].pool)
            &&& exists|draw: int, hole: int|
                input_relayed(
                    before.pools[k].pool,
                    addr,
                    input,
                    now,
                    after.pools[k].pool,
                    out,
                    draw,
                    hole,
                )
        },
        None => after == before && out.len() == 0,
    }
}

/// What a round of the scheduler leads to: every match has its round, in
/// the order in which the matches were made, and nothing else changes.
pub open spec fn rounds_taken(
    before: ServerView,
    now: u64,
    after: ServerView,
    out: Seq<OutgoingView>,
) -> bool {
    &&& after == (ServerView { pools: after.pools, ..before })
    &&& after.pools.len() == before.pools.len()
    &&& exists|outs: Seq<Seq<OutgoingView>>|
        {
            &&& outs.len() == before.pools.len()
            &&& out == #[trigger] joined(outs)
            &&& forall|k: int|
                0 <= k < before.pools.len() ==> {
                    &&& (#[trigger] after.pools[k]).id == before.pools[k].id
                    &&& carries_on(before.pools[k].pool, after.pools[k].pool)
                    &&& exists|draws: Seq<int>, holes: Seq<int>|
                        round_relayed(
                            before.pools[k].pool,
                            now,
                            after.pools[k].pool,
                            outs[k],
                            draws,
                            holes,
                        )
                }
        }
}

/// A match was made of those who waited and the player who asked last:
/// they wait no longer and play in the new match, each on a fresh board,
/// and each is told so and told who plays.
pub open spec fn formed(
    before: ServerView,
    addr: u64,
    now: u64,
    after: ServerView,
    out: Seq<OutgoingView>,
) -> bool {
    let id = before.next_pool;
    let cohort = before.pending.push(addr);
    &&& after.next_pool == id + 1
    &&& after.pool_size == before.pool_size
    &&& after.call_every == before.call_every
    &&& after.pending.len() == 0
    &&& after.pools.len() == before.pools.len() + 1
    &&& after.pools.drop_last() == before.pools
    &&& after.pools.last().id == id
    &&& after.pools.last().pool.call_every == before.call_every
    &&& after.pools.last().pool.members.len() == cohort.len()
    &&& forall|i: int|
        0 <= i < cohort.len() ==> fresh_seat(
            #[trigger] after.pools.last().pool.members[i],
            cohort[i],
            before.name_of(cohort[i]),
            now,
        )
    &&& after.players.len() == before.players.len()
    &&& forall|i: int|
        0 <= i < before.players.len() ==> #[trigger] after.players[i] == if cohort.contains(
            before.players[i].addr,
        ) {
            ConnectionView {
                addr: before.players[i].addr,
                player: PlayerView { pool: PoolState::Pool(id), ..before.players[i].player },
            }
        } else {
            before.players[i]
        }
    &&& out == expanded(creation_messages(after.pools.last().pool, before.call_every), cohort)
}

/// What asking for a match leads to. A player who plays or waits, or is
/// not connected, is turned down, and so is a player whose match would
/// need a name where the names have run out. Any other player joins those
/// who wait, and with the last player needed the match is made.
pub open spec fn asked(
    before: ServerView,
    addr: u64,
    now: u64,
    after: ServerView,
    r: Option<Seq<OutgoingView>>,
) -> bool {
    if !before.is_free(addr) {
        r is None && after == before
    } else if before.pending.len() + 1 < before.pool_size {
        r == Some(Seq::<OutgoingView>::empty()) && after == before.queued(addr)
    } else if before.next_pool == u64::MAX {
        r is None && after == before
    } else {
        r matches Some(out) && formed(before, addr, now, after, out)
    }
}

/// What the server answers and sends after something happened on a
/// connection.
pub open spec fn packet_handled(
    before: ServerView,
    packet: NetworkPacket,
    now: u64,
    after: ServerView,
    out: Seq<OutgoingView>,
) -> bool {
    let bad_request = seq![
        OutgoingView { to: Recipient::Player(packet.addr), request: ServerMessage::BadRequest },
    ];
    match packet.action {
        NetworkAction::OpenStream => after == before.opened(packet.addr) && out.len() == 0,
        NetworkAction::CloseStream => after == before.closed(packet.addr) && out.len() == 0,
        NetworkAction::Request(ClientRequest::SetName(name)) => {
            &&& after == before.named(packet.addr, name@)
            &&& out == if before.is_free(packet.addr) {
                Seq::empty()
            } else {
                bad_request
            }
        },
        NetworkAction::Request(ClientRequest::AskForAGame) => {
            ||| asked(before, packet.addr, now, after, Some(out))
            ||| asked(before, packet.addr, now, after, None) && out == bad_request
        },
        NetworkAction::Request(ClientRequest::Input(input)) => input_taken(
            before,
            packet.addr,
            input,
            now,
            after,
            out,
        ),
    }
}

impl GameServer {
    /// A connection closed.
    pub fn close_stream(&mut self, addr: u64)
        requires
            old(self).wf(),
        ensures
            final(self).wf(),
            final(self)@ == old(self)@.closed(addr),
    {
        proof {
            lemma_closed_wf(self@, addr);
        }
        match self.find_player(addr) {
            Some(i) => {
                let ghost before = self@;
                match self.players[i].player.pool() {
                    PoolState::Pool(id) => {
                        match self.find_pool(id) {
                            Some(k) => {
                                assert(self@.pools[k as int].pool.wf());
                                self.pools[k].pool.remove_user(addr);
                                if self.pools[k].pool.len() == 0 {
                                    let _ = self.pools.remove(k);
                                }
                                assert(self@.pools =~= before.pools_without(id, addr));
                            },
                            None => {},
                        }
                    },
                    PoolState::PendingPool => {
                        match self.find_pending(addr) {
                            Some(j) => {
                                let _ = self.pending_pool.remove(j);
                            },
                            None => {},
                        }
                    },
                    PoolState::NoPool => {},
                }
                assert(self@.players =~= before.players);
                let _ = self.players.remove(i);
                assert(self@.players =~= before.players.remove(i as int));
                assert(self@.pools =~= before.closed(addr).pools);
            },
            None => {},
        }
    }

    /// The name under which the player with connection `addr` plays.
    fn name_for(&self, addr: u64) -> (name: String)
        requires
            self.wf(),
        ensures
            name@ == self@.name_of(addr),
    {
        match self.find_player(addr) {
            Some(i) => self.players[i].player.name().to_owned(),
            None => "Anonyme".to_owned(),
        }
    }

    /// A player asks for a match. Returns the messages to send, or nothing
    /// where the player is turned down.
    pub fn ask_for_a_game(&mut self, addr: u64, now: u64) -> (r: Option<Vec<Outgoing>>)
        requires
            old(self).wf(),
        ensures
            final(self).wf(),
            asked(
                old(self)@,
                addr,
                now,
                final(self)@,
                match r {
                    Some(out) => Some(outgoing_view(out@)),
                    None => None,
                },
            ),
    {
        let ghost before = self@;
        let asker = match self.find_player(addr) {
            Some(i) => i,
            None => {
                return None;
            },
        };
        if self.players[asker].player.pool() != PoolState::NoPool {
            return None;
        }
        assert(before.is_free(addr));
        proof {
            lemma_not_pending(before, addr);
        }
        if self.pending_pool.len() + 1 < self.pool_size {
            proof {
                lemma_queued_wf(before, addr);
            }
            self.players[asker].player.change_pool(PoolState::PendingPool);
            self.pending_pool.push(addr);
            let out: Vec<Outgoing> = Vec::new();
            proof {
                assert(self@.players =~= before.queued(addr).players);
                assert(self@.pools =~= before.pools);
                assert(outgoing_view(out@) =~= Seq::empty());
            }
            return Some(out);
        }
        if self.next_pool == u64::MAX {
            return None;
        }
        // The match is made of those who wait and the player who asks.
        let id = self.next_pool;
        let ghost cohort = before.pending.push(addr);
        let mut ids: Vec<u64> = Vec::new();
        let mut members: Vec<(u64, String)> = Vec::new();
        let mut j: usize = 0;
        while j < self.pending_pool.len()
            invariant
                self.wf(),
                self@ == before,
                j <= before.pending.len(),
                ids@ == before.pending.take(j as int),
                members@.len() == j,
                forall|m: int|
                    0 <= m < j ==> (#[trigger] members@[m]).0 == before.pending[m] && members@[m].1@
                        == before.name_of(before.pending[m]),
            decreases before.pending.len() - j,
        {
            let waiting = self.pending_pool[j];
            ids.push(waiting);
            members.push((waiting, self.name_for(waiting)));
            assert(ids@ =~= before.pending.take(j + 1));
            j += 1;
        }
        ids.push(addr);
        members.push((addr, self.name_for(addr)));
        proof {
            assert(before.pending.take(before.pending.len() as int) =~= before.pending);
            assert(ids@ =~= cohort);
            assert forall|a: int, b: int| 0 <= a < b < members@.len() implies members@[a].0
                != members@[b].0 by {
                if b < before.pending.len() {
                    assert(before.pending[a] != before.pending[b]);
                } else {
                    assert(before.pending[a] != addr);
                }
            }
        }
        let (pool, pool_out) = Pool::create(members, self.call_every, now);
        let out = expand(pool_out, &ids);
        let ghost made = pool@;
        // Who is in the match plays in it from now on.
        let mut i: usize = 0;
        while i < self.players.len()
            invariant
                i <= before.players.len(),
                self@.players.len() == before.players.len(),
                self@.pools == before.pools,
                self@.pending == before.pending,
                self.pool_size == before.pool_size,
                self.call_every == before.call_every,
                self.next_pool == before.next_pool,
                ids@ == cohort,
                forall|m: int|
                    0 <= m < i ==> #[trigger] self@.players[m] == if cohort.contains(
                        before.players[m].addr,
                    ) {
                        ConnectionView {
                            addr: before.players[m].addr,
                            player: PlayerView {
                                pool: PoolState::Pool(id),
                                ..before.players[m].player
                            },
                        }
                    } else {
                        before.players[m]
                    },
                forall|m: int|
                    i <= m < before.players.len() ==> #[trigger] self@.players[m]
                        == before.players[m],
            decreases before.players.len() - i,
        {
            let ghost current = self@;
            let who = self.players[i].addr;
            let mut found = false;
            let mut c: usize = 0;
            while c < ids.len()
                invariant
                    c <= ids@.len(),
                    found == exists|m: int| 0 <= m < c && ids@[m] == who,
                decreases ids@.len() - c,
            {
                if ids[c] == who {
                    found = true;
                }
                c += 1;
            }
            assert(found == cohort.contains(who));
            assert(current.players[i as int] == before.players[i as int]);
            if found {
                self.players[i].player.change_pool(PoolState::Pool(id));
            }
            proof {
                assert(self@.players[i as int] == if cohort.contains(before.players[i as int].addr) {
                    ConnectionView {
                        addr: before.players[i as int].addr,
                        player: PlayerView {
                            pool: PoolState::Pool(id),
                            ..before.players[i as int].player
                        },
                    }
                } else {
                    before.players[i as int]
                });
                assert(self@.pools =~= current.pools);
                assert forall|m: int| i < m < before.players.len() implies #[trigger] self@.players[m]
                    == before.players[m] by {
                    assert(current.players[m] == before.players[m]);
                }
                assert forall|m: int| 0 <= m < i implies #[trigger] self@.players[m]
                    == current.players[m] by {}
            }
            i += 1;
        }
        let ghost marked = self@;
        self.pools.push(Room { id, pool });
        self.pending_pool = Vec::new();
        self.next_pool = id + 1;
        proof {
            let after = self@;
            assert(after.players =~= marked.players);
            assert(after.pools =~= before.pools.push(RoomView { id, pool: made }));
            assert(after.pools.drop_last() =~= before.pools);
            assert(after.pending =~= Seq::empty());
            assert(after.addrs() =~= before.addrs());
            assert forall|a: int, b: int| 0 <= a < b < after.pool_ids().len() implies after.pool_ids()[a]
                != after.pool_ids()[b] by {
                if b < before.pools.len() {
                    assert(before.pool_ids()[a] != before.pool_ids()[b]);
                } else {
                    assert(before.pools[a].id < before.next_pool);
                }
            }
            assert forall|k: int| 0 <= k < after.pools.len() implies (#[trigger] after.pools[k]).pool.wf()
                && after.pools[k].id < after.next_pool by {
                if k < before.pools.len() {
                    assert(before.pools[k].pool.wf());
                }
            }
            assert(formed(before, addr, now, after, outgoing_view(out@)));
        }
        Some(out)
    }

    /// What a player asks for in their match, at the millisecond `now`.
    /// Returns the messages to send.
    pub fn player_input(&mut self, addr: u64, input: Input, now: u64) -> (out: Vec<Outgoing>)
        requires
            old(self).wf(),
        ensures
            final(self).wf(),
            input_taken(old(self)@, addr, input, now, final(self)@, outgoing_view(out@)),
    {
        let ghost before = self@;
        let nothing: Vec<Outgoing> = Vec::new();
        proof {
            assert(outgoing_view(nothing@) =~= Seq::empty());
        }
        let i = match self.find_player(addr) {
            Some(i) => i,
            None => {
                return nothing;
            },
        };
        let id = match self.players[i].player.pool() {
            PoolState::Pool(id) => id,
            _ => {
                return nothing;
            },
        };
        let k = match self.find_pool(id) {
            Some(k) => k,
            None => {
                return nothing;
            },
        };
        assert(before.pools[k as int].pool.wf());
        let members = self.pools[k].pool.members();
        assert(members@ =~= member_ids(before.pools[k as int].pool));
        let pool_out = self.pools[k].pool.handle_player_input(addr, input, now);
        let out = expand(pool_out, &members);
        proof {
            let after = self@;
            let (draw, hole) = choose|draw: int, hole: int|
                input_outcome(
                    before.pools[k as int].pool,
                    addr,
                    input,
                    now,
                    after.pools[k as int].pool,
                    outgoing_view(pool_out@),
                    draw,
                    hole,
                );
            assert(input_relayed(
                before.pools[k as int].pool,
                addr,
                input,
                now,
                after.pools[k as int].pool,
                outgoing_view(out@),
                draw,
                hole,
            ));
            assert(after.players =~= before.players);
            assert(after.pools =~= before.pools.update(k as int, after.pools[k as int]));
            assert(after.addrs() =~= before.addrs());
            assert(after.pool_ids() =~= before.pool_ids());
            assert forall|m: int| 0 <= m < after.pools.len() implies (#[trigger] after.pools[m]).pool.wf()
                && after.pools[m].id < after.next_pool by {
                assert(before.pools[m].pool.wf());
            }
            assert forall|j: int| 0 <= j < after.pending.len() implies after.waits(
                #[trigger] after.pending[j],
            ) by {
                assert(before.waits(before.pending[j]));
                let w = choose|w: int|
                    0 <= w < before.players.len() && (#[trigger] before.players[w]).addr
                        == before.pending[j] && before.players[w].player.pool
                        == PoolState::PendingPool;
                assert(after.players[w] == before.players[w]);
            }
        }
        out
    }

    /// One round of the scheduler at the millisecond `now`: every match
    /// has its round. Returns the messages to send.
    pub fn update(&mut self, now: u64) -> (out: Vec<Outgoing>)
        requires
            old(self).wf(),
        ensures
            final(self).wf(),
            rounds_taken(old(self)@, now, final(self)@, outgoing_view(out@)),
    {
        let ghost before = self@;
        let ghost mut outs: Seq<Seq<OutgoingView>> = Seq::empty();
        let mut out: Vec<Outgoing> = Vec::new();
        proof {
            assert(outgoing_view(out@) =~= Seq::empty());
        }
        let mut k: usize = 0;
        while k < self.pools.len()
            invariant
                before.wf(),
                k <= before.pools.len(),
                self@ == (ServerView { pools: self@.pools, ..before }),
                self@.pools.len() == before.pools.len(),
                outs.len() == k,
                outgoing_view(out@) == joined(outs),
                forall|m: int|
                    k <= m < before.pools.len() ==> #[trigger] self@.pools[m] == before.pools[m],
                forall|m: int|
                    0 <= m < before.pools.len() ==> (#[trigger] self@.pools[m]).pool.wf()
                        && self@.pools[m].id == before.pools[m].id,
                forall|m: int|
                    0 <= m < k ==> carries_on(
                        before.pools[m].pool,
                        (#[trigger] self@.pools[m]).pool,
                    ) && exists|draws: Seq<int>, holes: Seq<int>|
                        round_relayed(
                            before.pools[m].pool,
                            now,
                            self@.pools[m].pool,
                            outs[m],
                            draws,
                            holes,
                        ),
            decreases before.pools.len() - k,
        {
            let ghost current = self@;
            let ghost sent = outgoing_view(out@);
            let ghost done = outs;
            assert(current.pools[k as int].pool.wf());
            assert(current.pools[k as int] == before.pools[k as int]);
            let members = self.pools[k].pool.members();
            assert(members@ =~= member_ids(before.pools[k as int].pool));
            let pool_out = self.pools[k].pool.update(now);
            let mut relayed = expand(pool_out, &members);
            proof {
                let after = self@;
                let (draws, holes) = choose|draws: Seq<int>, holes: Seq<int>|
                    update_outcome(
                        before.pools[k as int].pool,
                        now,
                        after.pools[k as int].pool,
                        outgoing_view(pool_out@),
                        draws,
                        holes,
                    );
                outs = outs.push(outgoing_view(relayed@));
                assert(round_relayed(
                    before.pools[k as int].pool,
                    now,
                    after.pools[k as int].pool,
                    outs[k as int],
                    draws,
                    holes,
                ));
                assert(outs.drop_last() =~= done);
                assert(after.players =~= current.players);
                assert forall|m: int| 0 <= m < before.pools.len() && m != k implies #[trigger] after.pools[m]
                    == current.pools[m] by {}
                assert forall|m: int| 0 <= m < k implies carries_on(
                    before.pools[m].pool,
                    (#[trigger] after.pools[m]).pool,
                ) && exists|draws: Seq<int>, holes: Seq<int>|
                    round_relayed(
                        before.pools[m].pool,
                        now,
                        after.pools[m].pool,
                        outs[m],
                        draws,
                        holes,
                    ) by {
                    assert(after.pools[m] == current.pools[m]);
                    assert(outs[m] == done[m]);
                }
                assert forall|m: int| 0 <= m < before.pools.len() implies (
                #[trigger] after.pools[m]).pool.wf() && after.pools[m].id
                    == before.pools[m].id by {
                    if m != k {
                        assert(after.pools[m] == current.pools[m]);
                    }
                }
            }
            let ghost relayed_view = outgoing_view(relayed@);
            append_outgoing(&mut out, &mut relayed);
            assert(outgoing_view(out@) == sent + relayed_view);
            k += 1;
        }
        proof {
            let after = self@;
            assert(after.addrs() =~= before.addrs());
            assert(after.pool_ids() =~= before.pool_ids());
            assert forall|m: int| 0 <= m < after.pools.len() implies (#[trigger] after.pools[m]).pool.wf()
                && after.pools[m].id < after.next_pool by {
                assert(before.pools[m].id < before.next_pool);
            }
            assert forall|j: int| 0 <= j < after.pending.len() implies after.waits(
                #[trigger] after.pending[j],
            ) by {
                assert(before.waits(before.pending[j]));
            }
            assert(rounds_taken(before, now, after, outgoing_view(out@)));
        }
        out
    }

    /// Something happened on a connection, at the millisecond `now`.
    /// Returns the messages to send; a request that is turned down is
    /// answered with `BadRequest`.
    pub fn handle_packet(&mut self, packet: NetworkPacket, now: u64) -> (out: Vec<Outgoing>)
        requires
            old(self).wf(),
        ensures
            final(self).wf(),
            packet_handled(old(self)@, packet, now, final(self)@, outgoing_view(out@)),
    {
        let mut out: Vec<Outgoing> = Vec::new();
        proof {
            assert(outgoing_view(out@) =~= Seq::empty());
        }
        let addr = packet.addr;
        let accepted = match packet.action {
            NetworkAction::OpenStream => {
                self.open_stream(addr);
                true
            },
            NetworkAction::CloseStream => {
                self.close_stream(addr);
                true
            },
            NetworkAction::Request(ClientRequest::SetName(name)) => self.set_name(addr, name),
            NetworkAction::Request(ClientRequest::AskForAGame) => {
                match self.ask_for_a_game(addr, now) {
                    Some(sent) => {
                        out = sent;
                        true
                    },
                    None => false,
                }
            },
            NetworkAction::Request(ClientRequest::Input(input)) => {
                out = self.player_input(addr, input, now);
                true
            },
        };
        if !accepted {
            push_outgoing(
                &mut out,
                Outgoing { to: Recipient::Player(addr), request: ServerRequest::BadRequest },
            );
            assert(outgoing_view(out@) =~= seq![
                OutgoingView { to: Recipient::Player(addr), request: ServerMessage::BadRequest },
            ]);
        }
        out
    }
}

/// Moves the messages of `more` to the end of `out`.
fn append_outgoing(out: &mut Vec<Outgoing>, more: &mut Vec<Outgoing>)
    ensures
        outgoing_view(final(out)@) == outgoing_view(old(out)@) + outgoing_view(old(more)@),
{
    out.append(more);
    assert(outgoing_view(out@) =~= outgoing_view(old(out)@) + outgoing_view(old(more)@));
}

} // verus!
