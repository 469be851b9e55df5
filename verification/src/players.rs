use crate::pools::PoolState;
use vstd::prelude::*;

verus! {

/// A connected player as the server knows them: a name, and whether they
/// are in a match, wait for one, or neither.
#[derive(Debug, Clone)]
pub struct Player {
    name: String,
    pool: PoolState,
}

/// A connected player as contracts see them.
pub struct PlayerView {
    pub name: Seq<char>,
    pub pool: PoolState,
}

impl View for Player {
    type V = PlayerView;

    closed spec fn view(&self) -> PlayerView {
        PlayerView { name: self.name@, pool: self.pool }
    }
}

impl Player {
    pub fn new() -> (r: Self)
        ensures
            r@.name == "Anonyme"@,
            r@.pool == PoolState::NoPool,
    {
        Self { name: "Anonyme".to_owned(), pool: PoolState::NoPool }
    }

    pub fn set_name(&mut self, name: String)
        ensures
            final(self)@ == (PlayerView { name: name@, pool: old(self)@.pool }),
    {
        self.name = name;
    }

    pub fn pool(&self) -> (r: PoolState)
        ensures
            r == self@.pool,
    {
        self.pool
    }

    pub fn change_pool(&mut self, pool: PoolState)
        ensures
            final(self)@ == (PlayerView { name: old(self)@.name, pool }),
    {
        self.pool = pool;
    }

    pub fn name(&self) -> (r: &str)
        ensures
            r@ == self@.name,
    {
        self.name.as_str()
    }
}

} // verus!
