//! The optimistic-concurrency persistence protocol, modelled over one game
//! document with a version counter. The contract of `commit` is exactly the
//! compare-and-swap behaviour required of the shared store: a transaction
//! watches the version, reads a snapshot, decides, and commits only if no
//! other transaction committed in between; a losing transaction must read
//! the fresh state and decide again, never replay its stale write.

use vstd::prelude::*;
use crate::cards::Card;
use crate::errors::GameError;
use crate::game::Game;
use crate::game::GameView;
use crate::game::game_wf;
use crate::game::spec_add_player;
use crate::game::spec_call_outcome;
use crate::game::spec_called;
use crate::game::spec_playcard_outcome;
use crate::game::spec_played;
use crate::game::spec_start_round_outcome;
use crate::game::spec_started;

verus! {

/// One mutating request a handler can ask the engine to apply.
pub enum GameOp {
    /// Seat a player with this identity.
    AddPlayer(String),
    /// Deal and start the next round.
    StartRound,
    /// Record this call for this player.
    Call(String, u8),
    /// Play this card for this player.
    PlayCard(String, Card),
}

/// The outcome an operation has on a given game state.
pub open spec fn spec_op_outcome(g: GameView, op: &GameOp) -> Result<(), GameError> {
    match op {
        GameOp::AddPlayer(id) => match spec_add_player(g.players, id@) {
            Ok(_) => Ok(()),
            Err(e) => Err(e),
        },
        GameOp::StartRound => spec_start_round_outcome(g),
        GameOp::Call(p, _v) => spec_call_outcome(g, p@),
        GameOp::PlayCard(p, c) => spec_playcard_outcome(g, p@, *c),
    }
}

/// How an accepted operation relates the state it read to the state it
/// writes back.
pub open spec fn spec_op_transition(g: GameView, op: &GameOp, g2: GameView) -> bool {
    match op {
        GameOp::AddPlayer(id) => g2 == GameView {
            id: g.id,
            players: spec_add_player(g.players, id@)->Ok_0,
            rounds: g.rounds,
        },
        GameOp::StartRound => spec_started(g, g2),
        GameOp::Call(_p, v) => g2 == spec_called(g, *v),
        GameOp::PlayCard(_p, c) => g2 == spec_played(g, *c),
    }
}

/// Applies one operation to an owned game snapshot: the pure decide step of
/// the read-decide-commit cycle.
pub fn apply_op(g: &mut Game, op: &GameOp) -> (r: Result<(), GameError>)
    requires
        game_wf(old(g)@),
    ensures
        game_wf(final(g)@),
        r == spec_op_outcome(old(g)@, op),
        r is Ok ==> spec_op_transition(old(g)@, op, final(g)@),
        r is Err ==> final(g)@ == old(g)@,
{
    match op {
        GameOp::AddPlayer(id) => match g.add_player(id) {
            Ok(_) => Ok(()),
            Err(e) => Err(e),
        },
        GameOp::StartRound => g.start_round(),
        GameOp::Call(p, v) => g.call(p, *v),
        GameOp::PlayCard(p, c) => g.playcard(p, *c),
    }
}

/// One game document under optimistic concurrency control: the stored game,
/// if any, and a version that every committed write advances. This is the
/// in-memory model of the shared store's behaviour on one game's key set;
/// a deployment maps `watch`, `load` and `commit` onto the store's own
/// transaction primitives.
pub struct VersionedStore {
    game: Option<Game>,
    version: u64,
}

impl VersionedStore {
    /// The game the store currently holds, if any.
    pub closed spec fn contents(&self) -> Option<GameView> {
        match self.game {
            Some(g) => Some(g@),
            None => None,
        }
    }

    /// The version of the current contents.
    pub closed spec fn ver(&self) -> u64 {
        self.version
    }

    /// The store never holds a malformed game.
    pub closed spec fn wf(&self) -> bool {
        match self.game {
            Some(g) => game_wf(g@),
            None => true,
        }
    }

    /// An empty store.
    pub fn new() -> (s: VersionedStore)
        ensures
            s.wf(),
            s.contents() is None,
            s.ver() == 0,
    {
        VersionedStore { game: None, version: 0 }
    }

    /// Marks the point a transaction starts watching: the version every
    /// interleaving commit will move past.
    pub fn watch(&self) -> (t: u64)
        ensures
            t == self.ver(),
    {
        self.version
    }

    /// Reads a snapshot of the stored game. The transaction owns the copy
    /// and decides on it without holding any lock.
    pub fn load(&self) -> (r: Option<Game>)
        requires
            self.wf(),
        ensures
            match r {
                Some(g) => self.contents() == Some(g@) && game_wf(g@),
                None => self.contents() is None,
            },
    {
        match &self.game {
            None => None,
            Some(g) => Some(g.duplicate()),
        }
    }

    /// Attempts to commit a new game state. The write is applied, and the
    /// version advanced, exactly when nothing was committed since the
    /// transaction watched; otherwise nothing changes and the transaction
    /// must retry against the fresh state.
    pub fn commit(&mut self, watched: u64, g: Game) -> (ok: bool)
        requires
            old(self).wf(),
            game_wf(g@),
            old(self).ver() < u64::MAX,
        ensures
            final(self).wf(),
            ok <==> watched == old(self).ver(),
            ok ==> final(self).contents() == Some(g@) && final(self).ver() == old(self).ver()
                + 1,
            !ok ==> *final(self) == *old(self),
    {
        if watched == self.version {
            self.game = Some(g);
            self.version = self.version + 1;
            true
        } else {
            false
        }
    }

    /// Unconditionally stores a game, as the request that creates a fresh
    /// game does before anyone else can know its identifier.
    pub fn put(&mut self, g: Game)
        requires
            old(self).wf(),
            game_wf(g@),
            old(self).ver() < u64::MAX,
        ensures
            final(self).wf(),
            final(self).contents() == Some(g@),
            final(self).ver() == old(self).ver() + 1,
    {
        self.game = Some(g);
        self.version = self.version + 1;
    }
}

/// One full read-decide-commit cycle against the store: watch, read the
/// current game, apply one operation to the owned snapshot, and commit the
/// result. A rejected operation is reported to the caller as-is and commits
/// nothing; only a store conflict would call for a retry, and none can
/// occur while the transaction holds the store exclusively, as it does
/// here.
pub fn execute(store: &mut VersionedStore, op: &GameOp) -> (r: Result<(), GameError>)
    requires
        old(store).wf(),
        old(store).ver() < u64::MAX,
    ensures
        final(store).wf(),
        old(store).contents() is None ==> r == Err::<(), GameError>(GameError::GameNotFound)
            && *final(store) == *old(store),
        old(store).contents() matches Some(gv) ==> {
            &&& r == spec_op_outcome(gv, op)
            &&& r is Ok ==> final(store).ver() == old(store).ver() + 1
                && final(store).contents() is Some
                && spec_op_transition(gv, op, final(store).contents()->0)
            &&& r is Err ==> *final(store) == *old(store)
        },
{
    let watched = store.watch();
    match store.load() {
        None => Err(GameError::GameNotFound),
        Some(mut g) => {
            match apply_op(&mut g, op) {
                Err(e) => Err(e),
                Ok(()) => {
                    let ok = store.commit(watched, g);
                    proof {
                        assert(ok);
                    }
                    Ok(())
                },
            }
        },
    }
}

} // verus!
