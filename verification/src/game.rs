//! The game aggregate: the player roster and the ordered rounds, with the
//! mutating operations the request handlers invoke. All logic here is pure
//! over the in-memory value; persistence is the caller's business.

use vstd::prelude::*;
use crate::cards::Card;
use crate::cards::Deck;
use crate::cards::full_deck;
use crate::cards::lemma_quarters_partition;
use crate::errors::GameError;
use crate::round::Round;
use crate::round::RoundView;
use crate::round::State;
use crate::round::round_wf;
use crate::round::spec_next;
use crate::round::spec_phase;
use crate::round::spec_play;
use crate::round::spec_record_call;

verus! {

/// The mathematical content of a game: its identifier, the seated players'
/// identities in seat order, and the rounds in play order.
#[verifier::ext_equal]
pub ghost struct GameView {
    pub id: Seq<char>,
    pub players: Seq<Seq<char>>,
    pub rounds: Seq<RoundView>,
}

/// One seated player, known by an opaque identity token.
struct Player {
    id: String,
}

/// A game: at most four players, at most five rounds, mutated exclusively
/// through the operations below.
pub struct Game {
    id: String,
    players: Vec<Player>,
    rounds: Vec<Round>,
}

/// The view of a sequence of rounds.
pub open spec fn rounds_view(rs: Seq<Round>) -> Seq<RoundView> {
    Seq::new(rs.len(), |i: int| rs[i]@)
}

impl View for Game {
    type V = GameView;

    closed spec fn view(&self) -> GameView {
        GameView {
            id: self.id@,
            players: Seq::new(self.players@.len(), |i: int| self.players@[i].id@),
            rounds: rounds_view(self.rounds@),
        }
    }
}

/// A well-formed game: no more players or rounds than allowed, identities
/// unique, every round well formed and led by its round number's seat,
/// rounds only at a full table, and every round but the last complete.
pub open spec fn game_wf(g: GameView) -> bool {
    &&& g.players.len() <= 4
    &&& forall|i: int, j: int|
        0 <= i < j < g.players.len() ==> g.players[i] != g.players[j]
    &&& g.rounds.len() <= 5
    &&& g.rounds.len() >= 1 ==> g.players.len() == 4
    &&& forall|i: int| 0 <= i < g.rounds.len() ==> round_wf(#[trigger] g.rounds[i])
    &&& forall|i: int| 0 <= i < g.rounds.len() ==> (#[trigger] g.rounds[i]).start_seat == i % 4
    &&& forall|i: int|
        0 <= i < g.rounds.len() - 1 ==> spec_phase(#[trigger] g.rounds[i]) == State::Complete
}

/// The roster after one seating attempt: a repeated identity is refused
/// outright, a full table is refused, and otherwise the identity takes the
/// next seat.
pub open spec fn spec_add_player(players: Seq<Seq<char>>, id: Seq<char>) -> Result<
    Seq<Seq<char>>,
    GameError,
> {
    if players.contains(id) {
        Err(GameError::IdentityConflict)
    } else if players.len() >= 4 {
        Err(GameError::TableFull)
    } else {
        Ok(players.push(id))
    }
}

/// A repeated identity is always refused with an identity conflict, however
/// full the table is.
pub proof fn lemma_duplicate_identity_refused(players: Seq<Seq<char>>, id: Seq<char>)
    requires
        players.contains(id),
    ensures
        spec_add_player(players, id) == Err::<Seq<Seq<char>>, GameError>(
            GameError::IdentityConflict,
        ),
{
}

/// Seating four distinct identities at an empty table succeeds step by
/// step, each seat count equal to the number of seatings so far and the
/// roster listing the identities in call order; a fifth distinct identity
/// is then refused for capacity.
pub proof fn lemma_seating_in_order(
    a: Seq<char>,
    b: Seq<char>,
    c: Seq<char>,
    d: Seq<char>,
    e: Seq<char>,
)
    requires
        a != b && a != c && a != d && a != e,
        b != c && b != d && b != e,
        c != d && c != e,
        d != e,
    ensures
        spec_add_player(Seq::<Seq<char>>::empty(), a) == Ok::<_, GameError>(seq![a]),
        spec_add_player(seq![a], b) == Ok::<_, GameError>(seq![a, b]),
        spec_add_player(seq![a, b], c) == Ok::<_, GameError>(seq![a, b, c]),
        spec_add_player(seq![a, b, c], d) == Ok::<_, GameError>(seq![a, b, c, d]),
        spec_add_player(seq![a, b, c, d], e) == Err::<Seq<Seq<char>>, GameError>(
            GameError::TableFull,
        ),
{
    assert(!Seq::<Seq<char>>::empty().contains(a));
    assert(Seq::<Seq<char>>::empty().push(a) =~= seq![a]);
    assert(!seq![a].contains(b));
    assert(seq![a].push(b) =~= seq![a, b]);
    assert(!seq![a, b].contains(c));
    assert(seq![a, b].push(c) =~= seq![a, b, c]);
    assert(!seq![a, b, c].contains(d));
    assert(seq![a, b, c].push(d) =~= seq![a, b, c, d]);
    assert(!seq![a, b, c, d].contains(e));
}

/// The outcome of a call attempt: there must be a round in its calling
/// phase, and the caller must be the player whose turn it is.
pub open spec fn spec_call_outcome(g: GameView, player: Seq<char>) -> Result<(), GameError> {
    if g.rounds.len() == 0 {
        Err(GameError::NoActiveRound)
    } else {
        let rv = g.rounds.last();
        if spec_phase(rv) == State::Complete {
            Err(GameError::NoActiveRound)
        } else if spec_phase(rv) == State::Playing {
            Err(GameError::WrongPhase)
        } else if g.players[spec_next(rv)] != player {
            Err(GameError::OutOfTurn)
        } else {
            Ok(())
        }
    }
}

/// The outcome of a play attempt: there must be a round in its playing
/// phase, the player must be the seat whose turn it is, and that seat's
/// hand must hold the card.
pub open spec fn spec_playcard_outcome(g: GameView, player: Seq<char>, card: Card) -> Result<
    (),
    GameError,
> {
    if g.rounds.len() == 0 {
        Err(GameError::NoActiveRound)
    } else {
        let rv = g.rounds.last();
        if spec_phase(rv) == State::Complete {
            Err(GameError::NoActiveRound)
        } else if spec_phase(rv) == State::Calling {
            Err(GameError::WrongPhase)
        } else if g.players[spec_next(rv)] != player {
            Err(GameError::OutOfTurn)
        } else if !rv.hands[spec_next(rv)].contains(card) {
            Err(GameError::CardNotInHand)
        } else {
            Ok(())
        }
    }
}

/// The outcome of an attempt to start a round: the game must be under its
/// round ceiling, the table full, and no round still in progress.
pub open spec fn spec_start_round_outcome(g: GameView) -> Result<(), GameError> {
    if g.rounds.len() >= 5 {
        Err(GameError::GameFinished)
    } else if g.players.len() != 4 {
        Err(GameError::NotEnoughPlayers)
    } else if g.rounds.len() >= 1 && spec_phase(g.rounds.last()) != State::Complete {
        Err(GameError::WrongPhase)
    } else {
        Ok(())
    }
}

/// The game after a call accepted in turn: the last round records it.
pub open spec fn spec_called(g: GameView, v: u8) -> GameView {
    GameView {
        id: g.id,
        players: g.players,
        rounds: g.rounds.update(g.rounds.len() - 1, spec_record_call(g.rounds.last(), v)),
    }
}

/// The game after a card accepted in turn: the last round plays it.
pub open spec fn spec_played(g: GameView, card: Card) -> GameView {
    GameView {
        id: g.id,
        players: g.players,
        rounds: g.rounds.update(g.rounds.len() - 1, spec_play(g.rounds.last(), card)),
    }
}

/// What a successful round start guarantees: one round is appended, led by
/// the seat the round number picks, with no calls or tricks yet and with
/// four 13-card hands that together hold exactly the full 52-card deck.
/// The deal is random, so this is a relation, not a function, of the state.
pub open spec fn spec_started(g: GameView, g2: GameView) -> bool {
    &&& g2.id == g.id
    &&& g2.players == g.players
    &&& g2.rounds.len() == g.rounds.len() + 1
    &&& forall|i: int| 0 <= i < g.rounds.len() ==> g2.rounds[i] == g.rounds[i]
    &&& ({
        let rv = g2.rounds.last();
        &&& rv.start_seat == g.rounds.len() % 4
        &&& rv.calls.len() == 0
        &&& rv.tricks.len() == 0
        &&& rv.hands.len() == 4
        &&& forall|s: int| 0 <= s < 4 ==> (#[trigger] rv.hands[s]).len() == 13
        &&& rv.hands[0].to_multiset().add(rv.hands[1].to_multiset()).add(
            rv.hands[2].to_multiset(),
        ).add(rv.hands[3].to_multiset()) == full_deck().to_multiset()
    })
}

/// The seat whose turn it is, if a round is in progress.
pub open spec fn spec_current_turn(g: GameView) -> Result<int, GameError> {
    if g.rounds.len() == 0 || spec_phase(g.rounds.last()) == State::Complete {
        Err(GameError::NoActiveRound)
    } else {
        Ok(spec_next(g.rounds.last()))
    }
}

/// Relies on uuid's `Uuid::new_v4` for a fresh random identifier and on its
/// hyphenated text form, which is always 36 characters long.
#[verifier::external_body]
fn fresh_game_id() -> (r: String)
    ensures
        r@.len() == 36,
{
    uuid::Uuid::new_v4().hyphenated().to_string()
}

impl Game {
    /// A new game: a fresh identifier, nobody seated, no rounds played.
    pub fn new() -> (g: Game)
        ensures
            game_wf(g@),
            g@.players == Seq::<Seq<char>>::empty(),
            g@.rounds == Seq::<RoundView>::empty(),
            g@.id.len() == 36,
    {
        let g = Game { id: fresh_game_id(), players: Vec::new(), rounds: Vec::new() };
        proof {
            assert(g@.players =~= Seq::<Seq<char>>::empty());
            assert(g@.rounds =~= Seq::<RoundView>::empty());
        }
        g
    }

    /// The game's identifier.
    pub fn id(&self) -> (r: &String)
        ensures
            r@ == self@.id,
    {
        &self.id
    }

    /// How many players are seated.
    pub fn player_count(&self) -> (r: usize)
        ensures
            r as int == self@.players.len(),
    {
        self.players.len()
    }

    /// The identity seated at `seat`.
    pub fn player_id(&self, seat: usize) -> (r: &String)
        requires
            (seat as int) < self@.players.len(),
        ensures
            r@ == self@.players[seat as int],
    {
        &self.players[seat].id
    }

    /// How many rounds have been started.
    pub fn round_count(&self) -> (r: usize)
        ensures
            r as int == self@.rounds.len(),
    {
        self.rounds.len()
    }

    /// The round at position `index` in play order.
    pub fn round_at(&self, index: usize) -> (r: &Round)
        requires
            (index as int) < self@.rounds.len(),
        ensures
            r@ == self@.rounds[index as int],
    {
        &self.rounds[index]
    }

    /// Seats a player. A repeated identity is refused outright (and the
    /// roster is unchanged), a full table is refused, and otherwise the
    /// identity takes the next seat and the new seat count is returned.
    pub fn add_player(&mut self, player: &String) -> (r: Result<usize, GameError>)
        requires
            game_wf(old(self)@),
        ensures
            game_wf(final(self)@),
            final(self)@.id == old(self)@.id,
            final(self)@.rounds == old(self)@.rounds,
            match spec_add_player(old(self)@.players, player@) {
                Ok(ps) => r matches Ok(n) && n as int == ps.len() && final(self)@.players == ps,
                Err(e) => r == Err::<usize, GameError>(e) && final(self)@ == old(self)@,
            },
    {
        let ghost gv = old(self)@;
        let mut j: usize = 0;
        while j < self.players.len()
            invariant
                *self == *old(self),
                gv == old(self)@,
                game_wf(old(self)@),
                j <= self.players@.len(),
                forall|i: int| 0 <= i < j ==> self@.players[i] != player@,
            decreases self.players@.len() - j,
        {
            if self.players[j].id == *player {
                proof {
                    assert(self@.players[j as int] == player@);
                    assert(gv.players.contains(player@)) by {
                        assert(gv.players[j as int] == player@);
                    }
                }
                return Err(GameError::IdentityConflict);
            }
            j += 1;
        }
        proof {
            assert(!gv.players.contains(player@)) by {
                if gv.players.contains(player@) {
                    let w = choose|i: int|
                        0 <= i < gv.players.len() && gv.players[i] == player@;
                    assert(gv.players[w] != player@);
                }
            }
        }
        if self.players.len() >= 4 {
            return Err(GameError::TableFull);
        }
        self.players.push(Player { id: player.clone() });
        proof {
            assert(self@.players =~~= gv.players.push(player@));
        }
        Ok(self.players.len())
    }

    /// The seat whose turn it is, derived purely from the game state and
    /// mutating nothing; refused when no round is in progress.
    pub fn current_turn_seat(&self) -> (r: Result<usize, GameError>)
        requires
            game_wf(self@),
        ensures
            match spec_current_turn(self@) {
                Ok(t) => r matches Ok(s) && s as int == t && s < 4,
                Err(e) => r == Err::<usize, GameError>(e),
            },
    {
        if self.rounds.len() == 0 {
            return Err(GameError::NoActiveRound);
        }
        let last = self.rounds.len() - 1;
        proof {
            assert(self@.rounds[last as int] == self.rounds@[last as int]@);
        }
        if matches!(self.rounds[last].phase(), State::Complete) {
            return Err(GameError::NoActiveRound);
        }
        Ok(self.rounds[last].next())
    }

    /// Records a call. Accepted exactly when a round is in its calling
    /// phase and `player` sits at the seat whose turn it is; the call is
    /// appended, and the fourth call opens play.
    pub fn call(&mut self, player: &String, value: u8) -> (r: Result<(), GameError>)
        requires
            game_wf(old(self)@),
        ensures
            game_wf(final(self)@),
            r == spec_call_outcome(old(self)@, player@),
            r is Ok ==> final(self)@ == spec_called(old(self)@, value),
            r is Err ==> final(self)@ == old(self)@,
    {
        let ghost gv = old(self)@;
        if self.rounds.len() == 0 {
            return Err(GameError::NoActiveRound);
        }
        let last = self.rounds.len() - 1;
        proof {
            assert(self@.rounds[last as int] == self.rounds@[last as int]@);
        }
        match self.rounds[last].phase() {
            State::Complete => Err(GameError::NoActiveRound),
            State::Playing => Err(GameError::WrongPhase),
            State::Calling => {
                let t = self.rounds[last].next();
                if !(self.players[t].id == *player) {
                    proof {
                        assert(gv.players[t as int] != player@);
                    }
                    return Err(GameError::OutOfTurn);
                }
                let mut rd = match self.rounds.pop() {
                    Some(x) => x,
                    None => {
                        proof {
                            assert(false);
                        }
                        Round::new()
                    },
                };
                rd.record_call(value);
                self.rounds.push(rd);
                proof {
                    assert(self@.rounds =~~= gv.rounds.update(
                        gv.rounds.len() - 1,
                        spec_record_call(gv.rounds.last(), value),
                    ));
                    assert(self@.players =~~= gv.players);
                    assert(self@ == spec_called(gv, value));
                }
                Ok(())
            },
        }
    }

    /// Plays a card. Accepted exactly when a round is in its playing phase,
    /// `player` sits at the seat whose turn it is, and that seat's hand
    /// holds the card; the card then moves from the hand to the current
    /// trick, and a completed trick is resolved.
    pub fn playcard(&mut self, player: &String, card: Card) -> (r: Result<(), GameError>)
        requires
            game_wf(old(self)@),
        ensures
            game_wf(final(self)@),
            r == spec_playcard_outcome(old(self)@, player@, card),
            r is Ok ==> final(self)@ == spec_played(old(self)@, card),
            r is Err ==> final(self)@ == old(self)@,
    {
        let ghost gv = old(self)@;
        if self.rounds.len() == 0 {
            return Err(GameError::NoActiveRound);
        }
        let last = self.rounds.len() - 1;
        proof {
            assert(self@.rounds[last as int] == self.rounds@[last as int]@);
        }
        match self.rounds[last].phase() {
            State::Complete => Err(GameError::NoActiveRound),
            State::Calling => Err(GameError::WrongPhase),
            State::Playing => {
                let t = self.rounds[last].next();
                if !(self.players[t].id == *player) {
                    proof {
                        assert(gv.players[t as int] != player@);
                    }
                    return Err(GameError::OutOfTurn);
                }
                let mut rd = match self.rounds.pop() {
                    Some(x) => x,
                    None => {
                        proof {
                            assert(false);
                        }
                        Round::new()
                    },
                };
                let played = rd.playcard(card);
                self.rounds.push(rd);
                match played {
                    Ok(()) => {
                        proof {
                            assert(self@.rounds =~~= gv.rounds.update(
                                gv.rounds.len() - 1,
                                spec_play(gv.rounds.last(), card),
                            ));
                            assert(self@.players =~~= gv.players);
                            assert(self@ == spec_played(gv, card));
                        }
                        Ok(())
                    },
                    Err(e) => {
                        proof {
                            assert(self@.rounds =~~= gv.rounds);
                            assert(self@.players =~~= gv.players);
                            assert(self@ == gv);
                        }
                        Err(e)
                    },
                }
            },
        }
    }

    /// Starts the next round: refused past the round ceiling, below the
    /// four-player floor, or while a round is in progress. On success a
    /// fresh shuffled deck is dealt into four 13-card hands that together
    /// hold the full 52-card deck, and the round's starting seat rotates
    /// with the round number.
    pub fn start_round(&mut self) -> (r: Result<(), GameError>)
        requires
            game_wf(old(self)@),
        ensures
            game_wf(final(self)@),
            r == spec_start_round_outcome(old(self)@),
            r is Err ==> final(self)@ == old(self)@,
            r is Ok ==> spec_started(old(self)@, final(self)@),
    {
        let ghost gv = old(self)@;
        if self.rounds.len() >= 5 {
            return Err(GameError::GameFinished);
        }
        if self.players.len() != 4 {
            return Err(GameError::NotEnoughPlayers);
        }
        if self.rounds.len() >= 1 {
            let last = self.rounds.len() - 1;
            proof {
                assert(self@.rounds[last as int] == self.rounds@[last as int]@);
            }
            if !matches!(self.rounds[last].phase(), State::Complete) {
                return Err(GameError::WrongPhase);
            }
        }
        let deck = Deck::new();
        let start = self.rounds.len() % 4;
        let rd = Round::deal(start, &deck);
        let ghost rv = rd@;
        self.rounds.push(rd);
        proof {
            lemma_quarters_partition(deck@);
            assert(rv.hands[0].to_multiset().add(rv.hands[1].to_multiset()).add(
                rv.hands[2].to_multiset(),
            ).add(rv.hands[3].to_multiset()) == full_deck().to_multiset());
            assert(self@.rounds =~~= gv.rounds.push(rv));
            assert(self@.players =~~= gv.players);
            assert forall|s: int| 0 <= s < 4 implies (#[trigger] rv.hands[s]).len() == 13 by {
                assert(rv.hands[s] == deck@.subrange(13 * s, 13 * s + 13));
            }
            assert(spec_started(gv, self@));
        }
        Ok(())
    }

    /// A game from stored parts, as the persistence layer hands them back;
    /// accepted exactly when they form a well-formed game.
    pub fn from_parts(id: String, players: Vec<String>, rounds: Vec<Round>) -> (r: Option<Game>)
        ensures
            ({
                let gv = GameView {
                    id: id@,
                    players: Seq::new(players@.len(), |i: int| players@[i]@),
                    rounds: rounds_view(rounds@),
                };
                &&& r is Some <==> game_wf(gv)
                &&& r is Some ==> r->0@ == gv
            }),
    {
        let ghost pv = Seq::new(players@.len(), |i: int| players@[i]@);
        let ghost rv = rounds_view(rounds@);
        if players.len() > 4 {
            return None;
        }
        let mut i: usize = 1;
        while i < players.len()
            invariant
                pv == Seq::new(players@.len(), |k: int| players@[k]@),
                i <= players@.len() || players@.len() == 0,
                forall|a: int, b: int| 0 <= a < b < i ==> pv[a] != pv[b],
            decreases players@.len() - i,
        {
            let mut j: usize = 0;
            while j < i
                invariant
                    pv == Seq::new(players@.len(), |k: int| players@[k]@),
                    i < players@.len(),
                    j <= i,
                    forall|a: int, b: int| 0 <= a < b < i ==> pv[a] != pv[b],
                    forall|b: int| 0 <= b < j ==> pv[b] != pv[i as int],
                decreases i - j,
            {
                if players[j] == players[i] {
                    proof {
                        assert(pv[j as int] == pv[i as int]);
                    }
                    return None;
                }
                j += 1;
            }
            i += 1;
        }
        proof {
            assert forall|a: int, b: int| 0 <= a < b < pv.len() implies pv[a] != pv[b] by {}
        }
        if rounds.len() > 5 {
            return None;
        }
        if rounds.len() >= 1 && players.len() != 4 {
            return None;
        }
        let mut k: usize = 0;
        while k < rounds.len()
            invariant
                rv == rounds_view(rounds@),
                k <= rounds@.len(),
                rounds@.len() <= 5,
                forall|i: int| 0 <= i < k ==> round_wf(#[trigger] rv[i]),
                forall|i: int| 0 <= i < k ==> (#[trigger] rv[i]).start_seat == i % 4,
                forall|i: int| 0 <= i < k && i < rounds@.len() - 1 ==> spec_phase(#[trigger] rv[i])
                    == State::Complete,
            decreases rounds@.len() - k,
        {
            proof {
                assert(rv[k as int] == rounds@[k as int]@);
            }
            if !rounds[k].is_well_formed() {
                return None;
            }
            if rounds[k].start_seat() != k % 4 {
                return None;
            }
            if k < rounds.len() - 1 && !matches!(rounds[k].phase(), State::Complete) {
                return None;
            }
            k += 1;
        }
        let mut seated: Vec<Player> = Vec::new();
        let mut s: usize = 0;
        while s < players.len()
            invariant
                s <= players@.len(),
                seated@.len() == s,
                forall|i: int| 0 <= i < s ==> #[trigger] seated@[i].id@ == players@[i]@,
            decreases players@.len() - s,
        {
            seated.push(Player { id: players[s].clone() });
            s += 1;
        }
        let g = Game { id, players: seated, rounds };
        proof {
            assert(g@.players =~~= pv);
            assert(g@.rounds =~~= rv);
        }
        Some(g)
    }

    /// An identical copy of this game.
    pub fn duplicate(&self) -> (r: Game)
        requires
            game_wf(self@),
        ensures
            r@ == self@,
    {
        let id = self.id.clone();
        let mut players: Vec<Player> = Vec::new();
        let mut j: usize = 0;
        while j < self.players.len()
            invariant
                j <= self.players@.len(),
                players@.len() == j,
                forall|i: int| 0 <= i < j ==> #[trigger] players@[i].id@ == self.players@[i].id@,
            decreases self.players@.len() - j,
        {
            players.push(Player { id: self.players[j].id.clone() });
            j += 1;
        }
        let mut rounds: Vec<Round> = Vec::new();
        let mut i: usize = 0;
        while i < self.rounds.len()
            invariant
                i <= self.rounds@.len(),
                rounds@.len() == i,
                game_wf(self@),
                forall|k: int| 0 <= k < i ==> #[trigger] rounds@[k]@ == self.rounds@[k]@,
            decreases self.rounds@.len() - i,
        {
            proof {
                assert(round_wf(self@.rounds[i as int]));
                assert(self.rounds@[i as int]@ == self@.rounds[i as int]);
            }
            rounds.push(self.rounds[i].duplicate());
            i += 1;
        }
        let r = Game { id, players, rounds };
        proof {
            assert(r@.players =~~= self@.players);
            assert(r@.rounds =~~= self@.rounds);
            assert(r@ == self@);
        }
        r
    }
}

} // verus!
