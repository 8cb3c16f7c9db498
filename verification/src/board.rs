//! The table of one betting round: the deck, the seated players, the shared
//! middle cards, the stage counter and the per-player settle-flags.

use vstd::prelude::*;
use vstd::multiset::Multiset;
use crate::card::Card;
use crate::deck::{Deck, standard_multiset, lemma_standard_multiset_counts};
use crate::errors::{AdvanceError, GameError};
use crate::player::Player;
use crate::text::{lower_of, lowercase};

verus! {

/// A decision one player records during a betting stage.
#[derive(Clone, Copy, Debug, PartialEq, Eq, Structural)]
pub enum Decision {
    /// Raises the betting standard and reopens action for everyone else.
    Raise,
    /// Matches the current betting standard for this player only.
    Call,
}

/// What one turn of the driver led to.
#[derive(Clone, Copy, Debug, PartialEq, Eq, Structural)]
pub enum TurnOutcome {
    /// The stage is not settled yet; more decisions are needed.
    Pending,
    /// The stage settled and the table advanced to the next stage.
    StageAdvanced,
    /// The terminal stage is settled: the round is ready for showdown.
    RoundComplete,
}

/// The cards held in the hands of a seating-ordered list of players.
pub open spec fn hands_multiset(ps: Seq<Player>) -> Multiset<Card>
    decreases ps.len(),
{
    if ps.len() == 0 {
        Multiset::empty()
    } else {
        ps.first().cards@.to_multiset().add(hands_multiset(ps.drop_first()))
    }
}

/// Every settle-flag is set: each player has called or checked since the
/// last raise, or there was no raise and all have acted.
pub open spec fn all_settled(flags: Seq<bool>) -> bool {
    forall|i: int| 0 <= i < flags.len() ==> flags[i]
}

/// How many settle-flags are set.
pub open spec fn settled_count(flags: Seq<bool>) -> int
    decreases flags.len(),
{
    if flags.len() == 0 {
        0
    } else {
        settled_count(flags.drop_last()) + if flags.last() {
            1int
        } else {
            0int
        }
    }
}

/// The settle-flags after a decision by the player at `seat`: a call sets
/// that player's flag alone; a raise clears every flag and then sets the
/// raiser's, whatever the flags were before.
pub open spec fn flags_after(flags: Seq<bool>, seat: int, d: Decision) -> Seq<bool> {
    match d {
        Decision::Call => flags.update(seat, true),
        Decision::Raise => Seq::new(flags.len(), |j: int| j == seat),
    }
}

/// How many middle cards are revealed at a given stage: none before the
/// flop, then three, four, and all five from the river on.
pub open spec fn spec_revealed_count(stage: u8) -> int {
    if stage == 0 {
        0
    } else if stage == 1 {
        3
    } else if stage == 2 {
        4
    } else {
        5
    }
}

/// The seat of the first player at or after `from` whose stored name is
/// `key`, or the player count when there is none.
pub open spec fn spec_find_from(ps: Seq<Player>, key: Seq<char>, from: int) -> int
    decreases ps.len() - from,
{
    if from < 0 || from >= ps.len() {
        ps.len() as int
    } else if ps[from].name@ == key {
        from
    } else {
        spec_find_from(ps, key, from + 1)
    }
}

/// The seat of the first player whose stored name is `key`, or the player
/// count when there is none.
pub open spec fn spec_find(ps: Seq<Player>, key: Seq<char>) -> int {
    spec_find_from(ps, key, 0)
}

/// The hand the player at seat `j` of `n` holds after `k` round-robin
/// passes dealt off the top (the end) of the shuffled order `s`.
spec fn dealt_hand(s: Seq<Card>, n: int, j: int, k: int) -> Seq<Card> {
    if k <= 0 {
        Seq::empty()
    } else if k == 1 {
        seq![s[51 - j]]
    } else {
        seq![s[51 - j], s[51 - n - j]]
    }
}

/// The table holds one fresh deal from the shuffled order `s` (a
/// permutation of the standard deck, dealt from the top, that is the
/// end): two round-robin passes give seat `i` the cards `s[51 - i]` and
/// `s[51 - n - i]`, the next five cards fill the middle area in order,
/// and the rest remains as the deck.
pub open spec fn dealt_from(b: Board, s: Seq<Card>, n: int) -> bool {
    &&& s.len() == 52
    &&& s.to_multiset() == standard_multiset()
    &&& b.deck.cards@ == s.take(52 - 2 * n - 5)
    &&& forall|i: int|
        #![trigger b.players@[i]]
        0 <= i < n ==> b.players@[i].cards@ == seq![s[51 - i], s[51 - n - i]]
    &&& forall|j: int|
        #![trigger b.middle_cards@[j]]
        0 <= j < 5 ==> b.middle_cards@[j] == s[51 - 2 * n - j]
}

/// The table of one round.
#[derive(Debug)]
pub struct Board {
    /// The betting stage: 0 before the flop, terminal at 3 (showdown).
    pub round: u8,
    /// The players in fixed seating order.
    pub players: Vec<Player>,
    /// The settle-flags, parallel to the seating order.
    pub players_done: Vec<bool>,
    /// The cards not yet dealt.
    pub deck: Deck,
    /// The shared middle area, dealt to five cards at round start.
    pub middle_cards: Vec<Card>,
}

impl Board {
    /// Every card of the table - deck, hands and middle area - as one
    /// unordered collection.
    pub open spec fn all_cards(self) -> Multiset<Card> {
        self.deck.cards@.to_multiset().add(hands_multiset(self.players@)).add(
            self.middle_cards@.to_multiset(),
        )
    }

    /// Table well-formedness: one settle-flag per seat, a stage no later
    /// than showdown, and the deck, hands and middle area together holding
    /// exactly the 52 standard cards.
    pub open spec fn wf(self) -> bool {
        &&& self.players_done@.len() == self.players@.len()
        &&& self.round <= 3
        &&& self.all_cards() == standard_multiset()
    }
}

/// A sequence of empty hands holds no cards.
proof fn lemma_hands_all_empty(ps: Seq<Player>)
    requires
        forall|i: int| 0 <= i < ps.len() ==> ps[i].cards@.len() == 0,
    ensures
        hands_multiset(ps) == Multiset::<Card>::empty(),
    decreases ps.len(),
{
    broadcast use vstd::seq_lib::group_to_multiset_ensures;

    if ps.len() > 0 {
        lemma_empty_seq_multiset(ps.first().cards@);
        lemma_hands_all_empty(ps.drop_first());
        assert(hands_multiset(ps) =~= Multiset::<Card>::empty());
    }
}

/// An empty sequence of cards converts to the empty multiset.
proof fn lemma_empty_seq_multiset(s: Seq<Card>)
    requires
        s.len() == 0,
    ensures
        s.to_multiset() == Multiset::<Card>::empty(),
{
    broadcast use vstd::seq_lib::group_to_multiset_ensures;

    assert(s.to_multiset().len() == 0);
    assert(s.to_multiset() =~= Multiset::<Card>::empty());
}

/// Giving one card to the player at seat `i` inserts that card into the
/// collection of all hands.
proof fn lemma_hands_update_push(ps: Seq<Player>, i: int, q: Player, c: Card)
    requires
        0 <= i < ps.len(),
        q.cards@ == ps[i].cards@.push(c),
    ensures
        hands_multiset(ps.update(i, q)) == hands_multiset(ps).insert(c),
    decreases ps.len(),
{
    broadcast use vstd::seq_lib::group_to_multiset_ensures;

    if i == 0 {
        assert(ps.update(0, q).drop_first() =~= ps.drop_first());
        assert(hands_multiset(ps.update(0, q)) =~= hands_multiset(ps).insert(c));
    } else {
        assert(ps.update(i, q).drop_first() =~= ps.drop_first().update(i - 1, q));
        lemma_hands_update_push(ps.drop_first(), i - 1, q, c);
        assert(hands_multiset(ps.update(i, q)) =~= hands_multiset(ps).insert(c));
    }
}

/// A card in some player's hand counts at least once among all hands.
proof fn lemma_hands_count_member(ps: Seq<Player>, i: int, c: Card)
    requires
        0 <= i < ps.len(),
        ps[i].cards@.contains(c),
    ensures
        hands_multiset(ps).count(c) >= 1,
    decreases ps.len(),
{
    broadcast use vstd::seq_lib::group_to_multiset_ensures;

    if i == 0 {
        assert(ps.first().cards@.to_multiset().count(c) > 0);
    } else {
        lemma_hands_count_member(ps.drop_first(), i - 1, c);
    }
}

/// A mutable reference to the player at seat `i`.
fn seat_mut(players: &mut Vec<Player>, i: usize) -> (p: &mut Player)
    requires
        i < old(players)@.len(),
    ensures
        *p == old(players)@[i as int],
        final(players)@ == old(players)@.update(i as int, *final(p)),
{
    &mut players[i]
}

impl Board {
    /// Draws the top card into the hand of the player at seat `i`, or
    /// reports exhaustion on an empty deck, leaving the table unchanged.
    fn deal_card_to_seat(&mut self, i: usize) -> (r: Result<(), GameError>)
        requires
            i < old(self).players@.len(),
        ensures
            final(self).round == old(self).round,
            final(self).players_done == old(self).players_done,
            final(self).middle_cards == old(self).middle_cards,
            final(self).all_cards() == old(self).all_cards(),
            final(self).players@.len() == old(self).players@.len(),
            match r {
                Ok(()) => {
                    &&& old(self).deck.cards@.len() > 0
                    &&& final(self).deck.cards@ == old(self).deck.cards@.drop_last()
                    &&& final(self).players@[i as int].cards@ == old(self).players@[
                        i as int
                    ].cards@.push(old(self).deck.cards@.last())
                    &&& final(self).players@[i as int].name == old(self).players@[i as int].name
                    &&& final(self).players@[i as int].balance == old(self).players@[
                        i as int
                    ].balance
                    &&& final(self).players@[i as int].bet == old(self).players@[i as int].bet
                    &&& forall|k: int|
                        0 <= k < old(self).players@.len() && k != i ==> final(self).players@[k]
                            == old(self).players@[k]
                },
                Err(e) => {
                    &&& e == GameError::DeckExhausted
                    &&& old(self).deck.cards@.len() == 0
                    &&& final(self).deck.cards@ == old(self).deck.cards@
                    &&& final(self).players == old(self).players
                },
            },
    {
        broadcast use vstd::seq_lib::group_to_multiset_ensures;

        let ghost prev = *self;
        match self.deck.draw() {
            Ok(c) => {
                proof {
                    assert(prev.deck.cards@ =~= prev.deck.cards@.drop_last().push(c));
                }
                let seat = seat_mut(&mut self.players, i);
                seat.cards.push(c);
                proof {
                    lemma_hands_update_push(prev.players@, i as int, self.players@[i as int], c);
                    assert(self.all_cards() =~= prev.all_cards());
                }
                Ok(())
            },
            Err(e) => Err(e),
        }
    }

    /// Draws the top card into the shared middle area, or reports
    /// exhaustion on an empty deck, leaving the table unchanged.
    pub fn draw_middle(&mut self) -> (r: Result<(), GameError>)
        ensures
            final(self).round == old(self).round,
            final(self).players == old(self).players,
            final(self).players_done == old(self).players_done,
            final(self).all_cards() == old(self).all_cards(),
            match r {
                Ok(()) => {
                    &&& old(self).deck.cards@.len() > 0
                    &&& final(self).deck.cards@ == old(self).deck.cards@.drop_last()
                    &&& final(self).middle_cards@ == old(self).middle_cards@.push(
                        old(self).deck.cards@.last(),
                    )
                },
                Err(e) => {
                    &&& e == GameError::DeckExhausted
                    &&& old(self).deck.cards@.len() == 0
                    &&& final(self).deck.cards@ == old(self).deck.cards@
                    &&& final(self).middle_cards == old(self).middle_cards
                },
            },
    {
        broadcast use vstd::seq_lib::group_to_multiset_ensures;

        let ghost prev = *self;
        match self.deck.draw() {
            Ok(c) => {
                proof {
                    assert(prev.deck.cards@ =~= prev.deck.cards@.drop_last().push(c));
                }
                self.middle_cards.push(c);
                proof {
                    assert(self.all_cards() =~= prev.all_cards());
                }
                Ok(())
            },
            Err(e) => Err(e),
        }
    }

    /// Builds the table for a fresh round: a newly shuffled full deck, two
    /// cards dealt round-robin to each player in seating order, five cards
    /// drawn into the middle area, stage 0, and every settle-flag clear.
    /// At most 23 players fit the fixed deal pattern of a 52-card deck.
    pub fn new(p: Vec<Player>) -> (b: Board)
        requires
            p@.len() <= 23,
            forall|i: int| 0 <= i < p@.len() ==> p@[i].cards@.len() == 0,
        ensures
            b.wf(),
            b.round == 0,
            b.players@.len() == p@.len(),
            forall|i: int|
                #![trigger b.players@[i]]
                0 <= i < p@.len() ==> {
                    &&& b.players@[i].name == p@[i].name
                    &&& b.players@[i].balance == p@[i].balance
                    &&& b.players@[i].bet == p@[i].bet
                    &&& b.players@[i].cards@.len() == 2
                },
            b.players_done@.len() == p@.len(),
            forall|i: int| 0 <= i < p@.len() ==> !b.players_done@[i],
            b.middle_cards@.len() == 5,
            b.deck.cards@.len() == 52 - 2 * p@.len() - 5,
            exists|s: Seq<Card>| dealt_from(b, s, p@.len() as int),
    {
        broadcast use vstd::seq_lib::group_to_multiset_ensures;
        broadcast use vstd::multiset::group_multiset_axioms;

        let ghost seats = p@;
        let n = p.len();
        let mut deck = Deck::create_deck();
        deck.shuffle_deck();
        let mut players_done: Vec<bool> = Vec::new();
        let mut f: usize = 0;
        while f < n
            invariant
                players_done@.len() == f,
                f <= n,
                forall|j: int| 0 <= j < f ==> !players_done@[j],
            decreases n - f,
        {
            players_done.push(false);
            f = f + 1;
        }
        let mut board = Board {
            round: 0,
            players: p,
            players_done,
            deck,
            middle_cards: Vec::new(),
        };
        let ghost s0 = board.deck.cards@;
        proof {
            lemma_hands_all_empty(board.players@);
            lemma_empty_seq_multiset(board.middle_cards@);
            assert(board.all_cards() =~= standard_multiset());
            assert(board.deck.cards@ =~= s0.take(52 - 0));
        }
        let mut pass: usize = 0;
        while pass < 2
            invariant
                n == seats.len(),
                n <= 23,
                pass <= 2,
                s0.len() == 52,
                s0.to_multiset() == standard_multiset(),
                board.round == 0,
                board.players@.len() == n,
                board.players_done@.len() == n,
                forall|j: int| 0 <= j < n ==> !board.players_done@[j],
                board.middle_cards@.len() == 0,
                board.all_cards() == standard_multiset(),
                board.deck.cards@.len() == 52 - pass * n,
                board.deck.cards@ == s0.take(52 - pass * n),
                forall|j: int|
                    #![trigger board.players@[j]]
                    0 <= j < n ==> {
                        &&& board.players@[j].cards@.len() == pass
                        &&& board.players@[j].cards@ == dealt_hand(s0, n as int, j, pass as int)
                        &&& board.players@[j].name == seats[j].name
                        &&& board.players@[j].balance == seats[j].balance
                        &&& board.players@[j].bet == seats[j].bet
                    },
            decreases 2 - pass,
        {
            let mut i: usize = 0;
            while i < n
                invariant
                    n == seats.len(),
                    n <= 23,
                    pass < 2,
                    i <= n,
                    s0.len() == 52,
                    s0.to_multiset() == standard_multiset(),
                    board.round == 0,
                    board.players@.len() == n,
                    board.players_done@.len() == n,
                    forall|j: int| 0 <= j < n ==> !board.players_done@[j],
                    board.middle_cards@.len() == 0,
                    board.all_cards() == standard_multiset(),
                    board.deck.cards@.len() == 52 - pass * n - i,
                    board.deck.cards@ == s0.take(52 - pass * n - i),
                    forall|j: int|
                        #![trigger board.players@[j]]
                        0 <= j < n ==> {
                            &&& board.players@[j].cards@.len() == (if j < i {
                                pass + 1
                            } else {
                                pass as int
                            })
                            &&& board.players@[j].cards@ == dealt_hand(
                                s0,
                                n as int,
                                j,
                                pass + (if j < i {
                                    1int
                                } else {
                                    0int
                                }),
                            )
                            &&& board.players@[j].name == seats[j].name
                            &&& board.players@[j].balance == seats[j].balance
                            &&& board.players@[j].bet == seats[j].bet
                        },
                decreases n - i,
            {
                proof {
                    assert(pass * n + i < 2 * n) by (nonlinear_arith)
                        requires
                            0 <= pass < 2 && 0 <= i < n,
                    ;
                    assert(board.deck.cards@.len() > 0);
                }
                let ghost pre = board;
                match board.deal_card_to_seat(i) {
                    Ok(()) => {},
                    Err(_) => {
                        proof {
                            assert(false);
                        }
                    },
                }
                proof {
                    let ki: int = 52 - pass * n - i;
                    assert(pre.deck.cards@ == s0.take(ki));
                    assert(s0.take(ki).drop_last() =~= s0.take(ki - 1));
                    assert(s0.take(ki).last() == s0[ki - 1]);
                    if pass == 0 {
                        assert(pass * n == 0) by (nonlinear_arith)
                            requires pass == 0;
                        assert(board.players@[i as int].cards@ =~= seq![s0[51 - i]]);
                        assert(board.players@[i as int].cards@ == dealt_hand(
                            s0,
                            n as int,
                            i as int,
                            1,
                        ));
                    } else {
                        assert(pass * n == n) by (nonlinear_arith)
                            requires pass == 1;
                        assert(pre.players@[i as int].cards@ == seq![s0[51 - i]]);
                        assert(board.players@[i as int].cards@ =~= seq![
                            s0[51 - i],
                            s0[51 - n - i],
                        ]);
                    }
                }
                i = i + 1;
            }
            proof {
                assert((pass + 1) * n == pass * n + n) by (nonlinear_arith);
            }
            pass = pass + 1;
        }
        proof {
            assert(pass * n == 2 * n) by (nonlinear_arith)
                requires pass == 2;
        }
        let mut m: usize = 0;
        while m < 5
            invariant
                n == seats.len(),
                n <= 23,
                m <= 5,
                s0.len() == 52,
                s0.to_multiset() == standard_multiset(),
                board.round == 0,
                board.players@.len() == n,
                board.players_done@.len() == n,
                forall|j: int| 0 <= j < n ==> !board.players_done@[j],
                board.middle_cards@.len() == m,
                forall|j: int|
                    #![trigger board.middle_cards@[j]]
                    0 <= j < m ==> board.middle_cards@[j] == s0[51 - 2 * n - j],
                board.all_cards() == standard_multiset(),
                board.deck.cards@.len() == 52 - 2 * n - m,
                board.deck.cards@ == s0.take(52 - 2 * n - m),
                forall|j: int|
                    #![trigger board.players@[j]]
                    0 <= j < n ==> {
                        &&& board.players@[j].cards@.len() == 2
                        &&& board.players@[j].cards@ == dealt_hand(s0, n as int, j, 2)
                        &&& board.players@[j].name == seats[j].name
                        &&& board.players@[j].balance == seats[j].balance
                        &&& board.players@[j].bet == seats[j].bet
                    },
            decreases 5 - m,
        {
            proof {
                assert(board.deck.cards@.len() > 0);
            }
            let ghost pre = board;
            match board.draw_middle() {
                Ok(()) => {},
                Err(_) => {
                    proof {
                        assert(false);
                    }
                },
            }
            proof {
                let km: int = 52 - 2 * n - m;
                assert(pre.deck.cards@ == s0.take(km));
                assert(s0.take(km).drop_last() =~= s0.take(km - 1));
                assert(s0.take(km).last() == s0[km - 1]);
            }
            m = m + 1;
        }
        proof {
            assert forall|i2: int| 0 <= i2 < n implies board.players@[i2].cards@ == seq![
                s0[51 - i2],
                s0[51 - n - i2],
            ] by {
                assert(board.players@[i2].cards@ == dealt_hand(s0, n as int, i2, 2));
            }
            assert(dealt_from(board, s0, n as int));
        }
        board
    }

    /// Records one player's decision for the current stage: a call settles
    /// that player alone and touches nobody else's flag; a raise reopens
    /// the stage, leaving only the raiser settled, whatever the flags were
    /// before. Repeating a decision with no new raise in between changes
    /// nothing further.
    pub fn record_decision(&mut self, seat: usize, d: Decision)
        requires
            seat < old(self).players_done@.len(),
        ensures
            final(self).players_done@ == flags_after(old(self).players_done@, seat as int, d),
            final(self).round == old(self).round,
            final(self).players == old(self).players,
            final(self).deck == old(self).deck,
            final(self).middle_cards == old(self).middle_cards,
    {
        let ghost prev = old(self).players_done@;
        match d {
            Decision::Raise => {
                let n = self.players_done.len();
                let mut flags: Vec<bool> = Vec::new();
                let mut j: usize = 0;
                while j < n
                    invariant
                        j <= n,
                        flags@.len() == j,
                        forall|k: int| 0 <= k < j ==> flags@[k] == (k == seat as int),
                    decreases n - j,
                {
                    flags.push(j == seat);
                    j = j + 1;
                }
                self.players_done = flags;
                proof {
                    assert(self.players_done@ =~= flags_after(prev, seat as int, d));
                }
            },
            Decision::Call => {
                self.players_done[seat] = true;
            },
        }
    }

    /// Whether the stage is settled: every player has called or checked
    /// since the last raise.
    pub fn is_stage_settled(&self) -> (r: bool)
        ensures
            r == all_settled(self.players_done@),
    {
        let n = self.players_done.len();
        let mut j: usize = 0;
        while j < n
            invariant
                j <= n,
                n == self.players_done@.len(),
                forall|k: int| 0 <= k < j ==> self.players_done@[k],
            decreases n - j,
        {
            if !self.players_done[j] {
                return false;
            }
            j = j + 1;
        }
        true
    }

    /// How many players have settled this stage.
    pub fn count_settled(&self) -> (n: usize)
        ensures
            n as int == settled_count(self.players_done@),
    {
        let len = self.players_done.len();
        let mut total: usize = 0;
        let mut j: usize = 0;
        while j < len
            invariant
                j <= len,
                len == self.players_done@.len(),
                total <= j,
                total as int == settled_count(self.players_done@.take(j as int)),
            decreases len - j,
        {
            proof {
                assert(self.players_done@.take(j as int + 1).drop_last() =~= self.players_done@.take(
                    j as int,
                ));
                assert(self.players_done@.take(j as int + 1).last() == self.players_done@[j as int]);
            }
            if self.players_done[j] {
                total = total + 1;
            }
            j = j + 1;
        }
        proof {
            assert(self.players_done@.take(len as int) =~= self.players_done@);
        }
        total
    }

    /// Advances the stage once every player has settled: the flags reset
    /// to all-false and the stage counter increases. An unsettled stage or
    /// a round already at showdown is refused and nothing changes.
    pub fn advance_stage(&mut self) -> (r: Result<(), AdvanceError>)
        ensures
            final(self).players == old(self).players,
            final(self).deck == old(self).deck,
            final(self).middle_cards == old(self).middle_cards,
            match r {
                Ok(()) => {
                    &&& all_settled(old(self).players_done@)
                    &&& old(self).round < 3
                    &&& final(self).round == old(self).round + 1
                    &&& final(self).players_done@.len() == old(self).players_done@.len()
                    &&& forall|j: int|
                        0 <= j < final(self).players_done@.len() ==> !final(self).players_done@[j]
                },
                Err(AdvanceError::StageNotSettled) => {
                    &&& !all_settled(old(self).players_done@)
                    &&& final(self).round == old(self).round
                    &&& final(self).players_done == old(self).players_done
                },
                Err(AdvanceError::RoundOver) => {
                    &&& all_settled(old(self).players_done@)
                    &&& old(self).round >= 3
                    &&& final(self).round == old(self).round
                    &&& final(self).players_done == old(self).players_done
                },
            },
    {
        if !self.is_stage_settled() {
            return Err(AdvanceError::StageNotSettled);
        }
        if self.round >= 3 {
            return Err(AdvanceError::RoundOver);
        }
        self.round = self.round + 1;
        let n = self.players_done.len();
        let mut flags: Vec<bool> = Vec::new();
        let mut j: usize = 0;
        while j < n
            invariant
                j <= n,
                flags@.len() == j,
                forall|k: int| 0 <= k < j ==> !flags@[k],
            decreases n - j,
        {
            flags.push(false);
            j = j + 1;
        }
        self.players_done = flags;
        Ok(())
    }

    /// How many middle cards are revealed at the current stage.
    pub fn revealed_middle_count(&self) -> (n: usize)
        ensures
            n as int == spec_revealed_count(self.round),
    {
        if self.round == 0 {
            0
        } else if self.round == 1 {
            3
        } else if self.round == 2 {
            4
        } else {
            5
        }
    }

    /// Whether the round reached the terminal showdown stage.
    pub fn is_round_over(&self) -> (r: bool)
        ensures
            r == (self.round >= 3),
    {
        self.round >= 3
    }

    /// One turn of the driver: records the decision of the player at
    /// `seat` and, when that settles the stage, advances it; a settled
    /// terminal stage completes the round instead of advancing.
    pub fn play_turn(&mut self, seat: usize, d: Decision) -> (r: TurnOutcome)
        requires
            seat < old(self).players_done@.len(),
        ensures
            final(self).players == old(self).players,
            final(self).deck == old(self).deck,
            final(self).middle_cards == old(self).middle_cards,
            final(self).players_done@.len() == old(self).players_done@.len(),
            ({
                let after = flags_after(old(self).players_done@, seat as int, d);
                match r {
                    TurnOutcome::Pending => {
                        &&& !all_settled(after)
                        &&& final(self).players_done@ == after
                        &&& final(self).round == old(self).round
                    },
                    TurnOutcome::StageAdvanced => {
                        &&& all_settled(after)
                        &&& old(self).round < 3
                        &&& final(self).round == old(self).round + 1
                        &&& forall|j: int|
                            0 <= j < final(self).players_done@.len()
                                ==> !final(self).players_done@[j]
                    },
                    TurnOutcome::RoundComplete => {
                        &&& all_settled(after)
                        &&& old(self).round >= 3
                        &&& final(self).players_done@ == after
                        &&& final(self).round == old(self).round
                    },
                }
            }),
    {
        self.record_decision(seat, d);
        if self.is_stage_settled() {
            match self.advance_stage() {
                Ok(()) => TurnOutcome::StageAdvanced,
                Err(AdvanceError::RoundOver) => TurnOutcome::RoundComplete,
                Err(AdvanceError::StageNotSettled) => {
                    proof {
                        assert(false);
                    }
                    TurnOutcome::Pending
                },
            }
        } else {
            TurnOutcome::Pending
        }
    }

    /// The seat of the first player whose stored name equals `key`, if any.
    fn find_seat(&self, key: &String) -> (r: Option<usize>)
        ensures
            match r {
                Some(i) => i < self.players@.len() && spec_find(self.players@, key@) == i as int,
                None => spec_find(self.players@, key@) == self.players@.len(),
            },
    {
        let n = self.players.len();
        let mut i: usize = 0;
        while i < n
            invariant
                i <= n,
                n == self.players@.len(),
                forall|j: int| 0 <= j < i ==> self.players@[j].name@ != key@,
            decreases n - i,
        {
            if self.players[i].name == *key {
                proof {
                    lemma_find_skip(self.players@, key@, i as int);
                }
                return Some(i);
            }
            i = i + 1;
        }
        proof {
            lemma_find_skip(self.players@, key@, n as int);
        }
        None
    }

    /// Draws the top card into the hand of the first player whose stored
    /// name matches the lower-cased `name`; reports an unknown player or
    /// an exhausted deck, leaving the table unchanged.
    pub fn draw_player(&mut self, name: &str) -> (r: Result<(), GameError>)
        ensures
            final(self).round == old(self).round,
            final(self).players_done == old(self).players_done,
            final(self).middle_cards == old(self).middle_cards,
            final(self).all_cards() == old(self).all_cards(),
            final(self).players@.len() == old(self).players@.len(),
            ({
                let j = spec_find(old(self).players@, lower_of(name@));
                match r {
                    Ok(()) => {
                        &&& j < old(self).players@.len()
                        &&& old(self).deck.cards@.len() > 0
                        &&& final(self).deck.cards@ == old(self).deck.cards@.drop_last()
                        &&& final(self).players@[j].cards@ == old(self).players@[j].cards@.push(
                            old(self).deck.cards@.last(),
                        )
                        &&& final(self).players@[j].name == old(self).players@[j].name
                        &&& final(self).players@[j].balance == old(self).players@[j].balance
                        &&& final(self).players@[j].bet == old(self).players@[j].bet
                        &&& forall|k: int|
                            0 <= k < old(self).players@.len() && k != j ==> final(self).players@[k]
                                == old(self).players@[k]
                    },
                    Err(GameError::PlayerNotFound) => {
                        &&& j == old(self).players@.len()
                        &&& final(self).players == old(self).players
                        &&& final(self).deck == old(self).deck
                    },
                    Err(GameError::DeckExhausted) => {
                        &&& j < old(self).players@.len()
                        &&& old(self).deck.cards@.len() == 0
                        &&& final(self).players == old(self).players
                        &&& final(self).deck.cards@ == old(self).deck.cards@
                    },
                }
            }),
    {
        let key = lowercase(name);
        match self.find_seat(&key) {
            Some(i) => self.deal_card_to_seat(i),
            None => Err(GameError::PlayerNotFound),
        }
    }

    /// A read-only view of the hand of the first player whose stored name
    /// matches the lower-cased `name`.
    pub fn get_cards(&self, name: &str) -> (r: Result<&Vec<Card>, GameError>)
        ensures
            match r {
                Ok(cards) => {
                    &&& spec_find(self.players@, lower_of(name@)) < self.players@.len()
                    &&& cards@ == self.players@[spec_find(self.players@, lower_of(name@))].cards@
                },
                Err(e) => {
                    &&& e == GameError::PlayerNotFound
                    &&& spec_find(self.players@, lower_of(name@)) == self.players@.len()
                },
            },
    {
        let key = lowercase(name);
        match self.find_seat(&key) {
            Some(i) => Ok(&self.players[i].cards),
            None => Err(GameError::PlayerNotFound),
        }
    }
}

/// While no player before seat `i` matches, the search from seat 0 agrees
/// with the search from seat `i`.
proof fn lemma_find_skip(ps: Seq<Player>, key: Seq<char>, i: int)
    requires
        0 <= i <= ps.len(),
        forall|j: int| 0 <= j < i ==> ps[j].name@ != key,
    ensures
        spec_find(ps, key) == spec_find_from(ps, key, i),
    decreases i,
{
    if i > 0 {
        lemma_find_skip(ps, key, i - 1);
    }
}

/// A card held in two different hands counts at least twice among all hands.
proof fn lemma_hands_count_two(ps: Seq<Player>, i: int, j: int, c: Card)
    requires
        0 <= i < j < ps.len(),
        ps[i].cards@.contains(c),
        ps[j].cards@.contains(c),
    ensures
        hands_multiset(ps).count(c) >= 2,
    decreases ps.len(),
{
    broadcast use vstd::seq_lib::group_to_multiset_ensures;
    broadcast use vstd::multiset::group_multiset_axioms;

    if i == 0 {
        assert(ps.first().cards@.to_multiset().count(c) > 0);
        lemma_hands_count_member(ps.drop_first(), j - 1, c);
    } else {
        lemma_hands_count_two(ps.drop_first(), i - 1, j - 1, c);
    }
}

/// Law: under the table invariant a card still in the deck lies in no
/// hand and not in the middle area, so a draw hands out a card not
/// previously dealt this round.
pub proof fn lemma_deck_card_undealt(b: Board, c: Card)
    requires
        b.wf(),
        b.deck.cards@.contains(c),
    ensures
        !b.middle_cards@.contains(c),
        forall|i: int| 0 <= i < b.players@.len() ==> !b.players@[i].cards@.contains(c),
{
    broadcast use vstd::seq_lib::group_to_multiset_ensures;
    broadcast use vstd::multiset::group_multiset_axioms;

    lemma_standard_multiset_counts();
    assert(b.deck.cards@.to_multiset().count(c) > 0);
    assert(b.all_cards().count(c) <= 1);
    if b.middle_cards@.contains(c) {
        assert(b.middle_cards@.to_multiset().count(c) > 0);
        assert(false);
    }
    assert forall|i: int| 0 <= i < b.players@.len() implies !b.players@[i].cards@.contains(c) by {
        if b.players@[i].cards@.contains(c) {
            lemma_hands_count_member(b.players@, i, c);
            assert(false);
        }
    }
}

/// Law: under the table invariant a card in one player's hand lies in no
/// other hand, not in the middle area and not in the deck: no card is in
/// two places at once.
pub proof fn lemma_hand_card_unique(b: Board, i: int, c: Card)
    requires
        b.wf(),
        0 <= i < b.players@.len(),
        b.players@[i].cards@.contains(c),
    ensures
        !b.deck.cards@.contains(c),
        !b.middle_cards@.contains(c),
        forall|j: int|
            0 <= j < b.players@.len() && j != i ==> !b.players@[j].cards@.contains(c),
{
    broadcast use vstd::seq_lib::group_to_multiset_ensures;
    broadcast use vstd::multiset::group_multiset_axioms;

    lemma_standard_multiset_counts();
    lemma_hands_count_member(b.players@, i, c);
    assert(b.all_cards().count(c) <= 1);
    if b.deck.cards@.contains(c) {
        assert(b.deck.cards@.to_multiset().count(c) > 0);
        assert(false);
    }
    if b.middle_cards@.contains(c) {
        assert(b.middle_cards@.to_multiset().count(c) > 0);
        assert(false);
    }
    assert forall|j: int|
        0 <= j < b.players@.len() && j != i implies !b.players@[j].cards@.contains(c) by {
        if b.players@[j].cards@.contains(c) {
            if i < j {
                lemma_hands_count_two(b.players@, i, j, c);
            } else {
                lemma_hands_count_two(b.players@, j, i, c);
            }
            assert(false);
        }
    }
}

/// The settle-flags after the first `k` players, in seating order, have
/// each recorded a call.
pub open spec fn calls_in_order(flags: Seq<bool>, k: int) -> Seq<bool>
    decreases k,
{
    if k <= 0 {
        flags
    } else {
        flags_after(calls_in_order(flags, k - 1), k - 1, Decision::Call)
    }
}

/// After `k` calls in seating order a flag is set exactly when its seat
/// already was, or comes before seat `k`.
proof fn lemma_calls_in_order_index(flags: Seq<bool>, k: int, j: int)
    requires
        0 <= k <= flags.len(),
        0 <= j < flags.len(),
    ensures
        calls_in_order(flags, k).len() == flags.len(),
        calls_in_order(flags, k)[j] == (j < k || flags[j]),
    decreases k,
{
    if k > 0 {
        lemma_calls_in_order_index(flags, k - 1, j);
    }
}

/// Law: starting from a stage where no player has settled, if the players
/// call one after another in seating order, the stage becomes settled
/// exactly with the last player's call - true after the `n`-th call and
/// false before. A call updates exactly the caller's flag, as
/// `record_decision` ensures.
pub proof fn lemma_calls_settle_in_seating_order(flags: Seq<bool>, k: int)
    requires
        0 <= k <= flags.len(),
        forall|i: int| 0 <= i < flags.len() ==> !flags[i],
    ensures
        all_settled(calls_in_order(flags, k)) <==> k == flags.len(),
{
    assert forall|j: int| 0 <= j < flags.len() implies calls_in_order(flags, k).len()
        == flags.len() && calls_in_order(flags, k)[j] == (j < k) by {
        lemma_calls_in_order_index(flags, k, j);
    }
    if k < flags.len() {
        assert(!calls_in_order(flags, k)[k]);
        assert(!all_settled(calls_in_order(flags, k)));
    } else {
        if flags.len() == 0 {
            assert(all_settled(calls_in_order(flags, k)));
        } else {
            lemma_calls_in_order_index(flags, k, 0);
            assert(all_settled(calls_in_order(flags, k)));
        }
    }
}

/// A one-hot flag sequence has a settled count of one exactly when the
/// set seat is in range.
proof fn lemma_one_hot_count(n: int, seat: int)
    requires
        0 <= n,
    ensures
        settled_count(Seq::new(n as nat, |j: int| j == seat)) == (if 0 <= seat < n {
            1int
        } else {
            0int
        }),
    decreases n,
{
    let s = Seq::new(n as nat, |j: int| j == seat);
    if n > 0 {
        let s0 = Seq::new((n - 1) as nat, |j: int| j == seat);
        assert(s.drop_last() =~= s0);
        lemma_one_hot_count(n - 1, seat);
        assert(s.last() == (n - 1 == seat));
    }
}

/// Law: a raise by the player at `seat` leaves exactly one settle-flag
/// set - the raiser's - whatever the flags were before: the settled count
/// is one and the settled seat is the raiser's.
pub proof fn lemma_raise_isolates_raiser(flags: Seq<bool>, seat: int)
    requires
        0 <= seat < flags.len(),
    ensures
        settled_count(flags_after(flags, seat, Decision::Raise)) == 1,
        forall|j: int|
            0 <= j < flags.len() ==> (flags_after(flags, seat, Decision::Raise)[j] <==> j
                == seat),
{
    lemma_one_hot_count(flags.len() as int, seat);
    assert(flags_after(flags, seat, Decision::Raise) =~= Seq::new(
        flags.len(),
        |j: int| j == seat,
    ));
}

} // verus!
