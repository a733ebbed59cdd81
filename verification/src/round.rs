//! One round of the game: a fresh shuffled deck, two cards to each role,
//! the player's threshold-driven turn, the house's forced-hit turn, and the
//! final comparison of best totals.

use vstd::prelude::*;

use crate::cards::{rank_wf, Card};
use crate::deck::{canonical_deck, Deck};
use crate::points::{
    all_totals_at_most, best_total, busted, hand_all_at_most, hand_best_total, hand_busted,
    hand_has_total, hand_min_total, hand_ranks_wf, has_total, lemma_at_most_iff_max,
    lemma_busted_iff_min, lemma_counts_bounds, lemma_totals_ge_len, lemma_wf_prefix,
    lemma_wf_push, min_total,
};

verus! {

/// One role's hand.  Player and house are structurally identical; a hand
/// only grows within a round.
pub struct Player {
    pub hand: Vec<Card>,
}

impl Player {
    pub fn new() -> (p: Player)
        ensures
            p.hand@.len() == 0,
    {
        Player { hand: Vec::new() }
    }
}

/// The single discrete outcome of a resolved round.
#[derive(Clone, Copy, PartialEq, Eq, Structural, Debug)]
pub enum Outcome {
    Draw,
    HouseWin,
    PlayerWin,
}

/// The final comparison, entered only with both hands short of a bust: the
/// higher best total wins, equal best totals draw.
pub open spec fn spec_compare(player: Seq<Card>, house: Seq<Card>) -> Outcome {
    if best_total(player) > best_total(house) {
        Outcome::PlayerWin
    } else if best_total(player) < best_total(house) {
        Outcome::HouseWin
    } else {
        Outcome::Draw
    }
}

/// The house's turn: while every candidate total is at most 17 the house
/// must draw; a bust hands the round to the player; once some total exceeds
/// 17 the house stands and the best totals are compared.  `None` marks an
/// exhausted deck.
pub open spec fn spec_house_turn(deck: Seq<Card>, player: Seq<Card>, house: Seq<Card>) -> Option<
    Outcome,
>
    decreases deck.len(),
{
    if !all_totals_at_most(house, 17) {
        Some(spec_compare(player, house))
    } else if deck.len() == 0 {
        None
    } else {
        let h2 = house.push(deck.last());
        if busted(h2) {
            Some(Outcome::PlayerWin)
        } else {
            spec_house_turn(deck.drop_last(), player, h2)
        }
    }
}

/// The player's turn: any total of exactly 21 wins at once, a bust loses,
/// and otherwise the player hits while the minimum total is strictly below
/// `min_hit`, then stands and the house plays.  `None` marks an exhausted
/// deck.
pub open spec fn spec_player_turn(
    deck: Seq<Card>,
    player: Seq<Card>,
    house: Seq<Card>,
    min_hit: int,
) -> Option<Outcome>
    decreases deck.len(),
{
    if has_total(player, 21) {
        Some(Outcome::PlayerWin)
    } else if busted(player) {
        Some(Outcome::HouseWin)
    } else if min_total(player) < min_hit {
        if deck.len() == 0 {
            None
        } else {
            spec_player_turn(deck.drop_last(), player.push(deck.last()), house, min_hit)
        }
    } else {
        spec_house_turn(deck, player, house)
    }
}

/// One whole round on an already shuffled deck: two cards off the top to
/// the house, two to the player, an immediate player win if the forced deal
/// busts the house, then the player's and the house's turns.  `None` marks
/// a deck too short to finish the round.
pub open spec fn spec_round(deck: Seq<Card>, min_hit: int) -> Option<Outcome> {
    if deck.len() < 4 {
        None
    } else {
        let n = deck.len() as int;
        let house = seq![deck[n - 1], deck[n - 2]];
        let player = seq![deck[n - 3], deck[n - 4]];
        let rest = deck.take(n - 4);
        if busted(house) {
            Some(Outcome::PlayerWin)
        } else {
            spec_player_turn(rest, player, house, min_hit)
        }
    }
}

/// Resolve one round on the given 52-card deck under the threshold
/// strategy: the round always terminates and always yields exactly one
/// outcome; the transition guards keep the deck from ever running out.
pub fn play_round(deck: &mut Deck, min_hit: i32) -> (r: Outcome)
    requires
        old(deck).cards@.len() == 52,
        hand_ranks_wf(old(deck).cards@),
    ensures
        spec_round(old(deck).cards@, min_hit as int) == Some(r),
{
    let ghost deck0 = old(deck).cards@;
    let mut house = Player::new();
    let mut player = Player::new();

    let _ = deck.deal(&mut house, 2);
    let ghost after_house = deck.cards@;
    let _ = deck.deal(&mut player, 2);
    proof {
        assert(after_house =~= deck0.take(50));
        assert(house.hand@ =~= seq![deck0[51], deck0[50]]);
        assert(player.hand@ =~= seq![deck0[49], deck0[48]]);
        assert(deck.cards@ =~= deck0.take(48));
        lemma_wf_prefix(deck0, 48);
        assert(hand_ranks_wf(house.hand@)) by {
            assert(rank_wf(deck0[51]) && rank_wf(deck0[50]));
        }
        assert(hand_ranks_wf(player.hand@)) by {
            assert(rank_wf(deck0[49]) && rank_wf(deck0[48]));
        }
    }

    if hand_busted(&house.hand) {
        proof {
            assert(spec_round(deck0, min_hit as int) == Some(Outcome::PlayerWin));
        }
        return Outcome::PlayerWin;
    }
    proof {
        assert(spec_round(deck0, min_hit as int) == spec_player_turn(
            deck.cards@,
            player.hand@,
            house.hand@,
            min_hit as int,
        ));
    }

    let ghost house0 = house.hand@;
    loop
        invariant
            deck0 == old(deck).cards@,
            deck.cards@.len() + player.hand@.len() == 50,
            2 <= player.hand@.len() <= 22,
            hand_ranks_wf(player.hand@),
            hand_ranks_wf(deck.cards@),
            house.hand@ == house0,
            house0.len() == 2,
            hand_ranks_wf(house0),
            !busted(house0),
            spec_round(deck0, min_hit as int) == spec_player_turn(
                deck.cards@,
                player.hand@,
                house0,
                min_hit as int,
            ),
        ensures
            deck.cards@.len() + player.hand@.len() == 50,
            player.hand@.len() <= 22,
            hand_ranks_wf(player.hand@),
            hand_ranks_wf(deck.cards@),
            house.hand@ == house0,
            !has_total(player.hand@, 21),
            !busted(player.hand@),
            min_total(player.hand@) >= min_hit,
            spec_round(deck0, min_hit as int) == spec_player_turn(
                deck.cards@,
                player.hand@,
                house0,
                min_hit as int,
            ),
        decreases deck.cards@.len(),
    {
        if hand_has_total(&player.hand, 21) {
            proof {
                assert(spec_player_turn(deck.cards@, player.hand@, house0, min_hit as int)
                    == Some(Outcome::PlayerWin));
            }
            return Outcome::PlayerWin;
        }
        if hand_busted(&player.hand) {
            proof {
                assert(spec_player_turn(deck.cards@, player.hand@, house0, min_hit as int)
                    == Some(Outcome::HouseWin));
            }
            return Outcome::HouseWin;
        }
        let pmin = hand_min_total(&player.hand);
        if pmin < min_hit {
            proof {
                lemma_counts_bounds(player.hand@);
                lemma_busted_iff_min(player.hand@);
                lemma_totals_ge_len(player.hand@);
                assert(player.hand@.len() <= 21);
                assert(deck.cards@.len() >= 28);
            }
            let ghost deck_pre = deck.cards@;
            let ghost player_pre = player.hand@;
            let _ = deck.deal(&mut player, 1);
            proof {
                assert(player.hand@ =~= player_pre.push(deck_pre.last()));
                assert(deck.cards@ =~= deck_pre.drop_last());
                assert(rank_wf(deck_pre.last()));
                lemma_wf_push(player_pre, deck_pre.last());
                lemma_wf_prefix(deck_pre, deck_pre.len() - 1);
                assert(deck_pre.drop_last() =~= deck_pre.take(deck_pre.len() - 1));
                assert(spec_player_turn(deck_pre, player_pre, house0, min_hit as int)
                    == spec_player_turn(deck.cards@, player.hand@, house0, min_hit as int));
            }
        } else {
            break;
        }
    }

    proof {
        assert(spec_round(deck0, min_hit as int) == spec_house_turn(
            deck.cards@,
            player.hand@,
            house.hand@,
        ));
    }

    let ghost player_f = player.hand@;
    loop
        invariant
            deck0 == old(deck).cards@,
            player.hand@ == player_f,
            player_f.len() <= 22,
            hand_ranks_wf(player_f),
            hand_ranks_wf(deck.cards@),
            hand_ranks_wf(house.hand@),
            deck.cards@.len() + player_f.len() + house.hand@.len() == 52,
            2 <= house.hand@.len() <= 22,
            !busted(house.hand@),
            !busted(player_f),
            spec_round(deck0, min_hit as int) == spec_house_turn(
                deck.cards@,
                player_f,
                house.hand@,
            ),
        ensures
            player.hand@ == player_f,
            hand_ranks_wf(house.hand@),
            house.hand@.len() <= 22,
            !all_totals_at_most(house.hand@, 17),
            !busted(house.hand@),
            spec_round(deck0, min_hit as int) == spec_house_turn(
                deck.cards@,
                player_f,
                house.hand@,
            ),
        decreases deck.cards@.len(),
    {
        if !hand_all_at_most(&house.hand, 17) {
            break;
        }
        proof {
            lemma_counts_bounds(house.hand@);
            lemma_at_most_iff_max(house.hand@, 17);
            lemma_totals_ge_len(house.hand@);
            assert(house.hand@.len() <= 8);
            assert(deck.cards@.len() >= 22);
        }
        let ghost deck_pre = deck.cards@;
        let ghost house_pre = house.hand@;
        let _ = deck.deal(&mut house, 1);
        proof {
            assert(house.hand@ =~= house_pre.push(deck_pre.last()));
            assert(deck.cards@ =~= deck_pre.drop_last());
            assert(rank_wf(deck_pre.last()));
            lemma_wf_push(house_pre, deck_pre.last());
            lemma_wf_prefix(deck_pre, deck_pre.len() - 1);
            assert(deck_pre.drop_last() =~= deck_pre.take(deck_pre.len() - 1));
        }
        if hand_busted(&house.hand) {
            proof {
                assert(spec_house_turn(deck_pre, player_f, house_pre) == Some(
                    Outcome::PlayerWin,
                ));
            }
            return Outcome::PlayerWin;
        }
        proof {
            assert(spec_house_turn(deck_pre, player_f, house_pre) == spec_house_turn(
                deck.cards@,
                player_f,
                house.hand@,
            ));
        }
    }

    proof {
        lemma_counts_bounds(player.hand@);
        lemma_counts_bounds(house.hand@);
        lemma_busted_iff_min(player.hand@);
        lemma_busted_iff_min(house.hand@);
    }
    let bp = hand_best_total(&player.hand);
    let bh = hand_best_total(&house.hand);
    proof {
        assert(spec_round(deck0, min_hit as int) == Some(
            spec_compare(player.hand@, house.hand@),
        ));
    }
    if bp > bh {
        Outcome::PlayerWin
    } else if bp < bh {
        Outcome::HouseWin
    } else {
        Outcome::Draw
    }
}

/// One simulated round under the threshold strategy: build the canonical
/// deck, shuffle it into a random permutation, and resolve the round.
/// Whatever the shuffle produced, the outcome is the one the resolved round
/// yields on some permutation of the full 52-card deck.
pub fn conditional_blackjack(min_hit: i32) -> (r: Outcome)
    ensures
        exists|s: Seq<Card>|
            s.to_multiset() == canonical_deck().to_multiset() && s.len() == 52 && spec_round(
                s,
                min_hit as int,
            ) == Some(r),
{
    let mut deck = Deck::new();
    deck.shuffle();
    proof {
        crate::deck::lemma_canonical_deck_wf();
        crate::deck::lemma_multiset_preserves_wf(canonical_deck(), deck.cards@);
    }
    let ghost shuffled = deck.cards@;
    let r = play_round(&mut deck, min_hit);
    proof {
        assert(shuffled.to_multiset() == canonical_deck().to_multiset() && shuffled.len() == 52
            && spec_round(shuffled, min_hit as int) == Some(r));
    }
    r
}

} // verus!
