//! The deck: 52 distinct cards, built in canonical suit/rank order, shuffled
//! by Fisher-Yates, and dealt from the top (the end of the sequence).

use vstd::prelude::*;

use crate::cards::{card_wf, suit_color, Card, Suit};
use crate::points::hand_ranks_wf;
use crate::round::Player;

verus! {

/// The thirteen cards of one suit, ranks ascending from 2 to the ace.
pub open spec fn suit_run(s: Suit) -> Seq<Card> {
    Seq::new(13, |j: int| Card { number: (j + 2) as i32, suit: s, color: suit_color(s) })
}

/// The canonical order a fresh deck is built in: all ranks of Spade, then
/// Club, then Heart, then Diamond, ranks ascending.
pub open spec fn canonical_deck() -> Seq<Card> {
    suit_run(Suit::Spade) + suit_run(Suit::Club) + suit_run(Suit::Heart) + suit_run(
        Suit::Diamond,
    )
}

/// Exchanging the entries at `i` and `r`.
pub open spec fn seq_swap(s: Seq<Card>, i: int, r: int) -> Seq<Card> {
    s.update(i, s[r]).update(r, s[i])
}

/// The rolls that drive one Fisher-Yates pass over `n` cards: one roll per
/// position from `n - 1` down to 1, entry `t` chosen in `[0, t + 1]`.
pub open spec fn valid_rolls(rolls: Seq<usize>, n: int) -> bool {
    rolls.len() + 1 == n && forall|t: int| 0 <= t < rolls.len() ==> #[trigger] rolls[t] <= t
        + 1
}

/// The permutation Fisher-Yates produces: for `i` from the last position
/// down to 1, exchange position `i` with position `rolls[i - 1]`.
pub open spec fn fisher_yates(s: Seq<Card>, rolls: Seq<usize>, i: int) -> Seq<Card>
    decreases i,
{
    if i < 1 {
        s
    } else {
        fisher_yates(seq_swap(s, i, rolls[i - 1] as int), rolls, i - 1)
    }
}

/// Exchanging two in-range entries keeps the multiset of entries.
pub proof fn lemma_seq_swap_multiset(s: Seq<Card>, i: int, r: int)
    requires
        0 <= i < s.len(),
        0 <= r < s.len(),
    ensures
        seq_swap(s, i, r).to_multiset() == s.to_multiset(),
        seq_swap(s, i, r).len() == s.len(),
{
    broadcast use vstd::seq_lib::group_to_multiset_ensures;
    broadcast use vstd::multiset::group_multiset_axioms;

    let s1 = s.update(i, s[r]);
    let s2 = s1.update(r, s[i]);
    assert(s.contains(s[i]));
    assert(s1.contains(s1[r]));
    assert(s1[r] == s[r]);
    assert(s1.to_multiset() == s.to_multiset().insert(s[r]).remove(s[i]));
    assert(s2.to_multiset() == s1.to_multiset().insert(s[i]).remove(s[r]));
    assert(s2.to_multiset() =~= s.to_multiset());
}

/// A Fisher-Yates pass keeps the multiset of entries and the length.
pub proof fn lemma_fisher_yates_permutes(s: Seq<Card>, rolls: Seq<usize>, i: int)
    requires
        0 <= i < s.len(),
        forall|t: int| 0 <= t < rolls.len() ==> #[trigger] rolls[t] <= t + 1,
        i <= rolls.len(),
    ensures
        fisher_yates(s, rolls, i).to_multiset() == s.to_multiset(),
        fisher_yates(s, rolls, i).len() == s.len(),
    decreases i,
{
    if i >= 1 {
        let r = rolls[i - 1] as int;
        lemma_seq_swap_multiset(s, i, r);
        lemma_fisher_yates_permutes(seq_swap(s, i, r), rolls, i - 1);
    }
}

/// The canonical deck is well formed: 52 cards, each with a rank in [2, 14]
/// and the colour its suit determines.
pub proof fn lemma_canonical_deck_wf()
    ensures
        canonical_deck().len() == 52,
        forall|t: int| 0 <= t < 52 ==> card_wf(#[trigger] canonical_deck()[t]),
{
}

/// Two sequences with the same multiset of cards hold the same cards, so
/// rank well-formedness carries over.
pub proof fn lemma_multiset_preserves_wf(s1: Seq<Card>, s2: Seq<Card>)
    requires
        s1.to_multiset() == s2.to_multiset(),
        forall|t: int| 0 <= t < s1.len() ==> card_wf(#[trigger] s1[t]),
    ensures
        hand_ranks_wf(s2),
    decreases s2.len(),
{
    broadcast use vstd::seq_lib::group_to_multiset_ensures;

    assert forall|t: int| 0 <= t < s2.len() implies crate::cards::rank_wf(
        #[trigger] s2[t],
    ) by {
        assert(s2.contains(s2[t]));
        assert(s2.to_multiset().count(s2[t]) > 0);
        assert(s1.to_multiset().count(s2[t]) > 0);
        assert(s1.contains(s2[t]));
        let w = choose|w: int| 0 <= w < s1.len() && s1[w] == s2[t];
        assert(card_wf(s1[w]));
    }
}

/// An error from dealing: the deck holds fewer cards than were asked for.
#[derive(Clone, Copy, PartialEq, Eq, Structural, Debug)]
pub enum DealError {
    NotEnoughCards,
}

pub struct Deck {
    pub cards: Vec<Card>,
}

/// Relies on rand::random_range over `lo..hi`: a sample from the
/// thread-local generator, uniform over the half-open range; it panics only
/// on an empty range, which the precondition rules out.
#[verifier::external_body]
fn random_below(lo: usize, hi: usize) -> (r: usize)
    requires
        lo < hi,
    ensures
        lo <= r < hi,
{
    rand::random_range(lo..hi)
}

impl Deck {
    /// A fresh deck: the 52 cards in canonical suit/rank order.
    pub fn new() -> (d: Deck)
        ensures
            d.cards@ == canonical_deck(),
            d.cards@.len() == 52,
    {
        let mut cards: Vec<Card> = Vec::new();

        let mut i: usize = 0;
        while i < 4
            invariant
                i <= 4,
                cards@.len() == 13 * i,
                forall|t: int| 0 <= t < cards@.len() ==> cards@[t] == #[trigger] canonical_deck()[t],
            decreases 4 - i,
        {
            let sui: Suit = match i {
                0 => Suit::Spade,
                1 => Suit::Club,
                2 => Suit::Heart,
                _ => Suit::Diamond,
            };

            let col: bool = match sui {
                Suit::Spade => true,
                Suit::Heart => false,
                Suit::Diamond => false,
                Suit::Club => true,
            };

            let mut j: i32 = 2;
            while j <= 14
                invariant
                    2 <= j <= 15,
                    i < 4,
                    cards@.len() == 13 * i + (j - 2),
                    forall|t: int| 0 <= t < cards@.len() ==> cards@[t] == #[trigger] canonical_deck()[t],
                    (i == 0 ==> sui == Suit::Spade),
                    (i == 1 ==> sui == Suit::Club),
                    (i == 2 ==> sui == Suit::Heart),
                    (i == 3 ==> sui == Suit::Diamond),
                    col == suit_color(sui),
                decreases 15 - j,
            {
                cards.push(Card::new(j, sui, col));
                proof {
                    assert(canonical_deck()[13 * i + (j - 2)] == Card {
                        number: j,
                        suit: sui,
                        color: col,
                    });
                }
                j = j + 1;
            }

            i = i + 1;
        }

        proof {
            assert(cards@ =~= canonical_deck());
        }
        Deck { cards }
    }

    /// Exchange the cards at positions `i` and `j`.
    pub fn swap(&mut self, i: usize, j: usize)
        requires
            i < old(self).cards@.len(),
            j < old(self).cards@.len(),
        ensures
            final(self).cards@ == seq_swap(old(self).cards@, i as int, j as int),
    {
        let a = self.cards[i];
        let b = self.cards[j];
        self.cards[i] = b;
        self.cards[j] = a;
    }

    /// One Fisher-Yates pass driven by the given rolls: for each position
    /// `i` from the last down to 1, exchange it with position
    /// `rolls[i - 1]`, which must lie in `[0, i]`.  A roll equal to its own
    /// position exchanges a card with itself, which is a safe no-op.
    pub fn shuffle_with(&mut self, rolls: &Vec<usize>)
        requires
            valid_rolls(rolls@, old(self).cards@.len() as int),
        ensures
            final(self).cards@ == fisher_yates(
                old(self).cards@,
                rolls@,
                old(self).cards@.len() - 1,
            ),
            final(self).cards@.to_multiset() == old(self).cards@.to_multiset(),
            final(self).cards@.len() == old(self).cards@.len(),
    {
        let n = self.cards.len();
        let mut i: usize = n - 1;
        while i >= 1
            invariant
                self.cards@.len() == n,
                n == rolls@.len() + 1,
                i < n,
                valid_rolls(rolls@, n as int),
                fisher_yates(self.cards@, rolls@, i as int) == fisher_yates(
                    old(self).cards@,
                    rolls@,
                    n - 1,
                ),
                self.cards@.to_multiset() == old(self).cards@.to_multiset(),
            decreases i,
        {
            let ghost prev = self.cards@;
            let r = rolls[i - 1];
            self.swap(i, r);
            proof {
                lemma_seq_swap_multiset(prev, i as int, r as int);
            }
            i = i - 1;
        }
    }

    /// Shuffle into a random permutation: draw each roll from the uniform
    /// source, then run the Fisher-Yates pass those rolls drive.
    pub fn shuffle(&mut self)
        requires
            old(self).cards@.len() >= 1,
        ensures
            final(self).cards@.to_multiset() == old(self).cards@.to_multiset(),
            final(self).cards@.len() == old(self).cards@.len(),
            exists|rolls: Seq<usize>|
                valid_rolls(rolls, old(self).cards@.len() as int) && final(self).cards@
                    == fisher_yates(old(self).cards@, rolls, old(self).cards@.len() - 1),
    {
        let n = self.cards.len();
        let mut rolls: Vec<usize> = Vec::new();
        let mut t: usize = 0;
        while t < n - 1
            invariant
                t <= n - 1,
                n == self.cards@.len(),
                rolls@.len() == t,
                forall|w: int| 0 <= w < rolls@.len() ==> #[trigger] rolls@[w] <= w + 1,
            decreases n - 1 - t,
        {
            let r = random_below(0, t + 2);
            rolls.push(r);
            t = t + 1;
        }
        self.shuffle_with(&rolls);
        proof {
            assert(valid_rolls(rolls@, old(self).cards@.len() as int));
            assert(self.cards@ == fisher_yates(
                old(self).cards@,
                rolls@,
                old(self).cards@.len() - 1,
            ));
        }
    }

    /// Remove the top `n_cards` cards (the end of the sequence) and hand
    /// them, in the order they come off the top, to the target hand.  If
    /// fewer cards remain the deck and the hand are left unchanged and the
    /// shortage is reported; fewer cards than asked for are never dealt.
    pub fn deal(&mut self, player: &mut Player, n_cards: i32) -> (r: Result<(), DealError>)
        requires
            n_cards >= 0,
        ensures
            old(self).cards@.len() >= n_cards ==> {
                &&& r is Ok
                &&& final(self).cards@ == old(self).cards@.take(
                    old(self).cards@.len() - n_cards,
                )
                &&& final(player).hand@ == old(player).hand@ + old(self).cards@.subrange(
                    old(self).cards@.len() - n_cards,
                    old(self).cards@.len() as int,
                ).reverse()
            },
            old(self).cards@.len() < n_cards ==> {
                &&& r is Err
                &&& final(self).cards@ == old(self).cards@
                &&& final(player).hand@ == old(player).hand@
            },
    {
        if self.cards.len() < n_cards as usize {
            return Err(DealError::NotEnoughCards);
        }
        let n = n_cards as usize;
        let len0 = self.cards.len();
        let mut t: usize = 0;
        while t < n
            invariant
                t <= n,
                n <= len0,
                len0 == old(self).cards@.len(),
                self.cards@.len() == len0 - t,
                self.cards@ == old(self).cards@.take(len0 - t),
                player.hand@ == old(player).hand@ + old(self).cards@.subrange(
                    len0 - t,
                    len0 as int,
                ).reverse(),
            decreases n - t,
        {
            let ghost deck_before = self.cards@;
            let top_card = match self.cards.pop() {
                Some(c) => c,
                None => {
                    proof {
                        assert(false);
                    }
                    return Err(DealError::NotEnoughCards);
                },
            };
            player.hand.push(top_card);
            proof {
                let full = old(self).cards@;
                assert(self.cards@ =~= full.take(len0 - (t + 1)));
                assert(top_card == full[len0 - t - 1]);
                assert(full.subrange(len0 - (t + 1), len0 as int).reverse() =~= full.subrange(
                    len0 - t,
                    len0 as int,
                ).reverse().push(full[len0 - t - 1]));
            }
            t = t + 1;
        }
        proof {
            assert(self.cards@ =~= old(self).cards@.take(len0 - n));
        }
        Ok(())
    }
}

} // verus!
