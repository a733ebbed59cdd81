use blackjack_sim::cards::{Card, Suit};
use blackjack_sim::deck::{DealError, Deck};
use blackjack_sim::round::Player;

fn canonical_card_at(i: usize) -> Card {
    let suit = match i / 13 {
        0 => Suit::Spade,
        1 => Suit::Club,
        2 => Suit::Heart,
        _ => Suit::Diamond,
    };
    let color = matches!(suit, Suit::Spade | Suit::Club);
    Card::new((i % 13) as i32 + 2, suit, color)
}

#[test]
fn new_deck_is_canonical() {
    let deck = Deck::new();
    assert_eq!(deck.cards.len(), 52);
    for i in 0..52 {
        assert_eq!(deck.cards[i], canonical_card_at(i));
    }
    // Spot checks: first card, first of the second suit, last card.
    assert_eq!(deck.cards[0], Card::new(2, Suit::Spade, true));
    assert_eq!(deck.cards[13], Card::new(2, Suit::Club, true));
    assert_eq!(deck.cards[51], Card::new(14, Suit::Diamond, false));
}

#[test]
fn swap_exchanges_two_cards() {
    let mut deck = Deck::new();
    let a = deck.cards[0];
    let b = deck.cards[51];
    deck.swap(0, 51);
    assert_eq!(deck.cards[0], b);
    assert_eq!(deck.cards[51], a);
    // Swapping a position with itself is a safe no-op.
    deck.swap(7, 7);
    assert_eq!(deck.cards[7], canonical_card_at(7));
}

fn count_card(deck: &Deck, c: Card) -> usize {
    let mut n = 0;
    for i in 0..deck.cards.len() {
        if deck.cards[i] == c {
            n += 1;
        }
    }
    n
}

#[test]
fn shuffle_is_a_permutation() {
    let mut deck = Deck::new();
    deck.shuffle();
    assert_eq!(deck.cards.len(), 52);
    // Every canonical card appears exactly once.
    for i in 0..52 {
        assert_eq!(count_card(&deck, canonical_card_at(i)), 1);
    }
}

#[test]
fn shuffle_with_rolls_is_a_permutation() {
    // Any valid roll vector yields a permutation; these rolls are arbitrary
    // but fixed.
    let mut rolls: Vec<usize> = Vec::new();
    for t in 0..51 {
        rolls.push((t * 7 + 3) % (t + 2));
    }
    let mut deck = Deck::new();
    deck.shuffle_with(&rolls);
    assert_eq!(deck.cards.len(), 52);
    for i in 0..52 {
        assert_eq!(count_card(&deck, canonical_card_at(i)), 1);
    }
}

#[test]
fn shuffle_with_self_rolls_keeps_order() {
    // Rolls that always pick the position itself only swap each card with
    // itself, leaving the canonical order unchanged.
    let mut rolls: Vec<usize> = Vec::new();
    for t in 0..51 {
        rolls.push(t + 1);
    }
    let mut deck = Deck::new();
    deck.shuffle_with(&rolls);
    for i in 0..52 {
        assert_eq!(deck.cards[i], canonical_card_at(i));
    }
}

#[test]
fn shuffle_positions_approximately_uniform() {
    // Chi-square check: over many shuffles, each card's position counts
    // should be close to uniform over the 52 slots.  The total statistic
    // over all 52 cards has mean 52 * 51 = 2652 and standard deviation
    // about 73, so 3300 is far out in the tail while loose enough not to
    // flake.
    let trials = 20000;
    let mut counts = [[0u32; 52]; 52];
    for _ in 0..trials {
        let mut deck = Deck::new();
        deck.shuffle();
        for pos in 0..52 {
            let c = deck.cards[pos];
            let suit_idx = match c.suit {
                Suit::Spade => 0,
                Suit::Club => 1,
                Suit::Heart => 2,
                Suit::Diamond => 3,
            };
            let card_idx = suit_idx * 13 + (c.number - 2) as usize;
            counts[card_idx][pos] += 1;
        }
    }
    let expected = trials as f64 / 52.0;
    let mut chi2_total = 0.0f64;
    for card_idx in 0..52 {
        for pos in 0..52 {
            let d = counts[card_idx][pos] as f64 - expected;
            chi2_total += d * d / expected;
        }
    }
    assert!(
        chi2_total < 3300.0,
        "position distribution too far from uniform: chi2 = {}",
        chi2_total
    );
}

#[test]
fn deal_takes_from_the_top() {
    let mut deck = Deck::new();
    let mut hand = Player::new();
    let r = deck.deal(&mut hand, 2);
    assert!(r.is_ok());
    assert_eq!(deck.cards.len(), 50);
    // The top of the deck is the end of the sequence: the ace of diamonds,
    // then the king of diamonds.
    assert_eq!(hand.hand.len(), 2);
    assert_eq!(hand.hand[0], Card::new(14, Suit::Diamond, false));
    assert_eq!(hand.hand[1], Card::new(13, Suit::Diamond, false));
}

#[test]
fn deal_too_many_reports_shortage() {
    let mut deck = Deck::new();
    let mut hand = Player::new();
    let r = deck.deal(&mut hand, 53);
    assert_eq!(r, Err(DealError::NotEnoughCards));
    // Nothing was dealt: the deck and the hand are unchanged.
    assert_eq!(deck.cards.len(), 52);
    assert_eq!(hand.hand.len(), 0);

    let mut hand2 = Player::new();
    let r2 = deck.deal(&mut hand2, 52);
    assert!(r2.is_ok());
    assert_eq!(deck.cards.len(), 0);
    assert_eq!(hand2.hand.len(), 52);
    let r3 = deck.deal(&mut hand2, 1);
    assert_eq!(r3, Err(DealError::NotEnoughCards));
}
