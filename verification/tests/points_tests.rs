use blackjack_sim::cards::{Card, Suit};
use blackjack_sim::points::{
    all_above, all_at_most, any_equals, best_at_most, calc_points, generate_ace_point_row,
    hand_best_total, hand_min_total, min_value,
};

fn card(num: i32, suit: Suit) -> Card {
    let color = matches!(suit, Suit::Spade | Suit::Club);
    Card::new(num, suit, color)
}

#[test]
fn king_and_seven_single_total() {
    // A hand with no aces has exactly one total: King (10) + 7 = 17.
    let hand = vec![card(13, Suit::Spade), card(7, Suit::Heart)];
    let points = calc_points(&hand);
    assert_eq!(points, vec![17]);
}

#[test]
fn no_aces_literal_sum() {
    let hand = vec![card(2, Suit::Spade), card(3, Suit::Club), card(9, Suit::Diamond)];
    let points = calc_points(&hand);
    assert_eq!(points, vec![14]);

    let faces = vec![card(10, Suit::Spade), card(11, Suit::Club), card(12, Suit::Heart)];
    assert_eq!(calc_points(&faces), vec![30]);
}

#[test]
fn empty_hand_single_zero() {
    let hand: Vec<Card> = Vec::new();
    assert_eq!(calc_points(&hand), vec![0]);
}

#[test]
fn two_aces_three_rows() {
    // Two aces: rows for 0, 1, 2 aces counted as 11 give {2, 12, 22}.
    let hand = vec![card(14, Suit::Spade), card(14, Suit::Heart)];
    let points = calc_points(&hand);
    assert_eq!(points, vec![2, 12, 22]);
}

#[test]
fn ace_rows_step_by_ten() {
    let hand = vec![card(14, Suit::Spade), card(5, Suit::Club)];
    let points = calc_points(&hand);
    assert_eq!(points.len(), 2);
    for j in 0..points.len() - 1 {
        assert_eq!(points[j + 1], points[j] + 10);
    }
    assert_eq!(points, vec![6, 16]);

    let hand3 = vec![
        card(14, Suit::Spade),
        card(14, Suit::Club),
        card(14, Suit::Heart),
        card(8, Suit::Diamond),
    ];
    let points3 = calc_points(&hand3);
    assert_eq!(points3, vec![11, 21, 31, 41]);
    for j in 0..points3.len() - 1 {
        assert_eq!(points3[j + 1], points3[j] + 10);
    }
}

#[test]
fn ace_point_row_bases() {
    let rows = generate_ace_point_row(&2);
    assert_eq!(rows, vec![2, 12, 22]);
    let one = generate_ace_point_row(&1);
    assert_eq!(one, vec![1, 11]);
    let zero = generate_ace_point_row(&0);
    assert_eq!(zero, vec![0]);
}

#[test]
fn min_total_drives_hit_decision() {
    // min_hit = 17 and a hand whose only total is 16: 16 < 17, so the
    // player hits.
    let hand = vec![card(13, Suit::Spade), card(6, Suit::Heart)];
    let points = calc_points(&hand);
    let min_hit = 17;
    assert_eq!(min_value(&points), 16);
    assert!(min_value(&points) < min_hit);
    assert_eq!(hand_min_total(&hand), 16);
}

#[test]
fn point_vector_queries() {
    let points = vec![11, 21, 31];
    assert!(any_equals(&points, 21));
    assert!(!any_equals(&points, 20));
    assert!(!all_above(&points, 21));
    assert!(all_above(&points, 10));
    assert!(all_at_most(&points, 31));
    assert!(!all_at_most(&points, 17));
    assert_eq!(best_at_most(&points, 21), Some(21));
    assert_eq!(best_at_most(&points, 20), Some(11));
    assert_eq!(best_at_most(&points, 10), None);
}

#[test]
fn best_total_of_soft_hand() {
    // Ace + 6: totals {7, 17}; the best total at most 21 is 17.
    let hand = vec![card(14, Suit::Spade), card(6, Suit::Club)];
    assert_eq!(hand_best_total(&hand), 17);

    // Ace + King + 5: totals {16, 26}; only 16 stays under 21.
    let hand2 = vec![card(14, Suit::Spade), card(13, Suit::Club), card(5, Suit::Heart)];
    assert_eq!(hand_best_total(&hand2), 16);
}
