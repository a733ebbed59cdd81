//! A simplified blackjack variant played between a player and the house,
//! together with a Monte Carlo driver that measures a fixed hit/stand
//! strategy across a swept threshold parameter.

pub mod cards;
pub mod deck;
pub mod points;
pub mod round;
pub mod sim;

pub use cards::{Card, Suit};
pub use deck::{DealError, Deck};
pub use points::{calc_points, generate_ace_point_row};
pub use round::{conditional_blackjack, play_round, Outcome, Player};
pub use sim::{run_rounds, run_sweep, ConfigError, RoundTally, SimConfig, SweepRecord};
