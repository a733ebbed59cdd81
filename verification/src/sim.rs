//! The Monte Carlo driver: validate a configuration, run a fixed number of
//! independent rounds per swept threshold value, tally the three outcomes,
//! and track a running bankroll with a fixed stake per round.

use vstd::prelude::*;

use crate::round::{conditional_blackjack, Outcome};

verus! {

/// A rejected configuration, reported before any simulation runs.
#[derive(Clone, Copy, PartialEq, Eq, Structural, Debug)]
pub enum ConfigError {
    /// The sweep bounds are not positive or the lower bound exceeds the upper.
    SweepBounds,
    /// The iteration count is zero.
    Iterations,
    /// The stake is not positive.
    Stake,
    /// The starting bankroll is not positive.
    Bankroll,
}

/// A validated simulation configuration: an inclusive sweep range for the
/// strategy threshold, rounds per threshold value, the fixed stake, and the
/// starting bankroll.
#[derive(Clone, Copy, PartialEq, Eq, Structural, Debug)]
pub struct SimConfig {
    pub min_hit_lo: i32,
    pub min_hit_hi: i32,
    pub iterations: u64,
    pub stake: i64,
    pub bankroll: i64,
}

impl SimConfig {
    /// All parameters positive, the sweep bounds ordered, and each within
    /// the range the driver's arithmetic is proved for.
    pub open spec fn wf(self) -> bool {
        &&& 0 < self.min_hit_lo <= self.min_hit_hi < i32::MAX
        &&& 0 < self.iterations <= 1_000_000_000
        &&& 0 < self.stake <= 1_000_000
        &&& 0 < self.bankroll <= 1_000_000_000_000
    }
}

/// How a configuration is judged, each fault checked in this order: sweep
/// bounds, iteration count, stake, bankroll.
pub open spec fn spec_validate(
    lo: i32,
    hi: i32,
    iterations: u64,
    stake: i64,
    bankroll: i64,
) -> Result<SimConfig, ConfigError> {
    if lo <= 0 || hi < lo {
        Err(ConfigError::SweepBounds)
    } else if iterations == 0 {
        Err(ConfigError::Iterations)
    } else if stake <= 0 {
        Err(ConfigError::Stake)
    } else if bankroll <= 0 {
        Err(ConfigError::Bankroll)
    } else {
        Ok(
            SimConfig {
                min_hit_lo: lo,
                min_hit_hi: hi,
                iterations: iterations,
                stake: stake,
                bankroll: bankroll,
            },
        )
    }
}

impl SimConfig {
    /// Validate a configuration; each fault is reported exactly on the
    /// inputs `spec_validate` names, before any simulation runs.  The
    /// bounds in the precondition are the machine limits the driver's
    /// arithmetic is proved within.
    pub fn new(lo: i32, hi: i32, iterations: u64, stake: i64, bankroll: i64) -> (r: Result<
        SimConfig,
        ConfigError,
    >)
        requires
            hi < i32::MAX,
            iterations <= 1_000_000_000,
            stake <= 1_000_000,
            bankroll <= 1_000_000_000_000,
        ensures
            r == spec_validate(lo, hi, iterations, stake, bankroll),
            r is Ok ==> r->Ok_0.wf(),
    {
        if lo <= 0 || hi < lo {
            Err(ConfigError::SweepBounds)
        } else if iterations == 0 {
            Err(ConfigError::Iterations)
        } else if stake <= 0 {
            Err(ConfigError::Stake)
        } else if bankroll <= 0 {
            Err(ConfigError::Bankroll)
        } else {
            Ok(
                SimConfig {
                    min_hit_lo: lo,
                    min_hit_hi: hi,
                    iterations: iterations,
                    stake: stake,
                    bankroll: bankroll,
                },
            )
        }
    }
}

/// The tally of one batch of rounds at a fixed threshold: every round is
/// classified into exactly one of the three counters, and the bankroll
/// moves by the stake down on a house win and up on a player win.
#[derive(Clone, Copy, PartialEq, Eq, Structural, Debug)]
pub struct RoundTally {
    pub draws: u64,
    pub house_wins: u64,
    pub player_wins: u64,
    pub money: i64,
}

/// Run `iterations` independent rounds at one threshold value and tally
/// them: the three counters sum to the iteration count, and the final
/// bankroll is the starting one plus the stake times the win-count
/// difference.
pub fn run_rounds(min_hit: i32, iterations: u64, stake: i64, bankroll: i64) -> (t: RoundTally)
    requires
        0 < iterations <= 1_000_000_000,
        0 < stake <= 1_000_000,
        0 < bankroll <= 1_000_000_000_000,
    ensures
        t.draws + t.house_wins + t.player_wins == iterations,
        t.money == bankroll + stake * t.player_wins - stake * t.house_wins,
{
    let mut draws: u64 = 0;
    let mut house_wins: u64 = 0;
    let mut player_wins: u64 = 0;
    let mut money: i64 = bankroll;
    let mut it: u64 = 0;
    while it < iterations
        invariant
            it <= iterations <= 1_000_000_000,
            0 < stake <= 1_000_000,
            0 < bankroll <= 1_000_000_000_000,
            draws + house_wins + player_wins == it,
            money == bankroll + stake * player_wins - stake * house_wins,
        decreases iterations - it,
    {
        proof {
            assert(stake * player_wins <= 1_000_000_000_000_000 && stake * house_wins
                <= 1_000_000_000_000_000 && stake * (player_wins + 1)
                <= 2_000_000_000_000_000 && stake * (house_wins + 1)
                <= 2_000_000_000_000_000 && stake * player_wins >= 0 && stake * house_wins
                >= 0) by (nonlinear_arith)
                requires
                    0 < stake <= 1_000_000,
                    0 <= player_wins <= 1_000_000_000,
                    0 <= house_wins <= 1_000_000_000,
            ;
        }
        proof {
            assert(stake * (player_wins + 1) == stake * player_wins + stake && stake * (
            house_wins + 1) == stake * house_wins + stake) by (nonlinear_arith);
        }
        let res = conditional_blackjack(min_hit);
        match res {
            Outcome::Draw => {
                draws = draws + 1;
            },
            Outcome::HouseWin => {
                house_wins = house_wins + 1;
                money = money - stake;
            },
            Outcome::PlayerWin => {
                player_wins = player_wins + 1;
                money = money + stake;
            },
        }
        it = it + 1;
    }
    RoundTally { draws, house_wins, player_wins, money }
}

/// One row of the sweep report: the threshold value and its tally.
#[derive(Clone, Copy, PartialEq, Eq, Structural, Debug)]
pub struct SweepRecord {
    pub min_hit: i32,
    pub draws: u64,
    pub house_wins: u64,
    pub player_wins: u64,
    pub money: i64,
}

/// Sweep the threshold across the configured inclusive range, running one
/// independent batch of rounds per value: one record per threshold, in
/// order, each with its counters summing to the iteration count and its
/// bankroll moved by the stake times the win-count difference.
pub fn run_sweep(cfg: &SimConfig) -> (v: Vec<SweepRecord>)
    requires
        cfg.wf(),
    ensures
        v@.len() == cfg.min_hit_hi - cfg.min_hit_lo + 1,
        forall|i: int|
            0 <= i < v@.len() ==> {
                &&& (#[trigger] v@[i]).min_hit == cfg.min_hit_lo + i
                &&& v@[i].draws + v@[i].house_wins + v@[i].player_wins == cfg.iterations
                &&& v@[i].money == cfg.bankroll + cfg.stake * v@[i].player_wins - cfg.stake
                    * v@[i].house_wins
            },
{
    let mut records: Vec<SweepRecord> = Vec::new();
    let mut min_hit: i32 = cfg.min_hit_lo;
    while min_hit <= cfg.min_hit_hi
        invariant
            cfg.wf(),
            cfg.min_hit_lo <= min_hit <= cfg.min_hit_hi + 1,
            records@.len() == min_hit - cfg.min_hit_lo,
            forall|i: int|
                0 <= i < records@.len() ==> {
                    &&& (#[trigger] records@[i]).min_hit == cfg.min_hit_lo + i
                    &&& records@[i].draws + records@[i].house_wins + records@[i].player_wins
                        == cfg.iterations
                    &&& records@[i].money == cfg.bankroll + cfg.stake * records@[i].player_wins
                        - cfg.stake * records@[i].house_wins
                },
        decreases cfg.min_hit_hi + 1 - min_hit,
    {
        let t = run_rounds(min_hit, cfg.iterations, cfg.stake, cfg.bankroll);
        records.push(
            SweepRecord {
                min_hit,
                draws: t.draws,
                house_wins: t.house_wins,
                player_wins: t.player_wins,
                money: t.money,
            },
        );
        min_hit = min_hit + 1;
    }
    records
}

} // verus!
