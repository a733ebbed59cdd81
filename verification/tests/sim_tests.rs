use blackjack_sim::sim::{run_rounds, run_sweep, ConfigError, SimConfig};

#[test]
fn config_rejects_each_fault() {
    assert_eq!(
        SimConfig::new(0, 5, 100, 5, 1000),
        Err(ConfigError::SweepBounds)
    );
    assert_eq!(
        SimConfig::new(5, 4, 100, 5, 1000),
        Err(ConfigError::SweepBounds)
    );
    assert_eq!(
        SimConfig::new(10, 20, 0, 5, 1000),
        Err(ConfigError::Iterations)
    );
    assert_eq!(SimConfig::new(10, 20, 100, 0, 1000), Err(ConfigError::Stake));
    assert_eq!(
        SimConfig::new(10, 20, 100, -5, 1000),
        Err(ConfigError::Stake)
    );
    assert_eq!(
        SimConfig::new(10, 20, 100, 5, 0),
        Err(ConfigError::Bankroll)
    );
}

#[test]
fn config_accepts_valid_parameters() {
    let cfg = SimConfig::new(10, 20, 100000, 5, 10000).unwrap();
    assert_eq!(cfg.min_hit_lo, 10);
    assert_eq!(cfg.min_hit_hi, 20);
    assert_eq!(cfg.iterations, 100000);
    assert_eq!(cfg.stake, 5);
    assert_eq!(cfg.bankroll, 10000);
}

#[test]
fn tally_counts_and_bankroll_are_consistent() {
    let t = run_rounds(15, 2000, 5, 10000);
    assert_eq!(t.draws + t.house_wins + t.player_wins, 2000);
    assert_eq!(
        t.money,
        10000 + 5 * t.player_wins as i64 - 5 * t.house_wins as i64
    );
}

#[test]
fn outcome_percentages_sum_to_one_hundred() {
    let t = run_rounds(17, 1000, 5, 10000);
    let n = 1000.0f32;
    let draw_percent = t.draws as f32 / n * 100.0;
    let house_percent = t.house_wins as f32 / n * 100.0;
    let player_percent = t.player_wins as f32 / n * 100.0;
    let sum = draw_percent + house_percent + player_percent;
    assert!((sum - 100.0).abs() < 0.01, "percent sum was {}", sum);
}

#[test]
fn sweep_produces_one_record_per_threshold() {
    let cfg = SimConfig::new(10, 13, 200, 5, 1000).unwrap();
    let records = run_sweep(&cfg);
    assert_eq!(records.len(), 4);
    for (i, rec) in records.iter().enumerate() {
        assert_eq!(rec.min_hit, 10 + i as i32);
        assert_eq!(rec.draws + rec.house_wins + rec.player_wins, 200);
        assert_eq!(
            rec.money,
            1000 + 5 * rec.player_wins as i64 - 5 * rec.house_wins as i64
        );
        let n = 200.0f32;
        let sum = rec.draws as f32 / n * 100.0 + rec.house_wins as f32 / n * 100.0
            + rec.player_wins as f32 / n * 100.0;
        assert!((sum - 100.0).abs() < 0.01, "percent sum was {}", sum);
    }
}
