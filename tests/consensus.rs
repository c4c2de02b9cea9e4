use decay_consensus::{Consensus, ExpDecay, LinearEsc, StepDecay, Window};

fn majority_escalator(base: i64) -> LinearEsc {
    LinearEsc { base, slope: 0, cap: 1_000_000, floor: 0 }
}

#[test]
fn test_consensus_majority_wins() {
    let decay = ExpDecay::new(60_000).unwrap();
    let escalator = majority_escalator(510_000);
    let window = Window::starting_now(10_000);

    let mut consensus = Consensus::new(decay, escalator, window);

    for _ in 0..3 {
        consensus.cast("A");
    }
    consensus.cast("B");

    assert_eq!(consensus.result(), Some("A".to_string()));
}

#[test]
fn test_no_consensus_when_below_threshold() {
    let decay = ExpDecay::new(60_000).unwrap();
    let escalator = majority_escalator(750_000);
    let window = Window::starting_now(10_000);

    let mut consensus = Consensus::new(decay, escalator, window);

    consensus.cast("A");
    consensus.cast("B");
    consensus.cast("A");

    assert_eq!(consensus.result(), None);
}

#[test]
fn test_decay_reduces_old_vote_weight() {
    let decay = ExpDecay::new(1_000).unwrap();
    let escalator = majority_escalator(510_000);
    let start: u64 = 1_700_000_000_000;
    let window = Window { start, duration: 10_000 };

    let mut consensus = Consensus::new(decay, escalator, window);

    consensus.cast_at("X", start);
    // two seconds pass before the next ballot
    consensus.cast_at("Y", start + 2_000);

    assert_eq!(consensus.result_at(start + 2_000), Some("Y".to_string()));
}

#[test]
fn test_vote_count() {
    let decay = ExpDecay::new(60_000).unwrap();
    let escalator = majority_escalator(510_000);
    let window = Window::starting_now(10_000);

    let mut consensus = Consensus::new(decay, escalator, window);

    assert_eq!(consensus.vote_count(), 0);

    consensus.cast("A");
    assert_eq!(consensus.vote_count(), 1);

    consensus.cast("B");
    assert_eq!(consensus.vote_count(), 2);
}

#[test]
fn test_window_status() {
    let decay = ExpDecay::new(60_000).unwrap();
    let escalator = majority_escalator(510_000);
    let start: u64 = 1_700_000_000_000;
    let window = Window { start, duration: 1_000 };

    let consensus = Consensus::new(decay, escalator, window);

    assert!(consensus.is_window_open_at(start));

    // two seconds later
    assert!(!consensus.is_window_open_at(start + 2_000));
}

#[test]
fn window_open_by_wall_clock() {
    let decay = ExpDecay::new(60_000).unwrap();
    let consensus = Consensus::new(decay, majority_escalator(510_000), Window::starting_now(60_000));
    assert!(consensus.is_window_open());
    assert!(consensus.time_remaining().is_some());
}

#[test]
fn no_votes_no_decision() {
    let decay = ExpDecay::new(60_000).unwrap();
    let consensus = Consensus::new(decay, majority_escalator(0), Window { start: 0, duration: 10 });
    assert_eq!(consensus.result_at(5), None);
    assert_eq!(consensus.result_at(50), None);
}

#[test]
fn late_cast_is_dropped() {
    let decay = ExpDecay::new(60_000).unwrap();
    let start: u64 = 5_000;
    let mut consensus =
        Consensus::new(decay, majority_escalator(510_000), Window { start, duration: 1_000 });
    consensus.cast_at("A", start + 999);
    assert_eq!(consensus.vote_count(), 1);
    assert!(!consensus.is_window_open_at(start + 2_000));
    consensus.cast_at("B", start + 2_000);
    assert_eq!(consensus.vote_count(), 1);
    consensus.cast_at("B", start + 1_000);
    assert_eq!(consensus.vote_count(), 1);
}

#[test]
fn result_twice_agrees() {
    let decay = ExpDecay::new(60_000).unwrap();
    let mut consensus =
        Consensus::new(decay, majority_escalator(510_000), Window { start: 0, duration: 10_000 });
    consensus.cast_at("A", 0);
    consensus.cast_at("B", 10);
    consensus.cast_at("A", 20);
    let first = consensus.result_at(30);
    let second = consensus.result_at(30);
    assert_eq!(first, Some("A".to_string()));
    assert_eq!(first, second);
}

#[test]
fn tie_on_weight_goes_to_earlier_first_ballot() {
    let decay = StepDecay::new(60_000).unwrap();
    let mut consensus =
        Consensus::new(decay, majority_escalator(500_000), Window { start: 0, duration: 10_000 });
    consensus.cast_at("B", 100);
    consensus.cast_at("A", 200);
    assert_eq!(consensus.result_at(300), Some("B".to_string()));
}

#[test]
fn full_tie_goes_to_dictionary_order() {
    let decay = StepDecay::new(60_000).unwrap();
    let mut consensus =
        Consensus::new(decay, majority_escalator(500_000), Window { start: 0, duration: 10_000 });
    consensus.cast_at("beta", 100);
    consensus.cast_at("alpha", 100);
    assert_eq!(consensus.result_at(300), Some("alpha".to_string()));
}

#[test]
fn heavier_value_wins_even_when_cast_later() {
    let decay = StepDecay::new(60_000).unwrap();
    let mut consensus =
        Consensus::new(decay, majority_escalator(200_000), Window { start: 0, duration: 10_000 });
    consensus.cast_at("A", 0);
    consensus.cast_at("B", 1);
    consensus.cast_at("C", 2);
    consensus.cast_at("C", 3);
    assert_eq!(consensus.result_at(10), Some("C".to_string()));
}

#[test]
fn threshold_above_one_never_decides() {
    let decay = ExpDecay::new(60_000).unwrap();
    let escalator = LinearEsc { base: 1_500_000, slope: 0, cap: 2_000_000, floor: 0 };
    let mut consensus = Consensus::new(decay, escalator, Window { start: 0, duration: 10_000 });
    consensus.cast_at("A", 0);
    assert_eq!(consensus.result_at(1), None);
}

#[test]
fn unanimous_vote_meets_full_threshold() {
    let decay = ExpDecay::new(60_000).unwrap();
    let mut consensus =
        Consensus::new(decay, majority_escalator(1_000_000), Window { start: 0, duration: 10_000 });
    consensus.cast_at("A", 0);
    consensus.cast_at("A", 5);
    assert_eq!(consensus.result_at(10), Some("A".to_string()));
}

#[test]
fn old_ballots_keep_the_weight_floor() {
    // half-life 1 s: after 10 s the decayed weight is far below one tenth,
    // so the floor holds both old ballots at 0.1 against one fresh ballot
    let decay = ExpDecay::new(1_000).unwrap();
    let mut consensus =
        Consensus::new(decay, majority_escalator(510_000), Window { start: 0, duration: 60_000 });
    consensus.cast_at("old", 0);
    consensus.cast_at("old", 0);
    consensus.cast_at("new", 10_000);
    // old: 0.2, new: 1.0, share of new 1/1.2 > 0.51
    assert_eq!(consensus.result_at(10_000), Some("new".to_string()));
}

#[test]
fn escalating_threshold_withholds_a_later_decision() {
    let decay = StepDecay::new(600_000).unwrap();
    // 0.5 at the start, rising 0.1 each second
    let escalator = LinearEsc { base: 500_000, slope: 100_000, cap: 1_000_000, floor: 0 };
    let mut consensus = Consensus::new(decay, escalator, Window { start: 0, duration: 60_000 });
    consensus.cast_at("A", 0);
    consensus.cast_at("A", 0);
    consensus.cast_at("B", 0);
    assert_eq!(consensus.current_threshold_at(0), 500_000);
    assert_eq!(consensus.result_at(0), Some("A".to_string()));
    assert_eq!(consensus.current_threshold_at(2_000), 700_000);
    assert_eq!(consensus.result_at(2_000), None);
}

#[test]
fn time_remaining_counts_down() {
    let decay = ExpDecay::new(60_000).unwrap();
    let consensus =
        Consensus::new(decay, majority_escalator(510_000), Window { start: 1_000, duration: 5_000 });
    assert_eq!(consensus.time_remaining_at(1_000), Some(5_000));
    assert_eq!(consensus.time_remaining_at(4_000), Some(2_000));
    assert_eq!(consensus.time_remaining_at(6_000), Some(0));
    assert_eq!(consensus.time_remaining_at(6_001), None);
    // clock behind the start: nothing has elapsed yet
    assert_eq!(consensus.time_remaining_at(500), Some(5_000));
}

#[test]
fn boxed_strategy_decays_like_its_contents() {
    let decay = Box::new(ExpDecay::new(1_000).unwrap());
    let mut consensus =
        Consensus::new(decay, majority_escalator(510_000), Window { start: 0, duration: 10_000 });
    consensus.cast_at("X", 0);
    consensus.cast_at("Y", 2_000);
    assert_eq!(consensus.result_at(2_000), Some("Y".to_string()));
    assert_eq!(consensus.result_at(0), None);
}
