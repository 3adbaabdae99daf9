use lumend::chord::ChordDetector;
use lumend::chord::Key::{self, Down, Up};

fn run(presses: &[(Key, u64)]) -> Vec<bool> {
    let mut d = ChordDetector::default();
    presses.iter().map(|&(k, t)| d.press(k, t)).collect()
}

/// Presses at times in seconds, handed to the detector in milliseconds as
/// the daemon does.
fn run_seconds(presses: &[(Key, f64)]) -> Vec<bool> {
    let ms: Vec<(Key, u64)> = presses
        .iter()
        .map(|&(k, t)| (k, (t * 1000.0).round() as u64))
        .collect();
    run(&ms)
}

#[test]
fn both_keys_together_fire_in_either_order() {
    assert_eq!(run_seconds(&[(Up, 10.0), (Down, 10.03)]), vec![false, true]);
    assert_eq!(run_seconds(&[(Down, 10.0), (Up, 10.1)]), vec![false, true]);
}

#[test]
fn one_after_the_other_does_not_fire() {
    assert_eq!(run_seconds(&[(Down, 10.0), (Up, 10.2)]), vec![false, false]);
    assert_eq!(
        run_seconds(&[(Up, 10.0), (Down, 10.5), (Up, 11.0)]),
        vec![false; 3]
    );
}

#[test]
fn same_key_twice_does_not_fire() {
    assert_eq!(run_seconds(&[(Up, 10.0), (Up, 10.05)]), vec![false, false]);
}

#[test]
fn a_quick_run_of_presses_does_not_fire() {
    let presses = [
        (Up, 10.0),
        (Up, 10.25),
        (Down, 10.33),
        (Up, 10.4),
        (Down, 10.5),
    ];
    assert_eq!(run_seconds(&presses), vec![false; 5]);
}

#[test]
fn a_second_chord_needs_a_pause() {
    let presses = [
        (Up, 10.0),
        (Down, 10.05),
        (Up, 10.6),
        (Down, 10.65),
        (Up, 12.0),
        (Down, 12.04),
    ];
    assert_eq!(
        run_seconds(&presses),
        vec![false, true, false, false, false, true]
    );
}

#[test]
fn window_edges_are_inclusive() {
    assert_eq!(run(&[(Up, 5_000), (Down, 5_120)]), vec![false, true]);
    assert_eq!(run(&[(Up, 5_000), (Down, 5_121)]), vec![false, false]);
    // exactly the quiet span before the first key still counts as quiet
    assert_eq!(
        run(&[(Down, 4_600), (Up, 5_000), (Down, 5_010)]),
        vec![false, false, true]
    );
    // exactly one second after a chord another may fire
    assert_eq!(
        run(&[(Up, 0), (Down, 10), (Up, 1_000), (Down, 1_010)]),
        vec![false, true, false, true]
    );
}

#[test]
fn a_clock_that_steps_back_still_pairs_the_keys() {
    assert_eq!(run(&[(Up, 9_000), (Down, 8_000)]), vec![false, true]);
}

#[test]
fn only_the_last_three_presses_are_remembered() {
    // Four slow presses of one key, then the other key soon after the last:
    // the press before the last is long enough ago to count as quiet.
    let presses = [
        (Up, 1_000),
        (Up, 2_000),
        (Up, 3_000),
        (Up, 4_000),
        (Down, 4_050),
    ];
    assert_eq!(run(&presses), vec![false, false, false, false, true]);
}
