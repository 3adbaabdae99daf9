use lumend::echo::{EchoHistory, ECHO_HISTORY};

#[test]
fn own_writes_are_recognised() {
    let mut h = EchoHistory::new(20);
    assert!(h.contains(20));
    assert!(!h.contains(40));
    h.record(40);
    h.record(60);
    assert!(h.contains(20) && h.contains(40) && h.contains(60));
    assert!(!h.contains(50));
}

#[test]
fn only_the_newest_writes_are_remembered() {
    let mut h = EchoHistory::new(1);
    for level in 2..=5 {
        h.record(level);
    }
    assert_eq!(ECHO_HISTORY, 4);
    assert!(!h.contains(1));
    assert!((2..=5).all(|l| h.contains(l)));
    h.record(6);
    assert!(!h.contains(2));
    assert!((3..=6).all(|l| h.contains(l)));
}

#[test]
fn a_change_by_someone_else_forgets_the_writes() {
    let mut h = EchoHistory::new(10);
    h.record(11);
    h.reset(30);
    assert!(h.contains(30));
    assert!(!h.contains(10) && !h.contains(11));
    let copy = h.clone();
    assert!(copy.contains(30) && !copy.contains(11));
}
