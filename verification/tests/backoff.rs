use lumend::sources::backoff::{Backoff, Delay};

#[test]
fn backoff_doubles_to_a_cap_and_resets() {
    let mut b = Backoff::new(Delay::from_secs(1), Delay::from_secs(5));
    let delays: Vec<u64> = (0..5).map(|_| b.next_delay().as_secs()).collect();
    assert_eq!(delays, vec![1, 2, 4, 5, 5]);
    b.reset();
    assert_eq!(b.next_delay().as_secs(), 1);
}

#[test]
fn backoff_keeps_nanoseconds_when_doubling() {
    let mut b = Backoff::new(Delay::new(0, 600_000_000), Delay::from_secs(3600));
    let first = b.next_delay();
    assert_eq!((first.as_secs(), first.subsec_nanos()), (0, 600_000_000));
    let second = b.next_delay();
    assert_eq!((second.as_secs(), second.subsec_nanos()), (1, 200_000_000));
    let third = b.next_delay();
    assert_eq!((third.as_secs(), third.subsec_nanos()), (2, 400_000_000));
}

#[test]
fn initial_above_the_cap_drops_to_the_cap() {
    let mut b = Backoff::new(Delay::from_secs(10), Delay::from_secs(4));
    assert_eq!(b.next_delay().as_secs(), 10);
    assert_eq!(b.next_delay().as_secs(), 4);
    assert_eq!(b.next_delay().as_secs(), 4);
}

#[test]
fn delay_carries_whole_seconds_out_of_nanoseconds() {
    let d = Delay::new(2, 2_500_000_000);
    assert_eq!((d.as_secs(), d.subsec_nanos()), (4, 500_000_000));
}
