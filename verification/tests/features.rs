use lumend::features::{
    app_slot, bucket, name, network_slot, APP_BUCKETS, APP_OFFSET, DIM, NETWORK_BUCKETS,
    NETWORK_OFFSET,
};

#[test]
fn salt_changes_bucket_assignment() {
    let names: Vec<String> = (0..64).map(|i| format!("app{i}")).collect();
    let moved = names
        .iter()
        .filter(|n| bucket(1, n, APP_BUCKETS) != bucket(2, n, APP_BUCKETS))
        .count();
    assert!(moved > 40, "only {moved} of 64 moved");
}

#[test]
fn names_cover_every_index() {
    assert_eq!(name(0), "room light");
    assert_eq!(name(13), "app group 1");
    assert_eq!(name(DIM - 1), "network group 7");
}

#[test]
fn every_index_has_its_name() {
    assert_eq!(name(11), "fullscreen");
    assert_eq!(name(12), "app group 0");
    assert_eq!(name(27), "app group 15");
    assert_eq!(name(28), "network group 0");
    assert_eq!(name(128), "network group 100");
}

#[test]
fn bucket_is_salted_fnv1a() {
    assert_eq!(bucket(0, "firefox", 16), 10);
    assert_eq!(bucket(0, "firefox", 1 << 62), 0xa3a9699062f7e99a % (1 << 62));
    assert_eq!(bucket(42, "firefox", APP_BUCKETS), 0);
    assert_eq!(bucket(42, "/net/x", NETWORK_BUCKETS), 4);
}

#[test]
fn buckets_stay_in_range() {
    for i in 0..200 {
        let text = format!("network-{i}");
        assert!(bucket(i, &text, NETWORK_BUCKETS) < NETWORK_BUCKETS);
        assert_eq!(bucket(i, &text, 1), 0);
    }
}

#[test]
fn app_and_network_slots_are_stable_and_apart() {
    let a = app_slot(42, "Firefox");
    assert_eq!(a, app_slot(42, "Firefox"));
    assert_eq!(a, app_slot(42, "firefox"), "app classes are case-insensitive");
    assert_eq!(a, APP_OFFSET + bucket(42, "firefox", APP_BUCKETS));
    assert!((APP_OFFSET..NETWORK_OFFSET).contains(&a));
    let n = network_slot(42, "/net/connman/iwd/0/4/abc_psk");
    assert_eq!(
        n,
        NETWORK_OFFSET + bucket(42, "/net/connman/iwd/0/4/abc_psk", NETWORK_BUCKETS)
    );
    assert!((NETWORK_OFFSET..DIM).contains(&n));
}
