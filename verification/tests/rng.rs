use lumend::model::rng::Rng;

fn float_below(x: u64, n: usize) -> usize {
    let u = (x >> 11) as f64 / (1u64 << 53) as f64;
    (u * n as f64) as usize % n.max(1)
}

#[test]
fn same_seed_same_sequence() {
    let a: Vec<u64> = (0..5)
        .scan(Rng::new(9), |r, _| Some(r.next_u64()))
        .collect();
    let b: Vec<u64> = (0..5)
        .scan(Rng::new(9), |r, _| Some(r.next_u64()))
        .collect();
    assert_eq!(a, b);
}

#[test]
fn first_outputs_of_a_known_seed() {
    let mut r = Rng::new(9);
    assert_eq!(r.next_u64(), 17140091623336056118);
    assert_eq!(r.next_u64(), 9993323479439982050);
    assert_eq!(r.next_u64(), 11856959282724256491);
}

#[test]
fn zero_seed_still_produces_a_stream() {
    let mut r = Rng::new(0);
    let values: Vec<u64> = (0..4).map(|_| r.next_u64()).collect();
    assert!(values.iter().all(|v| *v != 0));
    assert_ne!(values[0], values[1]);
}

#[test]
fn below_matches_the_floating_point_formula() {
    let sizes = [
        0usize,
        1,
        2,
        3,
        7,
        10,
        1000,
        12345,
        (1 << 53) - 1,
        (1 << 53) + 1,
        usize::MAX / 3,
        usize::MAX - 1,
        usize::MAX,
    ];
    for seed in 0..200u64 {
        let mut a = Rng::new(seed);
        let mut b = Rng::new(seed);
        for &n in &sizes {
            let x = b.next_u64();
            let got = a.below(n);
            assert_eq!(got, float_below(x, n), "seed {seed} n {n}");
            if n > 0 {
                assert!(got < n);
            } else {
                assert_eq!(got, 0);
            }
        }
    }
}

#[test]
fn shuffle_is_a_permutation_and_repeatable() {
    let mut r1 = Rng::new(5);
    let mut r2 = Rng::new(5);
    let mut a: Vec<u32> = (0..50).collect();
    let mut b: Vec<u32> = (0..50).collect();
    r1.shuffle(&mut a);
    r2.shuffle(&mut b);
    assert_eq!(a, b);
    assert_ne!(a, (0..50).collect::<Vec<u32>>());
    let mut sorted = a.clone();
    sorted.sort();
    assert_eq!(sorted, (0..50).collect::<Vec<u32>>());
}

#[test]
fn shuffle_follows_fisher_yates() {
    let mut r = Rng::new(11);
    let mut expect: Vec<u32> = (0..6).collect();
    let mut probe = r.clone();
    for i in (1..expect.len()).rev() {
        let j = probe.below(i + 1);
        expect.swap(i, j);
    }
    let mut items: Vec<u32> = (0..6).collect();
    r.shuffle(&mut items);
    assert_eq!(items, expect);
    assert_eq!(r.next_u64(), probe.next_u64());
}

#[test]
fn shuffling_nothing_leaves_the_generator_alone() {
    let mut r = Rng::new(3);
    let mut probe = r.clone();
    let mut empty: Vec<u8> = Vec::new();
    r.shuffle(&mut empty);
    assert_eq!(r.next_u64(), probe.next_u64());
}
