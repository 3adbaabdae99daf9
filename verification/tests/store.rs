use lumend::store::{prune_plan, MAX_SAMPLES};

fn weak_cap(weak: &[bool]) -> usize {
    let strong = weak.iter().filter(|w| !**w).count();
    ((strong as f64) * 0.3 / (1.0 - 0.3)).floor() as usize
}

#[test]
fn prune_caps_weak_share() {
    let mut weak = vec![false; 10];
    weak.extend(vec![true; 10]);
    let keep = prune_plan(&weak, weak_cap(&weak), MAX_SAMPLES);
    assert!(keep.len() < weak.len());
    let kept_weak: Vec<usize> = keep.iter().copied().filter(|i| weak[*i]).collect();
    assert_eq!(kept_weak.len(), 4);
    assert!(kept_weak.iter().all(|i| *i >= 16));
}

#[test]
fn prune_drops_weak_before_strong_when_full() {
    let mut weak = vec![false; 8];
    weak.push(true);
    weak.push(true);
    let keep = prune_plan(&weak, weak_cap(&weak), 8);
    assert_eq!(keep.len(), 8);
    assert!(keep.iter().all(|i| !weak[*i]));

    let weak: Vec<bool> = keep.iter().map(|i| weak[*i]).collect();
    let keep = prune_plan(&weak, weak_cap(&weak), 5);
    assert_eq!(keep, vec![3, 4, 5, 6, 7]);
}

#[test]
fn prune_leaves_small_sets_alone() {
    let weak = vec![false, false];
    assert_eq!(prune_plan(&weak, weak_cap(&weak), MAX_SAMPLES), vec![0, 1]);
}

#[test]
fn prune_mixes_when_room_allows() {
    let weak = vec![true, false, true, false, false, true, false];
    assert_eq!(prune_plan(&weak, 1, 10), vec![1, 3, 4, 5, 6]);
    assert_eq!(prune_plan(&weak, 3, 5), vec![1, 3, 4, 5, 6]);
    assert_eq!(prune_plan(&weak, 3, 3), vec![3, 4, 6]);
    assert_eq!(prune_plan(&[], 0, 0), Vec::<usize>::new());
}
