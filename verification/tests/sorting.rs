use null_or_die::sorting::{sort_places, Ascending, Descending};

#[test]
fn sorting_is_stable_both_ways() {
    let keys: Vec<i64> = (0..200).map(|i: i64| (i * 37 + i / 7) % 11 - 5).collect();
    let mut up: Vec<usize> = (0..keys.len()).collect();
    let mut down = up.clone();
    up.sort_by_key(|i| keys[*i]);
    down.sort_by(|a, b| keys[*b].cmp(&keys[*a]));
    assert_eq!(sort_places(&Ascending { keys: keys.clone() }), up);
    assert_eq!(sort_places(&Descending { keys }), down);
    assert!(sort_places(&Ascending { keys: Vec::new() }).is_empty());
}
