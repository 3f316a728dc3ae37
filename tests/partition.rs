use scriptlets::partition::partition_single_int;

#[test]
fn small_numbers() {
    assert_eq!(partition_single_int(0), vec![vec![0]]);
    assert_eq!(partition_single_int(1), vec![vec![1]]);
    assert_eq!(partition_single_int(2), vec![vec![2], vec![1, 1]]);
}

#[test]
fn three() {
    assert_eq!(partition_single_int(3), vec![vec![3], vec![1, 2], vec![1, 1, 1]]);
}

#[test]
fn four_with_repeats() {
    assert_eq!(
        partition_single_int(4),
        vec![
            vec![4],
            vec![2, 2],
            vec![2, 1, 1],
            vec![1, 1, 2],
            vec![1, 1, 1, 1],
            vec![1, 3],
            vec![1, 1, 2],
            vec![1, 1, 1, 1],
        ]
    );
}

#[test]
fn five_has_fifteen_listings_summing_to_five() {
    let parts = partition_single_int(5);
    assert_eq!(parts.len(), 15);
    assert_eq!(parts[1], vec![2, 3]);
    assert_eq!(parts[7], vec![1, 4]);
    for p in &parts {
        assert_eq!(p.iter().map(|x| *x as u32).sum::<u32>(), 5);
        assert!(p.iter().all(|x| *x >= 1));
    }
}
