use scheduler::utils::{filter_unique, map_unique};

#[test]
fn test_filter_unique() {
    let collection = vec![
        38, 192, -256, 10, 20, 10, 15, 1, 2, 6, 2, 3, 2, 6, 5, 17, 15, -1, 10, -25,
    ];
    let mut unique = filter_unique(&collection, |d: &i32| d.is_positive() && d < &100);
    let mut expected = vec![38, 10, 20, 15, 1, 2, 6, 3, 5, 17];

    unique.sort_unstable();
    expected.sort_unstable();
    assert_eq!(unique, expected);
}

#[test]
fn test_map_unique() {
    let collection = vec![
        38, 192, -256, 10, 20, 10, 15, 1, 2, 6, 2, 3, 2, 6, 5, 17, 15, -1, 10, -25,
    ];
    let mut unique = map_unique(&collection, |d: &i32| d * 2);
    let mut expected = vec![76, 384, -512, 20, 40, 30, 2, 4, 12, 6, 10, 34, -2, -50];

    unique.sort_unstable();
    expected.sort_unstable();
    assert_eq!(unique, expected);
}

#[test]
fn unique_items_come_in_the_order_of_their_first_occurrence() {
    let collection = vec![3, 1, 3, 2, 1, 5, 2, 8];
    assert_eq!(filter_unique(&collection, |d: &i32| *d < 5), vec![3, 1, 2]);
    assert_eq!(filter_unique(&collection, |_: &i32| true), vec![3, 1, 2, 5, 8]);
    assert_eq!(filter_unique(&collection, |_: &i32| false), Vec::<i32>::new());
    assert_eq!(map_unique(&collection, |d: &i32| d % 3), vec![0, 1, 2]);
    assert_eq!(map_unique(&collection, |d: &i32| d / 4), vec![0, 1, 2]);
    let nothing: Vec<i32> = vec![];
    assert_eq!(map_unique(&nothing, |d: &i32| d + 1), Vec::<i32>::new());
}
