use anything_to_ascii::subsample::{
    par_select_spaced_items, pick, seq_select_spaced_items, spaced_index_of,
    spaced_places_parallel, spaced_places_sequential,
};

#[test]
fn all_items_come_back_where_enough_are_asked_for() {
    let items = vec!["a", "b", "c", "d"];
    assert_eq!(seq_select_spaced_items(items.clone(), None), items);
    assert_eq!(seq_select_spaced_items(items.clone(), Some(4)), items);
    assert_eq!(seq_select_spaced_items(items.clone(), Some(5)), items);
    assert_eq!(seq_select_spaced_items(items.clone(), Some(usize::MAX)), items);
    assert_eq!(par_select_spaced_items(items.clone(), None), items);
    assert_eq!(par_select_spaced_items(items.clone(), Some(4)), items);
    assert_eq!(par_select_spaced_items(items.clone(), Some(100)), items);
    let twice = vec![1, 1, 2, 2];
    assert_eq!(seq_select_spaced_items(twice.clone(), Some(9)), twice);
}

#[test]
fn fewer_items_are_evenly_spaced() {
    let items: Vec<usize> = (0..10).collect();
    assert_eq!(seq_select_spaced_items(items.clone(), Some(5)), vec![0, 2, 4, 6, 8]);
    assert_eq!(seq_select_spaced_items(items.clone(), Some(3)), vec![0, 3, 6]);
    assert_eq!(seq_select_spaced_items(items.clone(), Some(4)), vec![0, 2, 5, 7]);
    assert_eq!(seq_select_spaced_items(items.clone(), Some(1)), vec![0]);
    assert_eq!(
        seq_select_spaced_items(items.clone(), Some(9)),
        vec![0, 1, 2, 3, 4, 5, 6, 7, 8]
    );
    assert_eq!(seq_select_spaced_items(items.clone(), Some(7)), vec![0, 1, 2, 4, 5, 7, 8]);
    assert_eq!(seq_select_spaced_items(items.clone(), Some(0)), Vec::<usize>::new());
    assert_eq!(par_select_spaced_items(items.clone(), Some(5)), vec![0, 2, 4, 6, 8]);
    assert_eq!(par_select_spaced_items(items.clone(), Some(4)), vec![0, 2, 5, 7]);
    assert_eq!(par_select_spaced_items(items.clone(), Some(0)), Vec::<usize>::new());
}

#[test]
fn the_places_rise_and_start_at_zero() {
    for len in 1..40usize {
        for keep in 1..len {
            let items: Vec<usize> = (0..len).collect();
            let seq = seq_select_spaced_items(items.clone(), Some(keep));
            let par = par_select_spaced_items(items, Some(keep));
            assert_eq!(seq, par);
            assert_eq!(seq.len(), keep);
            assert_eq!(seq[0], 0);
            for i in 0..keep {
                assert_eq!(seq[i], i * len / keep);
                assert!(seq[i] < len);
                if i > 0 {
                    assert!(seq[i - 1] < seq[i]);
                }
            }
        }
    }
}

#[test]
fn nothing_of_nothing() {
    let none: Vec<u8> = Vec::new();
    assert_eq!(seq_select_spaced_items(none.clone(), None), none);
    assert_eq!(seq_select_spaced_items(none.clone(), Some(0)), none);
    assert_eq!(par_select_spaced_items(none.clone(), Some(3)), none);
}

#[test]
fn items_are_moved_not_copied() {
    let items = vec![String::from("zero"), String::from("one"), String::from("two")];
    assert_eq!(seq_select_spaced_items(items.clone(), Some(2)), vec!["zero", "one"]);
    assert_eq!(par_select_spaced_items(items, Some(2)), vec!["zero", "one"]);
}

#[test]
fn places_and_picks() {
    assert_eq!(spaced_index_of(0, 10, 4), 0);
    assert_eq!(spaced_index_of(3, 10, 4), 7);
    assert_eq!(spaced_index_of(usize::MAX - 2, usize::MAX, usize::MAX - 1), usize::MAX - 2);
    assert_eq!(spaced_index_of(1, usize::MAX, 2), usize::MAX / 2);
    assert_eq!(spaced_places_sequential(10, 4), vec![0, 2, 5, 7]);
    assert_eq!(spaced_places_parallel(10, 4), vec![0, 2, 5, 7]);
    assert_eq!(pick(vec!['a', 'b', 'c', 'd'], &vec![1, 3]), vec!['b', 'd']);
    assert_eq!(pick(vec!['a', 'b', 'c', 'd'], &vec![]), Vec::<char>::new());
    assert_eq!(pick(vec!['a', 'b', 'c', 'd'], &vec![0, 1, 2, 3]), vec!['a', 'b', 'c', 'd']);
}
