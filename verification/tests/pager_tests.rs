use sdgenbox::pager::pager;

#[test]
fn small_counts_come_out_contiguous_without_gaps() {
    // Whenever count <= 2 * (on_each_side + on_ends), the window is 1..=count.
    for count in 0..=8u32 {
        for current in 1..=8u32 {
            let w = pager(count, current, 2, 2);
            let expected: Vec<Option<u32>> = (1..=count).map(Some).collect();
            assert_eq!(w, expected);
        }
    }
}

#[test]
fn window_fitting_exactly_has_no_gap() {
    assert_eq!(
        pager(5, 3, 2, 2),
        vec![Some(1), Some(2), Some(3), Some(4), Some(5)]
    );
}

#[test]
fn window_near_start_collapses_leading_gap() {
    // current == on_ends + on_each_side + 2: nothing is hidden on the left,
    // so the head stays contiguous and only the trailing gap appears.
    assert_eq!(
        pager(42, 6, 2, 2),
        vec![
            Some(1),
            Some(2),
            Some(3),
            Some(4),
            Some(5),
            Some(6),
            Some(7),
            Some(8),
            None,
            Some(41),
            Some(42)
        ]
    );
}

#[test]
fn window_in_the_middle_has_two_gaps() {
    assert_eq!(
        pager(42, 7, 2, 2),
        vec![
            Some(1),
            Some(2),
            None,
            Some(5),
            Some(6),
            Some(7),
            Some(8),
            Some(9),
            None,
            Some(41),
            Some(42)
        ]
    );
}

#[test]
fn window_near_end_collapses_trailing_gap() {
    assert_eq!(
        pager(50, 48, 2, 2),
        vec![
            Some(1),
            Some(2),
            None,
            Some(46),
            Some(47),
            Some(48),
            Some(49),
            Some(50)
        ]
    );
}

#[test]
fn window_on_last_page() {
    assert_eq!(
        pager(50, 50, 2, 2),
        vec![Some(1), Some(2), None, Some(48), Some(49), Some(50)]
    );
}

#[test]
fn window_for_zero_pages_is_empty() {
    assert_eq!(pager(0, 1, 2, 2), Vec::<Option<u32>>::new());
}

#[test]
fn window_invariants_hold_over_a_sweep() {
    // Numeric entries strictly increase, at most two gaps, and pages 1,
    // count and current are always shown.
    for count in 1..=40u32 {
        for current in 1..=count {
            let w = pager(count, current, 2, 2);
            let numbers: Vec<u32> = w.iter().filter_map(|e| *e).collect();
            for pair in numbers.windows(2) {
                assert!(pair[0] < pair[1]);
            }
            let gaps = w.iter().filter(|e| e.is_none()).count();
            assert!(gaps <= 2);
            assert!(numbers.contains(&1));
            assert!(numbers.contains(&count));
            assert!(numbers.contains(&current));
        }
    }
}
