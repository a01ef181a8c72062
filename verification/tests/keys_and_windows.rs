use experiments::keys::get_keys_for_interval;
use experiments::paging::{PageCursor, PAGE_SIZE};
use experiments::windows::{applicant_starts, applicant_window, iterate_back_window, steps_grid};

#[test]
fn keys_cover_aligned_interval() {
    assert_eq!(
        get_keys_for_interval(0, 2 * 86400),
        vec![0, 86400, 2 * 86400, 3 * 86400]
    );
}

#[test]
fn keys_of_single_day() {
    assert_eq!(
        get_keys_for_interval(1_660_003_200, 1_660_003_200),
        vec![1_660_003_200, 1_660_089_600]
    );
}

#[test]
fn keys_when_from_after_to() {
    assert_eq!(get_keys_for_interval(500, 100), vec![500]);
}

#[test]
fn keys_of_unaligned_interval() {
    assert_eq!(get_keys_for_interval(100, 86499), vec![100, 86500]);
    assert_eq!(get_keys_for_interval(100, 86500), vec![100, 86500, 172900]);
}

#[test]
fn keys_law_last_past_to_others_within() {
    let (from, to) = (1_000u64, 1_000 + 5 * 86400 + 7);
    let keys = get_keys_for_interval(from, to);
    assert_eq!(keys[0], from);
    for w in keys.windows(2) {
        assert_eq!(w[1], w[0] + 86400);
    }
    for k in &keys[..keys.len() - 1] {
        assert!(*k <= to);
    }
    assert!(*keys.last().unwrap() > to);
    assert_eq!(keys.len(), 7);
}

#[test]
fn applicant_window_from_clock() {
    // 2022-08-10 12:00:00 UTC in milliseconds: day 19214.
    let now = 19214u128 * 86_400_000 + 43_200_000;
    let (from, to) = applicant_window(now, 12, None);
    assert_eq!(from, (19214 - 12 - 2) * 86400);
    assert_eq!(to, from + 11 * 86400);
}

#[test]
fn applicant_window_given_start() {
    let (from, to) = applicant_window(0, 3, Some(1_000));
    assert_eq!(from, 1_000);
    assert_eq!(to, 1_000 + 2 * 86400);
}

#[test]
fn applicant_window_of_one_day() {
    let (from, to) = applicant_window(0, 1, Some(86400));
    assert_eq!((from, to), (86400, 86400));
}

#[test]
fn period_has_days_plus_one_keys() {
    let (from, to) = applicant_window(0, 12, Some(1_659_312_000));
    assert_eq!(get_keys_for_interval(from, to).len(), 13);
}

#[test]
fn iterate_back_window_grows_with_epoch() {
    assert_eq!(iterate_back_window(1000, 0), 20);
    assert_eq!(iterate_back_window(1000, 20), 20);
    assert_eq!(iterate_back_window(1000, 300), 300);
    assert_eq!(iterate_back_window(1000, 5000), 1000);
    assert_eq!(iterate_back_window(0, 3), 0);
    assert_eq!(iterate_back_window(49, 0), 0);
}

#[test]
fn steps_grid_is_profit_major() {
    let grid = steps_grid(&vec![1.005f64, 1.01], &vec![100.0f64, 200.0, 300.0]);
    assert_eq!(
        grid,
        vec![
            (1.005, 100.0),
            (1.005, 200.0),
            (1.005, 300.0),
            (1.01, 100.0),
            (1.01, 200.0),
            (1.01, 300.0)
        ]
    );
    let empty: Vec<(u64, u64)> = steps_grid(&vec![], &vec![1u64, 2]);
    assert!(empty.is_empty());
}

#[test]
fn page_cursor_stops_on_short_page() {
    let mut cursor = PageCursor::new();
    assert_eq!(cursor.skip(), 0);
    assert!(!cursor.is_done());
    cursor.record_page(PAGE_SIZE);
    assert_eq!(cursor.skip(), 10);
    assert!(!cursor.is_done());
    cursor.record_page(10);
    assert_eq!(cursor.skip(), 20);
    cursor.record_page(3);
    assert_eq!(cursor.skip(), 30);
    assert!(cursor.is_done());
}

#[test]
fn page_cursor_empty_first_page() {
    let mut cursor = PageCursor::new();
    cursor.record_page(0);
    assert!(cursor.is_done());
    assert_eq!(cursor.skip(), 10);
}

#[test]
fn applicant_starts_after_latest() {
    // today is day 19214; 6-day applicants end on day 19214 - 8.
    let now = 19214u128 * 86_400_000 + 1;
    let end = (19214 - 8) * 86400;
    let starts = applicant_starts(Some(end - 3 * 86400), 1_643_846_400, now, 6);
    assert_eq!(starts, vec![end - 2 * 86400, end - 86400, end]);
}

#[test]
fn applicant_starts_from_default() {
    let now = 19030u128 * 86_400_000;
    let starts = applicant_starts(None, 1_643_846_400, now, 6);
    // 1643846400 is day 19026; the last start is day 19030 - 8 = 19022.
    assert!(starts.is_empty());
    let now = 19040u128 * 86_400_000;
    let starts = applicant_starts(None, 1_643_846_400, now, 6);
    assert_eq!(starts, vec![1_643_846_400, 1_643_846_400 + 86400, 1_643_846_400 + 2 * 86400, 1_643_846_400 + 3 * 86400, 1_643_846_400 + 4 * 86400, 1_643_846_400 + 5 * 86400, 1_643_846_400 + 6 * 86400]);
}
