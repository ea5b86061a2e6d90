use blast_emst_core::{
    end_session, get_last_session_end_time, get_session_count_for_current_week,
    initialize_database, start_new_session, Instant, SessionRow, Store, StoreError, StoreImage,
};

// Monday 1 January 2024, 00:00 UTC.
const MONDAY: i64 = 1_704_067_200;
const HOUR: i64 = 3_600;
const DAY: i64 = 86_400;

fn moment(secs: i64) -> Instant {
    Instant::new(secs, 0).unwrap()
}

fn new_store() -> Store {
    initialize_database(StoreImage::blank()).unwrap()
}

fn completed(store: &mut Store, start: i64, end: i64) -> i64 {
    let id = start_new_session(store, moment(start), 20, "").unwrap();
    end_session(store, moment(end), id, "done");
    id
}

fn row(id: i64, end_time: Option<&str>) -> SessionRow {
    SessionRow {
        id,
        start_time: "2024-01-01T00:00:00+00:00".to_string(),
        end_time: end_time.map(|text| text.to_string()),
        pressure_setting: 20,
        notes: Some(String::new()),
    }
}

fn store_with(rows: Vec<SessionRow>) -> Store {
    initialize_database(StoreImage { profile: None, sessions: rows, reps: Vec::new(), settings: Vec::new() })
        .unwrap()
}

#[test]
fn two_sessions_completed_in_the_week_are_counted_and_an_open_one_is_not() {
    let mut store = new_store();
    completed(&mut store, MONDAY + DAY + 10 * HOUR, MONDAY + DAY + 11 * HOUR);
    completed(&mut store, MONDAY + 2 * DAY + 10 * HOUR, MONDAY + 2 * DAY + 11 * HOUR);
    let now = moment(MONDAY + 3 * DAY);
    assert_eq!(get_session_count_for_current_week(&store, now, 0), Ok(2));
    start_new_session(&mut store, moment(MONDAY + 3 * DAY), 20, "").unwrap();
    assert_eq!(get_session_count_for_current_week(&store, now, 0), Ok(2));
}

#[test]
fn empty_store_counts_no_session() {
    let store = new_store();
    assert_eq!(get_session_count_for_current_week(&store, moment(MONDAY), 0), Ok(0));
}

#[test]
fn sessions_of_other_weeks_are_not_counted() {
    let mut store = new_store();
    completed(&mut store, MONDAY - 2 * HOUR, MONDAY - 1);
    completed(&mut store, MONDAY - HOUR, MONDAY);
    completed(&mut store, MONDAY + 6 * DAY, MONDAY + 7 * DAY - 1);
    completed(&mut store, MONDAY + 6 * DAY, MONDAY + 7 * DAY);
    assert_eq!(get_session_count_for_current_week(&store, moment(MONDAY + DAY), 0), Ok(2));
    assert_eq!(get_session_count_for_current_week(&store, moment(MONDAY - DAY), 0), Ok(1));
    assert_eq!(get_session_count_for_current_week(&store, moment(MONDAY + 8 * DAY), 0), Ok(1));
    assert_eq!(get_session_count_for_current_week(&store, moment(MONDAY + 15 * DAY), 0), Ok(0));
}

#[test]
fn session_counts_by_its_end_and_not_by_its_start() {
    let mut store = new_store();
    completed(&mut store, MONDAY - HOUR, MONDAY + HOUR);
    assert_eq!(get_session_count_for_current_week(&store, moment(MONDAY + DAY), 0), Ok(1));
    assert_eq!(get_session_count_for_current_week(&store, moment(MONDAY - DAY), 0), Ok(0));
}

#[test]
fn week_is_taken_on_the_local_clock() {
    let mut store = new_store();
    // Sunday 23:30 UTC: Monday 00:30 one hour east of UTC.
    completed(&mut store, MONDAY - HOUR, MONDAY - HOUR / 2);
    let now = moment(MONDAY + DAY);
    assert_eq!(get_session_count_for_current_week(&store, now, 0), Ok(0));
    assert_eq!(get_session_count_for_current_week(&store, now, 3_600), Ok(1));
    // Monday 00:30 UTC is still Sunday one hour west of UTC.
    let early = moment(MONDAY + HOUR / 2);
    assert_eq!(get_session_count_for_current_week(&store, early, -3_600), Ok(1));
    assert_eq!(get_session_count_for_current_week(&store, early, 0), Ok(0));
}

#[test]
fn end_time_that_cannot_be_read_fails_the_count() {
    let store = store_with(vec![row(1, Some("2024-01-02T10:00:00+00:00")), row(2, Some("later"))]);
    assert_eq!(
        get_session_count_for_current_week(&store, moment(MONDAY + DAY), 0),
        Err(StoreError::CorruptData)
    );
    assert_eq!(get_last_session_end_time(&store), Err(StoreError::CorruptData));
}

#[test]
fn start_time_that_cannot_be_read_does_not_fail_the_count() {
    let mut odd = row(1, Some("2024-01-02T10:00:00+00:00"));
    odd.start_time = "earlier".to_string();
    let store = store_with(vec![odd]);
    assert_eq!(get_session_count_for_current_week(&store, moment(MONDAY + DAY), 0), Ok(1));
    assert_eq!(get_last_session_end_time(&store), Ok(Some(moment(MONDAY + DAY + 10 * HOUR))));
}

#[test]
fn last_end_time_is_the_latest_end() {
    let mut store = new_store();
    assert_eq!(get_last_session_end_time(&store), Ok(None));
    completed(&mut store, MONDAY, MONDAY + 5 * HOUR);
    completed(&mut store, MONDAY + HOUR, MONDAY + 2 * HOUR);
    completed(&mut store, MONDAY + 2 * HOUR, MONDAY + 3 * HOUR);
    assert_eq!(get_last_session_end_time(&store), Ok(Some(moment(MONDAY + 5 * HOUR))));
}

#[test]
fn last_end_time_is_absent_while_every_session_is_open() {
    let mut store = new_store();
    start_new_session(&mut store, moment(MONDAY), 20, "").unwrap();
    start_new_session(&mut store, moment(MONDAY + HOUR), 20, "").unwrap();
    assert_eq!(get_last_session_end_time(&store), Ok(None));
}

#[test]
fn last_end_time_goes_by_the_instant_and_not_by_the_text() {
    let store = store_with(vec![
        row(1, Some("2024-01-02T10:00:00+00:00")),
        row(2, Some("2024-01-02T11:30:00+02:00")),
        row(3, Some("2024-01-02T09:59:59.999999999Z")),
    ]);
    assert_eq!(get_last_session_end_time(&store), Ok(Some(moment(MONDAY + DAY + 10 * HOUR))));
}

#[test]
fn end_outside_the_four_digit_years_is_counted_in_its_week() {
    let store = store_with(vec![
        row(1, Some("9999-12-31T23:59:59-00:01")),
        row(2, Some("2024-01-02T10:00:00+00:00")),
    ]);
    let then = Instant::parse("9999-12-31T23:59:59-00:01").unwrap();
    assert_eq!(get_session_count_for_current_week(&store, then, 0), Ok(1));
    assert_eq!(get_session_count_for_current_week(&store, moment(MONDAY + DAY), 0), Ok(1));
    assert_eq!(get_last_session_end_time(&store), Ok(Some(then)));
}

#[test]
fn row_without_notes_is_counted_like_any_other() {
    let mut bare = row(1, Some("2024-01-02T10:00:00+00:00"));
    bare.notes = None;
    let store = store_with(vec![bare]);
    assert_eq!(get_session_count_for_current_week(&store, moment(MONDAY + DAY), 0), Ok(1));
    assert_eq!(get_last_session_end_time(&store), Ok(Some(moment(MONDAY + DAY + 10 * HOUR))));
}
