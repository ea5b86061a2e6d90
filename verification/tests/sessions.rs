use blast_emst_core::{
    add_rep, delete_session, end_session, get_active_session, get_all_sessions, get_total_reps,
    initialize_database, start_new_session, Instant, RepRow, Session, SessionRow, Store,
    StoreError, StoreImage,
};

// Monday 1 January 2024, 00:00 UTC.
const NEW_YEAR: i64 = 1_704_067_200;

fn instant(secs: i64) -> Instant {
    Instant::new(secs, 0).unwrap()
}

fn fresh_store() -> Store {
    initialize_database(StoreImage::blank()).unwrap()
}

fn session_row(id: i64, start_time: &str, end_time: Option<&str>) -> SessionRow {
    SessionRow {
        id,
        start_time: start_time.to_string(),
        end_time: end_time.map(|text| text.to_string()),
        pressure_setting: 20,
        notes: Some(String::new()),
    }
}

fn store_of(sessions: Vec<SessionRow>, reps: Vec<RepRow>) -> Store {
    initialize_database(StoreImage { profile: None, sessions, reps, settings: Vec::new() }).unwrap()
}

#[test]
fn started_session_is_the_active_session() {
    let mut store = fresh_store();
    let id = start_new_session(&mut store, instant(NEW_YEAR), 30, "warm up").unwrap();
    assert_eq!(id, 1);
    let active = get_active_session(&store).unwrap();
    assert_eq!(
        active,
        Some(Session {
            id: 1,
            start_time: instant(NEW_YEAR),
            end_time: None,
            pressure_setting: 30,
            notes: "warm up".to_string(),
            rep_count: 0,
        })
    );
}

#[test]
fn started_session_is_stored_as_an_open_row() {
    let mut store = fresh_store();
    start_new_session(&mut store, instant(NEW_YEAR), -5, "").unwrap();
    let image = store.image();
    assert_eq!(
        image.sessions,
        vec![SessionRow {
            id: 1,
            start_time: "2024-01-01T00:00:00+00:00".to_string(),
            end_time: None,
            pressure_setting: -5,
            notes: Some(String::new()),
        }]
    );
    assert!(image.reps.is_empty());
    assert!(image.settings.is_empty());
    assert_eq!(image.profile, None);
}

#[test]
fn identities_count_up_from_one() {
    let mut store = fresh_store();
    assert_eq!(start_new_session(&mut store, instant(NEW_YEAR), 1, "a"), Ok(1));
    assert_eq!(start_new_session(&mut store, instant(NEW_YEAR + 1), 2, "b"), Ok(2));
    assert_eq!(start_new_session(&mut store, instant(NEW_YEAR + 2), 3, "c"), Ok(3));
}

#[test]
fn next_identity_follows_the_greatest_in_the_table() {
    let mut store = store_of(
        vec![
            session_row(7, "2024-01-01T00:00:00+00:00", None),
            session_row(40, "2024-01-01T00:00:00+00:00", None),
            session_row(-3, "2024-01-01T00:00:00+00:00", None),
        ],
        Vec::new(),
    );
    assert_eq!(start_new_session(&mut store, instant(NEW_YEAR), 1, ""), Ok(41));
    assert_eq!(delete_session(&mut store, 41), Ok(()));
    assert_eq!(delete_session(&mut store, 40), Ok(()));
    assert_eq!(start_new_session(&mut store, instant(NEW_YEAR), 1, ""), Ok(8));
}

#[test]
fn start_fails_when_no_identity_is_left() {
    let mut store = store_of(vec![session_row(i64::MAX, "2024-01-01T00:00:00+00:00", None)], Vec::new());
    let before = store.image();
    assert_eq!(start_new_session(&mut store, instant(NEW_YEAR), 1, ""), Err(StoreError::Write));
    assert_eq!(store.image(), before);
}

#[test]
fn ended_session_is_no_longer_active_and_is_listed_with_its_notes() {
    let mut store = fresh_store();
    let id = start_new_session(&mut store, instant(NEW_YEAR), 30, "before").unwrap();
    end_session(&mut store, instant(NEW_YEAR + 600), id, "after");
    assert_eq!(get_active_session(&store), Ok(None));
    let listing = get_all_sessions(&store).unwrap();
    assert_eq!(
        listing,
        vec![Session {
            id,
            start_time: instant(NEW_YEAR),
            end_time: Some(instant(NEW_YEAR + 600)),
            pressure_setting: 30,
            notes: "after".to_string(),
            rep_count: 0,
        }]
    );
}

#[test]
fn ending_a_session_leaves_the_others_as_they_were() {
    let mut store = fresh_store();
    let first = start_new_session(&mut store, instant(NEW_YEAR), 10, "first").unwrap();
    let second = start_new_session(&mut store, instant(NEW_YEAR + 60), 20, "second").unwrap();
    end_session(&mut store, instant(NEW_YEAR + 120), first, "done");
    let active = get_active_session(&store).unwrap().unwrap();
    assert_eq!(active.id, second);
    assert_eq!(active.notes, "second");
    assert_eq!(active.end_time, None);
}

#[test]
fn ending_a_session_that_does_not_exist_changes_nothing() {
    let mut store = fresh_store();
    start_new_session(&mut store, instant(NEW_YEAR), 30, "only").unwrap();
    let before = store.image();
    end_session(&mut store, instant(NEW_YEAR + 600), 99, "nobody");
    assert_eq!(store.image(), before);
}

#[test]
fn ending_again_replaces_end_time_and_notes() {
    let mut store = fresh_store();
    let id = start_new_session(&mut store, instant(NEW_YEAR), 30, "").unwrap();
    end_session(&mut store, instant(NEW_YEAR + 600), id, "one");
    end_session(&mut store, instant(NEW_YEAR + 900), id, "two");
    let listing = get_all_sessions(&store).unwrap();
    assert_eq!(listing.len(), 1);
    assert_eq!(listing[0].end_time, Some(instant(NEW_YEAR + 900)));
    assert_eq!(listing[0].notes, "two");
}

#[test]
fn sessions_are_listed_latest_start_first() {
    let mut store = fresh_store();
    let middle = start_new_session(&mut store, instant(NEW_YEAR + 100), 1, "middle").unwrap();
    let latest = start_new_session(&mut store, instant(NEW_YEAR + 200), 2, "latest").unwrap();
    let earliest = start_new_session(&mut store, instant(NEW_YEAR), 3, "earliest").unwrap();
    let listing = get_all_sessions(&store).unwrap();
    let ids: Vec<i64> = listing.iter().map(|session| session.id).collect();
    assert_eq!(ids, vec![latest, middle, earliest]);
}

#[test]
fn sessions_with_the_same_start_are_listed_by_falling_identity() {
    let mut store = fresh_store();
    start_new_session(&mut store, instant(NEW_YEAR), 1, "").unwrap();
    start_new_session(&mut store, instant(NEW_YEAR), 2, "").unwrap();
    start_new_session(&mut store, instant(NEW_YEAR), 3, "").unwrap();
    let listing = get_all_sessions(&store).unwrap();
    let ids: Vec<i64> = listing.iter().map(|session| session.id).collect();
    assert_eq!(ids, vec![3, 2, 1]);
}

#[test]
fn listing_orders_by_the_instant_and_not_by_the_text() {
    // The second row starts an hour before the first, though its text sorts after it.
    let store = store_of(
        vec![
            session_row(1, "2024-01-01T10:00:00+00:00", None),
            session_row(2, "2024-01-01T11:00:00+02:00", None),
        ],
        Vec::new(),
    );
    let listing = get_all_sessions(&store).unwrap();
    let ids: Vec<i64> = listing.iter().map(|session| session.id).collect();
    assert_eq!(ids, vec![1, 2]);
    assert_eq!(listing[1].start_time, instant(NEW_YEAR + 9 * 3_600));
}

#[test]
fn listing_of_an_empty_store_is_empty() {
    let store = fresh_store();
    assert_eq!(get_all_sessions(&store), Ok(Vec::new()));
    assert_eq!(get_active_session(&store), Ok(None));
}

#[test]
fn listing_counts_the_reps_of_each_session() {
    let mut store = fresh_store();
    let first = start_new_session(&mut store, instant(NEW_YEAR), 1, "").unwrap();
    let second = start_new_session(&mut store, instant(NEW_YEAR + 10), 1, "").unwrap();
    let third = start_new_session(&mut store, instant(NEW_YEAR + 20), 1, "").unwrap();
    add_rep(&mut store, instant(NEW_YEAR + 30), first).unwrap();
    add_rep(&mut store, instant(NEW_YEAR + 31), third).unwrap();
    add_rep(&mut store, instant(NEW_YEAR + 32), first).unwrap();
    let listing = get_all_sessions(&store).unwrap();
    let counts: Vec<(i64, i64)> = listing.iter().map(|session| (session.id, session.rep_count)).collect();
    assert_eq!(counts, vec![(third, 1), (second, 0), (first, 2)]);
}

#[test]
fn of_two_open_sessions_the_later_start_is_active() {
    let mut store = fresh_store();
    let late = start_new_session(&mut store, instant(NEW_YEAR + 500), 1, "late").unwrap();
    let early = start_new_session(&mut store, instant(NEW_YEAR), 2, "early").unwrap();
    assert_eq!(get_active_session(&store).unwrap().unwrap().id, late);
    end_session(&mut store, instant(NEW_YEAR + 600), late, "");
    assert_eq!(get_active_session(&store).unwrap().unwrap().id, early);
}

#[test]
fn of_two_open_sessions_with_one_start_the_higher_identity_is_active() {
    let mut store = fresh_store();
    start_new_session(&mut store, instant(NEW_YEAR), 1, "").unwrap();
    let second = start_new_session(&mut store, instant(NEW_YEAR), 2, "").unwrap();
    assert_eq!(get_active_session(&store).unwrap().unwrap().id, second);
}

#[test]
fn active_session_carries_its_rep_count() {
    let mut store = fresh_store();
    let id = start_new_session(&mut store, instant(NEW_YEAR), 1, "").unwrap();
    add_rep(&mut store, instant(NEW_YEAR + 1), id).unwrap();
    add_rep(&mut store, instant(NEW_YEAR + 2), id).unwrap();
    assert_eq!(get_active_session(&store).unwrap().unwrap().rep_count, 2);
}

#[test]
fn reps_are_stored_with_the_next_identity_and_their_time() {
    let mut store = fresh_store();
    let id = start_new_session(&mut store, instant(NEW_YEAR), 1, "").unwrap();
    assert_eq!(add_rep(&mut store, instant(NEW_YEAR + 5), id), Ok(()));
    assert_eq!(add_rep(&mut store, instant(NEW_YEAR + 9), id), Ok(()));
    assert_eq!(
        store.image().reps,
        vec![
            RepRow { id: 1, session_id: id, rep_timestamp: "2024-01-01T00:00:05+00:00".to_string() },
            RepRow { id: 2, session_id: id, rep_timestamp: "2024-01-01T00:00:09+00:00".to_string() },
        ]
    );
}

#[test]
fn rep_for_a_session_that_does_not_exist_is_a_foreign_key_failure() {
    let mut store = fresh_store();
    assert_eq!(add_rep(&mut store, instant(NEW_YEAR), 1), Err(StoreError::ForeignKey));
    start_new_session(&mut store, instant(NEW_YEAR), 1, "").unwrap();
    let before = store.image();
    assert_eq!(add_rep(&mut store, instant(NEW_YEAR), 2), Err(StoreError::ForeignKey));
    assert_eq!(store.image(), before);
}

#[test]
fn rep_fails_when_no_identity_is_left() {
    let mut store = store_of(
        vec![session_row(1, "2024-01-01T00:00:00+00:00", None)],
        vec![RepRow { id: i64::MAX, session_id: 1, rep_timestamp: "2024-01-01T00:00:01+00:00".to_string() }],
    );
    let before = store.image();
    assert_eq!(add_rep(&mut store, instant(NEW_YEAR), 1), Err(StoreError::Write));
    assert_eq!(add_rep(&mut store, instant(NEW_YEAR), 2), Err(StoreError::ForeignKey));
    assert_eq!(store.image(), before);
}

#[test]
fn total_reps_counts_the_reps_of_one_session() {
    let mut store = fresh_store();
    let first = start_new_session(&mut store, instant(NEW_YEAR), 1, "").unwrap();
    let second = start_new_session(&mut store, instant(NEW_YEAR), 1, "").unwrap();
    assert_eq!(get_total_reps(&store, first), Ok(0));
    add_rep(&mut store, instant(NEW_YEAR), first).unwrap();
    add_rep(&mut store, instant(NEW_YEAR), second).unwrap();
    add_rep(&mut store, instant(NEW_YEAR), first).unwrap();
    assert_eq!(get_total_reps(&store, first), Ok(2));
    assert_eq!(get_total_reps(&store, second), Ok(1));
    assert_eq!(get_total_reps(&store, 99), Ok(0));
}

#[test]
fn deleting_a_session_deletes_its_reps() {
    let mut store = fresh_store();
    let id = start_new_session(&mut store, instant(NEW_YEAR), 1, "").unwrap();
    add_rep(&mut store, instant(NEW_YEAR + 1), id).unwrap();
    add_rep(&mut store, instant(NEW_YEAR + 2), id).unwrap();
    add_rep(&mut store, instant(NEW_YEAR + 3), id).unwrap();
    assert_eq!(get_total_reps(&store, id), Ok(3));
    assert_eq!(delete_session(&mut store, id), Ok(()));
    assert_eq!(get_total_reps(&store, id), Ok(0));
    assert!(store.image().reps.is_empty());
    assert!(store.image().sessions.is_empty());
}

#[test]
fn deleting_a_session_keeps_the_other_sessions_and_their_reps() {
    let mut store = fresh_store();
    let first = start_new_session(&mut store, instant(NEW_YEAR), 1, "first").unwrap();
    let second = start_new_session(&mut store, instant(NEW_YEAR + 1), 2, "second").unwrap();
    let third = start_new_session(&mut store, instant(NEW_YEAR + 2), 3, "third").unwrap();
    add_rep(&mut store, instant(NEW_YEAR + 3), first).unwrap();
    add_rep(&mut store, instant(NEW_YEAR + 4), second).unwrap();
    add_rep(&mut store, instant(NEW_YEAR + 5), third).unwrap();
    add_rep(&mut store, instant(NEW_YEAR + 6), second).unwrap();
    assert_eq!(delete_session(&mut store, second), Ok(()));
    let image = store.image();
    let session_ids: Vec<i64> = image.sessions.iter().map(|row| row.id).collect();
    let rep_ids: Vec<(i64, i64)> = image.reps.iter().map(|row| (row.id, row.session_id)).collect();
    assert_eq!(session_ids, vec![first, third]);
    assert_eq!(rep_ids, vec![(1, first), (3, third)]);
    assert_eq!(get_total_reps(&store, first), Ok(1));
    assert_eq!(get_total_reps(&store, third), Ok(1));
}

#[test]
fn deleting_a_session_that_does_not_exist_is_not_found() {
    let mut store = fresh_store();
    assert_eq!(delete_session(&mut store, 1), Err(StoreError::NotFound));
    let id = start_new_session(&mut store, instant(NEW_YEAR), 1, "").unwrap();
    add_rep(&mut store, instant(NEW_YEAR), id).unwrap();
    let before = store.image();
    assert_eq!(delete_session(&mut store, id + 1), Err(StoreError::NotFound));
    assert_eq!(store.image(), before);
    assert_eq!(delete_session(&mut store, id), Ok(()));
    assert_eq!(delete_session(&mut store, id), Err(StoreError::NotFound));
}

#[test]
fn unreadable_start_time_is_corrupt_data() {
    let store = store_of(
        vec![
            session_row(1, "2024-01-01T00:00:00+00:00", Some("2024-01-01T01:00:00+00:00")),
            session_row(2, "last tuesday", None),
        ],
        Vec::new(),
    );
    assert_eq!(get_all_sessions(&store), Err(StoreError::CorruptData));
    assert_eq!(get_active_session(&store), Err(StoreError::CorruptData));
}

#[test]
fn unreadable_end_time_is_corrupt_data_for_the_listing_only() {
    let store = store_of(
        vec![
            session_row(1, "2024-01-01T00:00:00+00:00", Some("2024-01-01 01:00:00")),
            session_row(2, "2024-01-01T02:00:00+00:00", None),
        ],
        Vec::new(),
    );
    assert_eq!(get_all_sessions(&store), Err(StoreError::CorruptData));
    assert_eq!(get_active_session(&store).unwrap().unwrap().id, 2);
}

#[test]
fn session_is_read_from_its_row() {
    let row = SessionRow {
        id: 12,
        start_time: "2024-01-01T01:00:00+01:00".to_string(),
        end_time: Some("2024-01-01T00:10:00.5Z".to_string()),
        pressure_setting: 45,
        notes: Some("steady".to_string()),
    };
    assert_eq!(
        Session::try_from(&row, 8),
        Ok(Session {
            id: 12,
            start_time: instant(NEW_YEAR),
            end_time: Some(Instant::new(NEW_YEAR + 600, 500_000_000).unwrap()),
            pressure_setting: 45,
            notes: "steady".to_string(),
            rep_count: 8,
        })
    );
}

#[test]
fn session_with_an_unreadable_timestamp_is_not_read() {
    let bad_start = session_row(1, "", None);
    let bad_end = session_row(1, "2024-01-01T00:00:00Z", Some("soon"));
    assert_eq!(Session::try_from(&bad_start, 0), Err(StoreError::CorruptData));
    assert_eq!(Session::try_from(&bad_end, 0), Err(StoreError::CorruptData));
}

#[test]
fn earlier_session_does_not_come_before_a_later_one() {
    let early = Session::try_from(&session_row(5, "2024-01-01T00:00:00Z", None), 0).unwrap();
    let late = Session::try_from(&session_row(4, "2024-01-01T00:00:01Z", None), 0).unwrap();
    let twin = Session::try_from(&session_row(6, "2024-01-01T00:00:00Z", None), 0).unwrap();
    assert!(late.comes_before(&early));
    assert!(!early.comes_before(&late));
    assert!(twin.comes_before(&early));
    assert!(!early.comes_before(&twin));
    assert!(!early.comes_before(&early));
}

#[test]
fn session_with_timestamps_outside_the_four_digit_years_is_read() {
    let row = SessionRow {
        id: 3,
        start_time: "0000-01-01T00:00:00+00:01".to_string(),
        end_time: Some("9999-12-31T23:59:59-00:01".to_string()),
        pressure_setting: 15,
        notes: Some("edge".to_string()),
    };
    assert_eq!(
        Session::try_from(&row, 2),
        Ok(Session {
            id: 3,
            start_time: Instant { secs: -62_167_219_260, nanos: 0 },
            end_time: Some(Instant { secs: 253_402_300_859, nanos: 0 }),
            pressure_setting: 15,
            notes: "edge".to_string(),
            rep_count: 2,
        })
    );
}

#[test]
fn sessions_outside_the_four_digit_years_are_listed_in_their_place() {
    let store = store_of(
        vec![
            session_row(1, "0000-01-01T00:00:00+00:01", None),
            session_row(2, "2024-01-01T00:00:00+00:00", None),
            session_row(3, "9999-12-31T23:59:59-00:01", None),
        ],
        Vec::new(),
    );
    let listing = get_all_sessions(&store).unwrap();
    let ids: Vec<i64> = listing.iter().map(|session| session.id).collect();
    assert_eq!(ids, vec![3, 2, 1]);
    assert_eq!(get_active_session(&store).unwrap().unwrap().id, 3);
}

#[test]
fn session_without_notes_is_a_read_failure() {
    let mut row = session_row(1, "2024-01-01T00:00:00+00:00", None);
    row.notes = None;
    assert_eq!(Session::try_from(&row, 0), Err(StoreError::Read));
    let mut unreadable = session_row(1, "at dawn", None);
    unreadable.notes = None;
    assert_eq!(Session::try_from(&unreadable, 0), Err(StoreError::CorruptData));
}

#[test]
fn row_without_notes_fails_the_reads_that_reach_it() {
    let mut closed = session_row(1, "2024-01-01T00:00:00+00:00", Some("2024-01-01T01:00:00+00:00"));
    closed.notes = None;
    let store = store_of(vec![closed, session_row(2, "2024-01-01T02:00:00+00:00", None)], Vec::new());
    assert_eq!(get_all_sessions(&store), Err(StoreError::Read));
    assert_eq!(get_active_session(&store).unwrap().unwrap().id, 2);
    assert_eq!(get_total_reps(&store, 1), Ok(0));
}

#[test]
fn ending_a_session_gives_it_notes() {
    let mut open = session_row(1, "2024-01-01T00:00:00+00:00", None);
    open.notes = None;
    let mut store = store_of(vec![open], Vec::new());
    assert_eq!(get_active_session(&store), Err(StoreError::Read));
    end_session(&mut store, instant(NEW_YEAR + 60), 1, "done");
    let listing = get_all_sessions(&store).unwrap();
    assert_eq!(listing[0].notes, "done");
}
