//! What holds of the operations taken together.
//!
//! Each law is stated over the contents of a store and the functions on
//! them that the contracts of the operations use, so that it holds of
//! every run of the operations. The laws on sessions speak of an instant
//! `now` whose text reads back as itself. [`Instant::to_rfc3339`] shows this
//! of every instant that it writes, so the operations that write `now`
//! state the same laws in their own contracts without that condition.

use vstd::prelude::*;

use crate::entity::{default_profile, RepRowView, SessionRowView, SessionView, SettingView};
use crate::error::StoreError;
use crate::instant::Instant;
use crate::queries::{end_of, end_unreadable, ended_in_week, rep_of_session};
use crate::repository::{
    holds_setting, lemma_deleted_keeps_wf, lemma_ended_keeps_wf, lemma_next_id_is_fresh,
    lemma_push_session_keeps_wf, lemma_setting_place, lemma_with_setting_keeps_wf,
    other_session, rep_of_other_session, session_ids, setting_place,
};
use crate::store::{holds_session, opened, Contents};

verus! {

/// A table in which no rep belongs to the session `id` counts no rep for it.
pub proof fn lemma_no_reps_counted(reps: Seq<RepRowView>, id: i64)
    requires
        forall|i: int| 0 <= i < reps.len() ==> (#[trigger] reps[i]).session_id != id,
    ensures
        reps.filter(rep_of_session(id)).len() == 0,
    decreases reps.len(),
{
    reveal(Seq::filter);
    if reps.len() > 0 {
        let rest = reps.drop_last();
        assert forall|i: int| 0 <= i < rest.len() implies (#[trigger] rest[i]).session_id != id by {
            assert(rest[i] == reps[i]);
        }
        lemma_no_reps_counted(rest, id);
        assert(reps.last() == reps[reps.len() - 1]);
    }
}

/// Opening is idempotent: the rows that open a store are taken as they
/// are, and opening the store's own rows again gives the same store.
pub proof fn law_opening_is_idempotent(image: Contents)
    ensures
        opened(image) matches Ok(rows) ==> rows == image && opened(rows) == opened(image),
        opened(Contents::empty()) == Ok::<Contents, StoreError>(Contents::empty()),
{
}

/// A session that was just started is the active session, with the
/// pressure and the notes it was started with and no end time, provided
/// that every session that was open before can be read and none of them
/// started after `now`.
pub proof fn law_started_session_is_active(
    store: Contents,
    now: Instant,
    pressure_setting: i32,
    notes: Seq<char>,
    active: SessionView,
)
    requires
        store.wf(),
        now.writable(),
        now.reads_back(),
        store.started(now, pressure_setting, notes) is Some,
        store.open_sessions_started_by(now),
    ensures
        ({
            let (after, id) = store.started(now, pressure_setting, notes)->0;
            let started = SessionView {
                id,
                start_time: now,
                end_time: None,
                pressure_setting,
                notes,
                rep_count: 0,
            };
            &&& after.wf()
            &&& after.is_active(started)
            &&& after.is_active(active) ==> active == started
        }),
{
    let (after, id) = store.started(now, pressure_setting, notes)->0;
    let started = SessionView {
        id,
        start_time: now,
        end_time: None,
        pressure_setting,
        notes,
        rep_count: 0,
    };
    let n = store.sessions.len() as int;
    let ids = session_ids(store.sessions);
    lemma_next_id_is_fresh(ids);
    assert forall|k: int| 0 <= k < n implies (#[trigger] store.sessions[k]).id < id by {
        assert(ids[k] == store.sessions[k].id);
    }
    assert(!store.has_session(id));
    lemma_push_session_keeps_wf(store, after.sessions[n]);
    assert(after.reps == store.reps);
    assert forall|i: int| 0 <= i < store.reps.len() implies (#[trigger] store.reps[i]).session_id
        != id by {
        assert(holds_session(store.sessions, store.reps[i].session_id));
    }
    lemma_no_reps_counted(store.reps, id);
    assert(after.session_at(n) == Ok::<SessionView, StoreError>(started));
    assert forall|i: int| 0 <= i < n implies #[trigger] after.session_at(i) == store.session_at(
        i,
    ) by {
        assert(after.sessions[i] == store.sessions[i]);
    }
    assert forall|i: int| 0 <= i < n + 1 && after.is_open(i) implies (
    #[trigger] after.session_at(i) matches Ok(other) && (other == started || started.precedes(
        other,
    ))) by {
        if i < n {
            assert(after.sessions[i] == store.sessions[i]);
            assert(store.is_open(i));
            assert(after.session_at(i) == store.session_at(i));
            let other = store.session_at(i)->Ok_0;
            assert(other.id == store.sessions[i].id);
        }
    }
    assert(after.is_open(n));
    assert(after.leads_open(n + 1, started));
    if after.is_active(active) {
        let i = choose|i: int|
            0 <= i < n + 1 && after.is_open(i) && #[trigger] after.session_at(i) == Ok::<
                SessionView,
                StoreError,
            >(active);
        assert(after.session_at(n) matches Ok(other) && (other == active || active.precedes(
            other,
        )));
        assert(after.session_at(i) matches Ok(other) && (other == started || started.precedes(
            other,
        )));
    }
}

/// After a session was ended it is not the active session.
pub proof fn law_ended_session_is_not_active(
    store: Contents,
    now: Instant,
    id: i64,
    notes: Seq<char>,
    active: SessionView,
)
    requires
        store.wf(),
        store.ended(now, id, notes).is_active(active),
    ensures
        active.id != id,
{
    let after = store.ended(now, id, notes);
    let i = choose|i: int|
        0 <= i < after.sessions.len() && after.is_open(i) && #[trigger] after.session_at(i) == Ok::<
            SessionView,
            StoreError,
        >(active);
    assert(after.sessions[i].end_time is None);
    assert(store.sessions[i].id != id);
    assert(active.id == after.sessions[i].id);
}

/// After a session was ended, every listing of the sessions shows it
/// with the notes given and with `now` as its end time.
pub proof fn law_ended_session_is_listed(
    store: Contents,
    now: Instant,
    id: i64,
    notes: Seq<char>,
    listing: Seq<SessionView>,
)
    requires
        store.wf(),
        now.writable(),
        now.reads_back(),
        store.has_session(id),
        store.ended(now, id, notes).is_listing(listing),
    ensures
        store.ended(now, id, notes).wf(),
        exists|j: int|
            0 <= j < listing.len() && (#[trigger] listing[j]).id == id && listing[j].notes == notes
                && listing[j].end_time == Some(now),
{
    let after = store.ended(now, id, notes);
    lemma_ended_keeps_wf(store, now, id, notes);
    let k = choose|k: int| 0 <= k < store.sessions.len() && (#[trigger] store.sessions[k]).id == id;
    assert(after.sessions[k].id == id);
    assert(after.sessions[k].end_time == Some(now.text()));
    let shown = after.session_at(k)->Ok_0;
    assert(after.session_at(k) is Ok && listing.contains(shown));
    let j = choose|j: int| 0 <= j < listing.len() && listing[j] == shown;
    assert(listing[j].id == id && listing[j].notes == notes && listing[j].end_time == Some(now));
}

/// Ending a session leaves every session readable that was readable.
pub proof fn law_ending_keeps_sessions_readable(
    store: Contents,
    now: Instant,
    id: i64,
    notes: Seq<char>,
)
    requires
        store.wf(),
        now.writable(),
        now.reads_back(),
        store.readable_up_to(store.sessions.len() as int),
    ensures
        store.ended(now, id, notes).readable_up_to(store.sessions.len() as int),
{
    let after = store.ended(now, id, notes);
    assert forall|i: int| 0 <= i < store.sessions.len() implies (#[trigger] after.session_at(
        i,
    )) is Ok by {
        assert(store.session_at(i) is Ok);
        assert(after.sessions[i].id == store.sessions[i].id);
        assert(after.reps == store.reps);
    }
}

/// Deleting a session leaves no rep that belongs to it: its total is 0
/// afterwards, and the session itself is gone.
pub proof fn law_deleted_session_has_no_reps(store: Contents, id: i64)
    requires
        store.wf(),
        store.has_session(id),
    ensures
        store.session_deleted(id) matches Ok(after) && {
            &&& after.wf()
            &&& !after.has_session(id)
            &&& forall|i: int|
                0 <= i < after.reps.len() ==> (#[trigger] after.reps[i]).session_id != id
            &&& after.total_reps(id) == 0
            &&& after.rep_total(id) == Ok::<i64, StoreError>(0)
        },
{
    let after = store.session_deleted(id)->Ok_0;
    lemma_deleted_keeps_wf(store, id);
    assert forall|i: int| 0 <= i < after.reps.len() implies (#[trigger] after.reps[i]).session_id
        != id by {
        store.reps.lemma_filter_pred(rep_of_other_session(id), i);
    }
    assert forall|k: int| 0 <= k < after.sessions.len() implies (#[trigger] after.sessions[k]).id
        != id by {
        store.sessions.lemma_filter_pred(other_session(id), k);
    }
    lemma_no_reps_counted(after.reps, id);
}

/// A value that was set under a key is the value read under it, whatever
/// fallback the reader gives; a key that is not set reads as the fallback;
/// and setting one key leaves the value of every other key as it was.
pub proof fn law_setting_round_trip(
    store: Contents,
    key: Seq<char>,
    value: Seq<char>,
    other: Seq<char>,
    fallback: Seq<char>,
)
    requires
        store.wf(),
    ensures
        store.with_setting(key, value).wf(),
        store.with_setting(key, value).setting(key) == Some(value),
        store.with_setting(key, value).setting_or(key, fallback) == value,
        store.setting(other) is None ==> store.setting_or(other, fallback) == fallback,
        other != key ==> store.with_setting(key, value).setting(other) == store.setting(other),
{
    let after = store.with_setting(key, value);
    lemma_with_setting_keeps_wf(store, key, value);
    let place = match setting_place(store.settings, key) {
        Some(k) => k,
        None => store.settings.len() as int,
    };
    assert(after.settings[place] == SettingView { key, value });
    lemma_setting_place(after.settings, place);
    if other != key {
        if holds_setting(store.settings, other) {
            let k = choose|k: int|
                0 <= k < store.settings.len() && (#[trigger] store.settings[k]).key == other;
            lemma_setting_place(store.settings, k);
            assert(after.settings[k] == store.settings[k]);
            lemma_setting_place(after.settings, k);
        } else {
            if holds_setting(after.settings, other) {
                let k = choose|k: int|
                    0 <= k < after.settings.len() && (#[trigger] after.settings[k]).key == other;
                assert(k != place);
                assert(store.settings[k].key == other);
            }
        }
    }
}

/// A store that holds no profile reads as the default profile, and a
/// profile that was read once is read again unchanged, with no further
/// write to the store.
pub proof fn law_profile_read_is_stable(store: Contents)
    ensures
        Contents::empty().profile_or_default() == default_profile(),
        store.with_profile_read().profile_or_default() == store.profile_or_default(),
        store.with_profile_read().with_profile_read() == store.with_profile_read(),
{
}

/// An open session is not counted among the sessions of a week: starting
/// a session leaves the count of every week as it was.
pub proof fn law_open_session_is_not_counted(
    store: Contents,
    row: SessionRowView,
    now: Instant,
    offset: int,
)
    requires
        row.end_time is None,
    ensures
        store.with_session(row).sessions_in_week(now, offset) == store.sessions_in_week(
            now,
            offset,
        ),
{
    let after = store.with_session(row);
    let wanted = ended_in_week(now.week(offset), offset);
    store.sessions.lemma_filter_push(row, wanted);
    assert(!wanted(row));
    if store.has_unreadable_end() {
        let i = choose|i: int|
            0 <= i < store.sessions.len() && end_unreadable(#[trigger] store.sessions[i]);
        assert(end_unreadable(after.sessions[i]));
    }
    if after.has_unreadable_end() {
        let i = choose|i: int|
            0 <= i < after.sessions.len() && end_unreadable(#[trigger] after.sessions[i]);
        assert(end_unreadable(store.sessions[i]));
    }
}

/// Replacing one row of a table changes the number of rows that a
/// predicate holds of by that row alone.
pub proof fn lemma_filter_update(
    rows: Seq<SessionRowView>,
    place: int,
    row: SessionRowView,
    wanted: spec_fn(SessionRowView) -> bool,
)
    requires
        0 <= place < rows.len(),
    ensures
        rows.update(place, row).filter(wanted).len() + (if wanted(rows[place]) {
            1int
        } else {
            0int
        }) == rows.filter(wanted).len() + (if wanted(row) {
            1int
        } else {
            0int
        }),
{
    let head = rows.take(place);
    let rest = rows.skip(place + 1);
    assert(rows =~= head.push(rows[place]) + rest);
    assert(rows.update(place, row) =~= head.push(row) + rest);
    Seq::filter_distributes_over_add(head.push(rows[place]), rest, wanted);
    Seq::filter_distributes_over_add(head.push(row), rest, wanted);
    head.lemma_filter_push(rows[place], wanted);
    head.lemma_filter_push(row, wanted);
}

/// A session that is ended at `now` is counted in the week of `now`:
/// ending an open session raises the count of that week by one.
pub proof fn law_ended_session_is_counted(
    store: Contents,
    now: Instant,
    id: i64,
    notes: Seq<char>,
    offset: int,
    place: int,
)
    requires
        store.wf(),
        now.writable(),
        now.reads_back(),
        0 <= place < store.sessions.len(),
        store.sessions[place].id == id,
        store.is_open(place),
        store.sessions_in_week(now, offset) matches Ok(count) && count < i32::MAX,
    ensures
        store.ended(now, id, notes).sessions_in_week(now, offset) == Ok::<i32, StoreError>(
            (store.sessions_in_week(now, offset)->Ok_0 + 1) as i32,
        ),
{
    let after = store.ended(now, id, notes);
    let wanted = ended_in_week(now.week(offset), offset);
    let row = after.sessions[place];
    assert(after.sessions =~= store.sessions.update(place, row)) by {
        assert forall|j: int| 0 <= j < store.sessions.len() && j != place implies (
        #[trigger] store.sessions[j]).id != id by {
            assert(store.sessions[place].id == id);
        }
    }
    lemma_filter_update(store.sessions, place, row, wanted);
    assert(end_of(row) == Some(now));
    assert(wanted(row));
    assert(!wanted(store.sessions[place]));
    if after.has_unreadable_end() {
        let i = choose|i: int|
            0 <= i < after.sessions.len() && end_unreadable(#[trigger] after.sessions[i]);
        assert(i != place);
        assert(end_unreadable(store.sessions[i]));
    }
}

} // verus!
