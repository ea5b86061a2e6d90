//! The derived views of the store: rep totals, the listing of sessions, the
//! active session, the sessions of a week and the last end time. Each is
//! computed from the rows at the time of the call.

use vstd::prelude::*;

use crate::entity::{decode_session, RepRow, RepRowView, Session, SessionRowView, SessionView};
use crate::error::StoreError;
use crate::instant::{decode_instant, Instant};
use crate::store::{rep_views, session_views, Contents, Store};

verus! {

/// Holds of the reps that belong to the session `id`.
pub open spec fn rep_of_session(id: i64) -> spec_fn(RepRowView) -> bool {
    |row: RepRowView| row.session_id == id
}

/// The end of a stored session as an instant: `None` where the session is
/// open or its end time cannot be read.
pub open spec fn end_of(row: SessionRowView) -> Option<Instant> {
    match row.end_time {
        Some(text) => decode_instant(text),
        None => None,
    }
}

/// Whether a stored session has an end time that cannot be read.
pub open spec fn end_unreadable(row: SessionRowView) -> bool {
    row.end_time is Some && end_of(row) is None
}

/// Holds of the sessions that ended in the given week on a clock that is
/// `offset` seconds ahead of UTC.
pub open spec fn ended_in_week(week: int, offset: int) -> spec_fn(SessionRowView) -> bool {
    |row: SessionRowView| end_of(row) matches Some(end) && end.week(offset) == week
}

/// Whether a listing has the latest start first.
pub open spec fn in_order(listing: Seq<SessionView>) -> bool {
    forall|j: int, k: int|
        0 <= j < k < listing.len() ==> (#[trigger] listing[j]).precedes(#[trigger] listing[k])
}

/// The views of a listing of sessions.
pub open spec fn listing_views(listing: Seq<Session>) -> Seq<SessionView> {
    listing.map_values(|session: Session| session@)
}

impl Contents {
    /// The number of reps that belong to the session `id`.
    pub open spec fn total_reps(self, id: i64) -> nat {
        self.reps.filter(rep_of_session(id)).len()
    }

    /// What reading the number of reps of the session `id` gives: the
    /// number, or `Read` where it is too large for the result.
    pub open spec fn rep_total(self, id: i64) -> Result<i64, StoreError> {
        if self.total_reps(id) <= i64::MAX {
            Ok(self.total_reps(id) as i64)
        } else {
            Err(StoreError::Read)
        }
    }

    /// What reading the session in row `i` gives: the session with the
    /// number of its reps, `Read` where that number is too large, and else
    /// what reading the row gives.
    pub open spec fn session_at(self, i: int) -> Result<SessionView, StoreError> {
        match self.rep_total(self.sessions[i].id) {
            Ok(rep_count) => decode_session(self.sessions[i], rep_count),
            Err(e) => Err(e),
        }
    }

    /// Whether each of the first `n` rows of sessions can be read.
    pub open spec fn readable_up_to(self, n: int) -> bool {
        forall|i: int| 0 <= i < n ==> (#[trigger] self.session_at(i)) is Ok
    }

    /// Whether reading the sessions row by row stops with the failure `e`.
    pub open spec fn reading_fails_with(self, e: StoreError) -> bool {
        exists|i: int|
            0 <= i < self.sessions.len() && #[trigger] self.session_at(i) == Err::<
                SessionView,
                StoreError,
            >(e) && self.readable_up_to(i)
    }

    /// Whether `session` is what one of the first `n` rows reads as.
    pub open spec fn reads_before(self, n: int, session: SessionView) -> bool {
        exists|i: int| 0 <= i < n && #[trigger] self.session_at(i) == Ok::<SessionView, StoreError>(
            session,
        )
    }

    /// Whether `listing` is the listing of all sessions: every row read
    /// once, the latest start first.
    pub open spec fn is_listing(self, listing: Seq<SessionView>) -> bool {
        &&& listing.len() == self.sessions.len()
        &&& forall|i: int|
            0 <= i < self.sessions.len() ==> (#[trigger] self.session_at(i) matches Ok(session)
                && listing.contains(session))
        &&& forall|j: int|
            0 <= j < listing.len() ==> self.reads_before(
                self.sessions.len() as int,
                #[trigger] listing[j],
            )
        &&& in_order(listing)
    }

    /// Whether the session in row `i` is open.
    pub open spec fn is_open(self, i: int) -> bool {
        self.sessions[i].end_time is None
    }

    /// Whether no session is open.
    pub open spec fn none_open(self) -> bool {
        forall|i: int| 0 <= i < self.sessions.len() ==> !#[trigger] self.is_open(i)
    }

    /// Whether `session` is one of the first `n` rows, open, and comes
    /// before every other open session among them.
    pub open spec fn leads_open(self, n: int, session: SessionView) -> bool {
        &&& exists|i: int|
            0 <= i < n && self.is_open(i) && #[trigger] self.session_at(i) == Ok::<
                SessionView,
                StoreError,
            >(session)
        &&& forall|i: int|
            0 <= i < n && self.is_open(i) ==> (#[trigger] self.session_at(i) matches Ok(other) && (
            other == session || session.precedes(other)))
    }

    /// Whether `session` is the active session: open, and of the open
    /// sessions the one that started last.
    pub open spec fn is_active(self, session: SessionView) -> bool {
        self.leads_open(self.sessions.len() as int, session)
    }

    /// Whether every open session can be read and none of them started
    /// after `now`.
    pub open spec fn open_sessions_started_by(self, now: Instant) -> bool {
        forall|i: int|
            0 <= i < self.sessions.len() && self.is_open(i) ==> (
            #[trigger] self.session_at(i) matches Ok(open) && !open.start_time.later_than(now))
    }

    /// Whether the session `id` is not the active session.
    pub open spec fn is_not_active(self, id: i64) -> bool {
        forall|session: SessionView| #[trigger] self.is_active(session) ==> session.id != id
    }

    /// Whether every listing of the sessions shows the session `id` with
    /// the given notes and end time.
    pub open spec fn lists_as_ended(self, id: i64, end: Instant, notes: Seq<char>) -> bool {
        forall|listing: Seq<SessionView>| #[trigger]
            self.is_listing(listing) ==> exists|j: int|
                0 <= j < listing.len() && (#[trigger] listing[j]).id == id && listing[j].notes
                    == notes && listing[j].end_time == Some(end)
    }

    /// Whether reading the open sessions row by row stops with the failure
    /// `e`.
    pub open spec fn reading_open_fails_with(self, e: StoreError) -> bool {
        exists|i: int|
            0 <= i < self.sessions.len() && self.is_open(i) && #[trigger] self.session_at(i)
                == Err::<SessionView, StoreError>(e) && forall|j: int|
                0 <= j < i && self.is_open(j) ==> (#[trigger] self.session_at(j)) is Ok
    }

    /// Whether every open session can be read.
    pub open spec fn open_readable(self) -> bool {
        forall|i: int|
            0 <= i < self.sessions.len() && self.is_open(i) ==> (#[trigger] self.session_at(
                i,
            )) is Ok
    }

    /// Whether some completed session has an end time that cannot be read.
    pub open spec fn has_unreadable_end(self) -> bool {
        exists|i: int| 0 <= i < self.sessions.len() && end_unreadable(#[trigger] self.sessions[i])
    }

    /// The number of completed sessions that ended in the week of `now` on
    /// a clock that is `offset` seconds ahead of UTC: `CorruptData` where
    /// an end time cannot be read, `Read` where the number is too large for
    /// the result.
    pub open spec fn sessions_in_week(self, now: Instant, offset: int) -> Result<i32, StoreError> {
        let count = self.sessions.filter(ended_in_week(now.week(offset), offset)).len();
        if self.has_unreadable_end() {
            Err(StoreError::CorruptData)
        } else if count > i32::MAX {
            Err(StoreError::Read)
        } else {
            Ok(count as i32)
        }
    }

    /// Whether `last` is the latest end of a completed session.
    pub open spec fn is_last_end(self, last: Instant) -> bool {
        &&& exists|i: int|
            0 <= i < self.sessions.len() && end_of(#[trigger] self.sessions[i]) == Some(last)
        &&& forall|i: int|
            0 <= i < self.sessions.len() ==> (end_of(#[trigger] self.sessions[i]) matches Some(end)
                ==> !end.later_than(last))
    }

    /// Whether row `place` is the first whose end is `last`, the latest
    /// end of a completed session.
    pub open spec fn is_last_end_row(self, place: int, last: Instant) -> bool {
        &&& 0 <= place < self.sessions.len()
        &&& end_of(self.sessions[place]) == Some(last)
        &&& forall|i: int|
            0 <= i < self.sessions.len() ==> (end_of(#[trigger] self.sessions[i]) matches Some(end)
                ==> !end.later_than(last))
        &&& forall|i: int| 0 <= i < place ==> end_of(#[trigger] self.sessions[i]) != Some(last)
    }

    /// Whether some session is completed.
    pub open spec fn some_completed(self) -> bool {
        exists|i: int|
            0 <= i < self.sessions.len() && (#[trigger] self.sessions[i]).end_time is Some
    }

    /// Whether `outcome` is what reading the last end time gives: the latest
    /// end of a completed session, `None` where no session is completed,
    /// and `CorruptData` where an end time cannot be read.
    pub open spec fn last_end_is(self, outcome: Result<Option<Instant>, StoreError>) -> bool {
        if self.has_unreadable_end() {
            outcome == Err::<Option<Instant>, StoreError>(StoreError::CorruptData)
        } else {
            match outcome {
                Ok(Some(last)) => self.is_last_end(last),
                Ok(None) => forall|i: int|
                    0 <= i < self.sessions.len() ==> (#[trigger] self.sessions[i]).end_time is None,
                Err(_) => false,
            }
        }
    }
}

/// The number of reps in a table that belong to the session `id`.
fn count_rep_rows(reps: &Vec<RepRow>, id: i64) -> (result: usize)
    ensures
        result == rep_views(reps@).filter(rep_of_session(id)).len(),
{
    let ghost views = rep_views(reps@);
    let ghost wanted = rep_of_session(id);
    let mut count: usize = 0;
    let mut i: usize = 0;
    proof {
        reveal(Seq::filter);
        assert(views.take(0).filter(wanted) =~= Seq::<RepRowView>::empty());
    }
    while i < reps.len()
        invariant
            i <= reps.len(),
            views == rep_views(reps@),
            wanted == rep_of_session(id),
            count == views.take(i as int).filter(wanted).len(),
            count <= i,
        decreases reps.len() - i,
    {
        proof {
            assert(views.take(i + 1) =~= views.take(i as int).push(views[i as int]));
            views.take(i as int).lemma_filter_push(views[i as int], wanted);
        }
        if reps[i].session_id == id {
            count += 1;
        }
        i += 1;
    }
    proof {
        assert(views.take(reps.len() as int) =~= views);
    }
    count
}

/// The number of reps that belong to the session with the given identity:
/// 0 where it has none, and also where there is no such session. Fails with
/// `Read` exactly if the number is too large for the result.
pub fn get_total_reps(store: &Store, session_id: i64) -> (result: Result<i64, StoreError>)
    ensures
        result == store@.rep_total(session_id),
{
    let count = count_rep_rows(&store.reps, session_id);
    if count as u64 > i64::MAX as u64 {
        Err(StoreError::Read)
    } else {
        Ok(count as i64)
    }
}

/// The number of completed sessions that ended in the week of `now`, on a
/// clock that is `offset` seconds ahead of UTC. Weeks run from Monday to
/// Sunday. Open sessions do not count. Fails with `CorruptData` exactly if
/// an end time cannot be read, and else with `Read` exactly if the number
/// is too large for the result.
pub fn get_session_count_for_current_week(store: &Store, now: Instant, offset: i32) -> (result:
    Result<i32, StoreError>)
    ensures
        result == store@.sessions_in_week(now, offset as int),
{
    let week = now.week_on_clock(offset);
    let ghost views = session_views(store.sessions@);
    let ghost wanted = ended_in_week(week as int, offset as int);
    let mut count: usize = 0;
    let mut i: usize = 0;
    proof {
        reveal(Seq::filter);
        assert(views.take(0).filter(wanted) =~= Seq::<SessionRowView>::empty());
    }
    while i < store.sessions.len()
        invariant
            i <= store.sessions.len(),
            views == session_views(store.sessions@),
            views == store@.sessions,
            wanted == ended_in_week(week as int, offset as int),
            count == views.take(i as int).filter(wanted).len(),
            count <= i,
            forall|j: int| 0 <= j < i ==> !end_unreadable(#[trigger] views[j]),
        decreases store.sessions.len() - i,
    {
        proof {
            assert(views.take(i + 1) =~= views.take(i as int).push(views[i as int]));
            views.take(i as int).lemma_filter_push(views[i as int], wanted);
        }
        match &store.sessions[i].end_time {
            Some(text) => match Instant::parse(text.as_str()) {
                Ok(end) => {
                    if end.week_on_clock(offset) == week {
                        count += 1;
                    }
                },
                Err(_) => {
                    assert(end_unreadable(views[i as int]));
                    return Err(StoreError::CorruptData);
                },
            },
            None => {},
        }
        i += 1;
    }
    proof {
        assert(views.take(store.sessions.len() as int) =~= views);
    }
    if count as u64 > i32::MAX as u64 {
        Err(StoreError::Read)
    } else {
        Ok(count as i32)
    }
}

/// The place and the end of the first session whose end is the latest:
/// `None` where no session is completed. Fails with `CorruptData` exactly
/// if an end time cannot be read.
pub(crate) fn find_last_end(store: &Store) -> (result: Result<Option<(usize, Instant)>, StoreError>)
    ensures
        match result {
            Ok(Some((place, last))) => !store@.has_unreadable_end() && store@.is_last_end_row(
                place as int,
                last,
            ),
            Ok(None) => !store@.has_unreadable_end() && !store@.some_completed(),
            Err(e) => e == StoreError::CorruptData && store@.has_unreadable_end(),
        },
{
    let ghost views = session_views(store.sessions@);
    let mut last: Option<(usize, Instant)> = None;
    let mut i: usize = 0;
    while i < store.sessions.len()
        invariant
            i <= store.sessions.len(),
            views == session_views(store.sessions@),
            views == store@.sessions,
            forall|j: int| 0 <= j < i ==> !end_unreadable(#[trigger] views[j]),
            match last {
                Some((place, found)) => {
                    &&& place < i
                    &&& end_of(views[place as int]) == Some(found)
                    &&& forall|j: int|
                        0 <= j < i ==> (end_of(#[trigger] views[j]) matches Some(end)
                            ==> !end.later_than(found))
                    &&& forall|j: int| 0 <= j < place ==> end_of(#[trigger] views[j]) != Some(found)
                },
                None => forall|j: int| 0 <= j < i ==> (#[trigger] views[j]).end_time is None,
            },
        decreases store.sessions.len() - i,
    {
        match &store.sessions[i].end_time {
            Some(text) => match Instant::parse(text.as_str()) {
                Ok(end) => {
                    assert(end_of(views[i as int]) == Some(end));
                    let later = match last {
                        Some((_, found)) => end.is_later_than(&found),
                        None => true,
                    };
                    if later {
                        last = Some((i, end));
                    }
                },
                Err(_) => {
                    assert(end_unreadable(views[i as int]));
                    return Err(StoreError::CorruptData);
                },
            },
            None => {},
        }
        i += 1;
    }
    Ok(last)
}

/// The latest end time among the completed sessions: `None` where no
/// session is completed. Fails with `CorruptData` exactly if an end time
/// cannot be read.
pub fn get_last_session_end_time(store: &Store) -> (result: Result<Option<Instant>, StoreError>)
    ensures
        store@.last_end_is(result),
{
    match find_last_end(store) {
        Ok(Some((place, last))) => {
            assert(end_of(store@.sessions[place as int]) == Some(last));
            Ok(Some(last))
        },
        Ok(None) => Ok(None),
        Err(e) => Err(e),
    }
}

/// Reads the session in row `i` with the number of its reps.
fn read_session_row(store: &Store, i: usize) -> (result: Result<Session, StoreError>)
    requires
        i < store.sessions.len(),
    ensures
        match store@.session_at(i as int) {
            Ok(session) => result matches Ok(read) && read@ == session && session.id
                == store@.sessions[i as int].id,
            Err(e) => result matches Err(failure) && failure == e,
        },
{
    let row = &store.sessions[i];
    let count = count_rep_rows(&store.reps, row.id);
    if count as u64 > i64::MAX as u64 {
        return Err(StoreError::Read);
    }
    Session::try_from(row, count as i64)
}

/// A listing stays in order when a session goes in at the place up to
/// which every session comes before it.
pub proof fn lemma_insert_keeps_order(listing: Seq<SessionView>, place: int, session: SessionView)
    requires
        in_order(listing),
        0 <= place <= listing.len(),
        forall|j: int| 0 <= j < place ==> (#[trigger] listing[j]).precedes(session),
        place < listing.len() ==> !listing[place].precedes(session),
        forall|j: int| 0 <= j < listing.len() ==> (#[trigger] listing[j]).id != session.id,
    ensures
        in_order(listing.insert(place, session)),
{
    let after = listing.insert(place, session);
    assert forall|j: int, k: int| 0 <= j < k < after.len() implies (#[trigger] after[j]).precedes(
        #[trigger] after[k],
    ) by {
        if k == place {
            assert(after[j] == listing[j]);
        } else if j == place {
            assert(after[k] == listing[k - 1]);
            assert(listing[place].id != session.id);
            if k - 1 > place {
                assert(listing[place].precedes(listing[k - 1]));
            }
        } else {
            let a = if j < place {
                j
            } else {
                j - 1
            };
            let b = if k < place {
                k
            } else {
                k - 1
            };
            assert(after[j] == listing[a]);
            assert(after[k] == listing[b]);
            assert(listing[a].precedes(listing[b]));
        }
    }
}

/// All sessions, the latest start first, each with the number of its reps;
/// of two sessions with the same start the one with the higher identity
/// comes first. Fails with the failure of the first row that cannot be
/// read: `Read` where its number of reps is too large, `CorruptData` where
/// a timestamp cannot be read, and else `Read` where it has no notes.
pub fn get_all_sessions(store: &Store) -> (result: Result<Vec<Session>, StoreError>)
    requires
        store.wf(),
    ensures
        match result {
            Ok(listing) => store@.is_listing(listing_views(listing@)),
            Err(e) => store@.reading_fails_with(e),
        },
{
    let mut listing: Vec<Session> = Vec::new();
    let mut i: usize = 0;
    while i < store.sessions.len()
        invariant
            i <= store.sessions.len(),
            store.wf(),
            listing.len() == i,
            store@.readable_up_to(i as int),
            forall|a: int|
                0 <= a < i ==> (#[trigger] store@.session_at(a) matches Ok(session)
                    && listing_views(listing@).contains(session)),
            forall|j: int|
                0 <= j < listing.len() ==> store@.reads_before(
                    i as int,
                    #[trigger] listing_views(listing@)[j],
                ),
            in_order(listing_views(listing@)),
        decreases store.sessions.len() - i,
    {
        let session = match read_session_row(store, i) {
            Ok(session) => session,
            Err(e) => {
                return Err(e);
            },
        };
        let ghost before = listing_views(listing@);
        let mut place: usize = 0;
        while place < listing.len() && listing[place].comes_before(&session)
            invariant
                place <= listing.len(),
                before == listing_views(listing@),
                forall|j: int| 0 <= j < place ==> (#[trigger] before[j]).precedes(session@),
            decreases listing.len() - place,
        {
            place += 1;
        }
        proof {
            assert forall|j: int| 0 <= j < before.len() implies (#[trigger] before[j]).id
                != session@.id by {
                assert(store@.reads_before(i as int, before[j]));
                let a = choose|a: int|
                    0 <= a < i && #[trigger] store@.session_at(a) == Ok::<SessionView, StoreError>(
                        before[j],
                    );
                assert(store@.sessions[a].id != store@.sessions[i as int].id);
            }
            lemma_insert_keeps_order(before, place as int, session@);
        }
        listing.insert(place, session);
        proof {
            let after = listing_views(listing@);
            assert(after =~= before.insert(place as int, session@));
            assert forall|a: int| 0 <= a < i + 1 implies (#[trigger] store@.session_at(a) matches Ok(
                read,
            ) && after.contains(read)) by {
                if a < i {
                    let read = store@.session_at(a)->Ok_0;
                    assert(before.contains(read));
                    let j = choose|j: int| 0 <= j < before.len() && before[j] == read;
                    if j < place {
                        assert(after[j] == read);
                    } else {
                        assert(after[j + 1] == read);
                    }
                } else {
                    assert(after[place as int] == session@);
                }
            }
            assert forall|j: int| 0 <= j < after.len() implies store@.reads_before(
                i + 1,
                #[trigger] after[j],
            ) by {
                if j == place {
                    assert(store@.session_at(i as int) == Ok::<SessionView, StoreError>(after[j]));
                } else {
                    let b = if j < place {
                        j
                    } else {
                        j - 1
                    };
                    assert(after[j] == before[b]);
                    assert(store@.reads_before(i as int, before[b]));
                    let a = choose|a: int|
                        0 <= a < i && #[trigger] store@.session_at(a) == Ok::<
                            SessionView,
                            StoreError,
                        >(before[b]);
                    assert(store@.session_at(a) == Ok::<SessionView, StoreError>(after[j]));
                }
            }
        }
        i += 1;
    }
    Ok(listing)
}

/// The active session: of the open sessions the one that started last,
/// and of two with the same start the one with the higher identity; `None`
/// where no session is open. Fails with the failure of the first open row
/// that cannot be read.
pub fn get_active_session(store: &Store) -> (result: Result<Option<Session>, StoreError>)
    requires
        store.wf(),
    ensures
        match result {
            Ok(Some(session)) => store@.is_active(session@),
            Ok(None) => store@.none_open(),
            Err(e) => store@.reading_open_fails_with(e),
        },
{
    let mut active: Option<Session> = None;
    let mut i: usize = 0;
    while i < store.sessions.len()
        invariant
            i <= store.sessions.len(),
            store.wf(),
            forall|a: int|
                0 <= a < i && store@.is_open(a) ==> (#[trigger] store@.session_at(a)) is Ok,
            match active {
                Some(found) => store@.leads_open(i as int, found@),
                None => forall|a: int| 0 <= a < i ==> !#[trigger] store@.is_open(a),
            },
        decreases store.sessions.len() - i,
    {
        if store.sessions[i].end_time.is_none() {
            assert(store@.is_open(i as int));
            let session = match read_session_row(store, i) {
                Ok(session) => session,
                Err(e) => {
                    return Err(e);
                },
            };
            let leads = match &active {
                Some(found) => session.comes_before(found),
                None => true,
            };
            proof {
                if active is Some {
                    let found = active->0;
                    {
                        let a = choose|a: int|
                            0 <= a < i && store@.is_open(a) && #[trigger] store@.session_at(a)
                                == Ok::<SessionView, StoreError>(found@);
                        assert(store@.sessions[a].id != store@.sessions[i as int].id);
                        assert(found@.id != session@.id);
                        if leads {
                            assert forall|b: int|
                                0 <= b < i + 1 && store@.is_open(b) implies (
                            #[trigger] store@.session_at(b) matches Ok(other) && (other
                                == session@ || session@.precedes(other))) by {
                                if b < i {
                                    let other = store@.session_at(b)->Ok_0;
                                    assert(other == found@ || found@.precedes(other));
                                }
                            }
                            assert(store@.leads_open(i + 1, session@));
                        } else {
                            assert(found@.precedes(session@));
                            assert(store@.leads_open(i + 1, found@));
                        }
                    }
                } else {
                    assert(store@.leads_open(i + 1, session@));
                }
            }
            if leads {
                active = Some(session);
            }
        } else {
            assert(!store@.is_open(i as int));
            proof {
                if active is Some {
                    assert(store@.leads_open(i + 1, active->0@));
                }
            }
        }
        i += 1;
    }
    Ok(active)
}

} // verus!
