//! The operations that write to the store: the life of a session, the
//! profile, reps and settings.

use vstd::prelude::*;

use crate::entity::{
    default_profile, ProfileView, RepRow, RepRowView, SessionRow, SessionRowView, SessionView,
    Setting, SettingView, UserProfile, PROFILE_ID,
};
use crate::error::StoreError;
use crate::instant::Instant;
use crate::laws::{
    law_deleted_session_has_no_reps, law_ended_session_is_listed, law_ended_session_is_not_active,
    law_setting_round_trip, law_started_session_is_active,
};
use crate::store::{
    distinct_reps, distinct_sessions, distinct_settings, find_session, holds_session, rep_views,
    session_views, setting_views, Contents, Store,
};

verus! {

/// The identities of a table of sessions, row by row.
pub open spec fn session_ids(sessions: Seq<SessionRowView>) -> Seq<i64> {
    sessions.map_values(|row: SessionRowView| row.id)
}

/// The identities of a table of reps, row by row.
pub open spec fn rep_ids(reps: Seq<RepRowView>) -> Seq<i64> {
    reps.map_values(|row: RepRowView| row.id)
}

/// The greatest of the first `n` identities, for `n` of at least one.
pub open spec fn greatest(ids: Seq<i64>, n: nat) -> int
    decreases n,
{
    if n <= 1 {
        ids[0] as int
    } else if ids[n - 1] > greatest(ids, (n - 1) as nat) {
        ids[n - 1] as int
    } else {
        greatest(ids, (n - 1) as nat)
    }
}

/// The identity that the next row of a table gets: one more than the greatest
/// identity in the table, and 1 in an empty table.
pub open spec fn next_id(ids: Seq<i64>) -> int {
    if ids.len() == 0 {
        1
    } else {
        greatest(ids, ids.len()) + 1
    }
}

/// No identity among the first `n` is above the greatest of them.
pub proof fn lemma_greatest_is_upper_bound(ids: Seq<i64>, n: nat)
    requires
        1 <= n <= ids.len(),
    ensures
        forall|k: int| 0 <= k < n ==> (#[trigger] ids[k]) <= greatest(ids, n),
        i64::MIN <= greatest(ids, n) <= i64::MAX,
    decreases n,
{
    if n > 1 {
        lemma_greatest_is_upper_bound(ids, (n - 1) as nat);
    }
}

/// The next identity is above every identity in the table.
pub proof fn lemma_next_id_is_fresh(ids: Seq<i64>)
    ensures
        forall|k: int| 0 <= k < ids.len() ==> (#[trigger] ids[k]) < next_id(ids),
        i64::MIN < next_id(ids) <= i64::MAX + 1,
{
    if ids.len() > 0 {
        lemma_greatest_is_upper_bound(ids, ids.len());
    }
}

/// Holds of the sessions with another identity than `id`.
pub open spec fn other_session(id: i64) -> spec_fn(SessionRowView) -> bool {
    |row: SessionRowView| row.id != id
}

/// Holds of the reps that belong to another session than `id`.
pub open spec fn rep_of_other_session(id: i64) -> spec_fn(RepRowView) -> bool {
    |row: RepRowView| row.session_id != id
}

/// Whether a table of settings has an entry with the given key.
pub open spec fn holds_setting(settings: Seq<SettingView>, key: Seq<char>) -> bool {
    exists|k: int| 0 <= k < settings.len() && (#[trigger] settings[k]).key == key
}

/// The place of an entry with the given key, if the table has one.
pub open spec fn setting_place(settings: Seq<SettingView>, key: Seq<char>) -> Option<int> {
    if holds_setting(settings, key) {
        Some(choose|k: int| 0 <= k < settings.len() && (#[trigger] settings[k]).key == key)
    } else {
        None
    }
}

/// The value of the entry with the given key, if the table has one.
pub open spec fn setting_value(settings: Seq<SettingView>, key: Seq<char>) -> Option<Seq<char>> {
    match setting_place(settings, key) {
        Some(k) => Some(settings[k].value),
        None => None,
    }
}

impl Contents {
    /// The store with one more session.
    pub open spec fn with_session(self, row: SessionRowView) -> Contents {
        Contents { sessions: self.sessions.push(row), ..self }
    }

    /// The store after a session was started at `now`: `None` where no
    /// identity is left for it.
    pub open spec fn started(self, now: Instant, pressure_setting: i32, notes: Seq<char>) -> Option<
        (Contents, i64),
    > {
        let id = next_id(session_ids(self.sessions));
        if id <= i64::MAX {
            Some(
                (
                    self.with_session(
                        SessionRowView {
                            id: id as i64,
                            start_time: now.text(),
                            end_time: None,
                            pressure_setting,
                            notes: Some(notes),
                        },
                    ),
                    id as i64,
                ),
            )
        } else {
            None
        }
    }

    /// The store after the session with the given identity was ended at
    /// `now`: that row has the end time and the notes, every other row is as
    /// it was.
    pub open spec fn ended(self, now: Instant, id: i64, notes: Seq<char>) -> Contents {
        Contents {
            sessions: self.sessions.map_values(
                |row: SessionRowView|
                    if row.id == id {
                        SessionRowView { end_time: Some(now.text()), notes: Some(notes), ..row }
                    } else {
                        row
                    },
            ),
            ..self
        }
    }

    /// The store with one more rep.
    pub open spec fn with_rep(self, row: RepRowView) -> Contents {
        Contents { reps: self.reps.push(row), ..self }
    }

    /// The store after a rep was added at `now` to the session with the
    /// given identity: `ForeignKey` where there is no such session, `Write`
    /// where no identity is left for the rep.
    pub open spec fn rep_added(self, now: Instant, session_id: i64) -> Result<
        Contents,
        StoreError,
    > {
        let id = next_id(rep_ids(self.reps));
        if !self.has_session(session_id) {
            Err(StoreError::ForeignKey)
        } else if id > i64::MAX {
            Err(StoreError::Write)
        } else {
            Ok(self.with_rep(RepRowView { id: id as i64, session_id, rep_timestamp: now.text() }))
        }
    }

    /// The store after the session with the given identity was deleted:
    /// the session is gone and so is every rep that belonged to it.
    /// `NotFound` where there is no such session.
    pub open spec fn session_deleted(self, id: i64) -> Result<Contents, StoreError> {
        if !self.has_session(id) {
            Err(StoreError::NotFound)
        } else {
            Ok(
                Contents {
                    sessions: self.sessions.filter(other_session(id)),
                    reps: self.reps.filter(rep_of_other_session(id)),
                    ..self
                },
            )
        }
    }

    /// The value stored under a key, if there is one.
    pub open spec fn setting(self, key: Seq<char>) -> Option<Seq<char>> {
        setting_value(self.settings, key)
    }

    /// The store after a value was set under a key: the entry with that key
    /// is replaced where there is one, else the table gets one more entry.
    pub open spec fn with_setting(self, key: Seq<char>, value: Seq<char>) -> Contents {
        let entry = SettingView { key, value };
        Contents {
            settings: match setting_place(self.settings, key) {
                Some(k) => self.settings.update(k, entry),
                None => self.settings.push(entry),
            },
            ..self
        }
    }

    /// The profile that a read returns: the stored one, or the default.
    pub open spec fn profile_or_default(self) -> ProfileView {
        match self.profile {
            Some(profile) => profile,
            None => default_profile(),
        }
    }

    /// The store after its profile was read: it holds the profile read.
    pub open spec fn with_profile_read(self) -> Contents {
        Contents { profile: Some(self.profile_or_default()), ..self }
    }

    /// The store after a profile was written: the stored profile is replaced
    /// where there is one and the identities agree, else nothing changes.
    pub open spec fn with_profile_update(self, profile: ProfileView) -> Contents {
        if self.profile is Some && profile.id == PROFILE_ID {
            Contents { profile: Some(profile), ..self }
        } else {
            self
        }
    }
}

/// The identity for the next row of a table of sessions, where one is left.
fn next_session_id(sessions: &Vec<SessionRow>) -> (result: Option<i64>)
    ensures
        result == if next_id(session_ids(session_views(sessions@))) <= i64::MAX {
            Some(next_id(session_ids(session_views(sessions@))) as i64)
        } else {
            None
        },
{
    if sessions.len() == 0 {
        return Some(1);
    }
    let ghost ids = session_ids(session_views(sessions@));
    let mut top: i64 = sessions[0].id;
    let mut i: usize = 1;
    while i < sessions.len()
        invariant
            1 <= i <= sessions.len(),
            ids == session_ids(session_views(sessions@)),
            top == greatest(ids, i as nat),
        decreases sessions.len() - i,
    {
        if sessions[i].id > top {
            top = sessions[i].id;
        }
        i += 1;
    }
    if top == i64::MAX {
        None
    } else {
        Some(top + 1)
    }
}

/// Starts a session at `now`: the store gets one more row, open, with the
/// next identity, which is returned. Fails with `Write`, and changes
/// nothing, exactly if no identity is left. The text written for `now`
/// reads back as `now`, and the new session is the active session, with
/// the pressure and the notes given and no end time, where every session
/// that was open before can be read and none of them started after `now`.
pub fn start_new_session(
    store: &mut Store,
    now: Instant,
    pressure_setting: i32,
    notes: &str,
) -> (result: Result<i64, StoreError>)
    requires
        old(store).wf(),
        now.writable(),
    ensures
        final(store).wf(),
        match old(store)@.started(now, pressure_setting, notes@) {
            Some((after, id)) => result == Ok::<i64, StoreError>(id) && final(store)@ == after,
            None => result == Err::<i64, StoreError>(StoreError::Write) && final(store)@ == old(
                store,
            )@,
        },
        now.reads_back(),
        result matches Ok(id) ==> (old(store)@.open_sessions_started_by(now)
            ==> final(store)@.is_active(
            SessionView {
                id,
                start_time: now,
                end_time: None,
                pressure_setting,
                notes: notes@,
                rep_count: 0,
            },
        )),
{
    let start_time = now.to_rfc3339();
    let id = match next_session_id(&store.sessions) {
        Some(id) => id,
        None => {
            return Err(StoreError::Write);
        },
    };
    let row = SessionRow {
        id,
        start_time,
        end_time: None,
        pressure_setting,
        notes: Some(notes.to_owned()),
    };
    proof {
        lemma_next_id_is_fresh(session_ids(old(store)@.sessions));
        assert forall|k: int| 0 <= k < old(store)@.sessions.len() implies (
        #[trigger] old(store)@.sessions[k]).id != id by {
            assert(session_ids(old(store)@.sessions)[k] == old(store)@.sessions[k].id);
        }
    }
    store.sessions.push(row);
    proof {
        assert(store@.sessions =~= old(store)@.sessions.push(row@));
        lemma_push_session_keeps_wf(old(store)@, row@);
        if old(store)@.open_sessions_started_by(now) {
            law_started_session_is_active(
                old(store)@,
                now,
                pressure_setting,
                notes@,
                arbitrary(),
            );
        }
    }
    Ok(id)
}

/// A store stays well formed when it gets a session with a new identity.
pub proof fn lemma_push_session_keeps_wf(store: Contents, row: SessionRowView)
    requires
        store.wf(),
        !store.has_session(row.id),
    ensures
        store.with_session(row).wf(),
{
    let after = store.with_session(row);
    assert forall|i: int, j: int| 0 <= i < j < after.sessions.len() implies (
    #[trigger] after.sessions[i]).id != (#[trigger] after.sessions[j]).id by {
        if j == store.sessions.len() {
            assert(store.sessions[i].id != row.id);
        } else {
            assert(store.sessions[i].id != store.sessions[j].id);
        }
    }
    assert forall|i: int| 0 <= i < after.reps.len() implies holds_session(
        after.sessions,
        (#[trigger] after.reps[i]).session_id,
    ) by {
        assert(holds_session(store.sessions, store.reps[i].session_id));
        let k = choose|k: int|
            0 <= k < store.sessions.len() && (#[trigger] store.sessions[k]).id
                == store.reps[i].session_id;
        assert(after.sessions[k].id == store.reps[i].session_id);
    }
}

/// Ends the session with the given identity at `now`: the row gets the end
/// time and the notes. Where no session has that identity nothing changes.
/// Afterwards the session is not the active session, and every listing of
/// the sessions shows it with the notes and the end time given.
pub fn end_session(store: &mut Store, now: Instant, session_id: i64, notes: &str)
    requires
        old(store).wf(),
        now.writable(),
    ensures
        final(store).wf(),
        final(store)@ == old(store)@.ended(now, session_id, notes@),
        now.reads_back(),
        final(store)@.is_not_active(session_id),
        old(store)@.has_session(session_id) ==> final(store)@.lists_as_ended(
            session_id,
            now,
            notes@,
        ),
{
    proof {
        lemma_ended_keeps_wf(store@, now, session_id, notes@);
    }
    let end_time = now.to_rfc3339();
    proof {
        let after = store@.ended(now, session_id, notes@);
        assert forall|session: SessionView| #[trigger] after.is_active(session) implies session.id
            != session_id by {
            law_ended_session_is_not_active(store@, now, session_id, notes@, session);
        }
        if store@.has_session(session_id) {
            assert forall|listing: Seq<SessionView>| #[trigger]
                after.is_listing(listing) implies exists|j: int|
                0 <= j < listing.len() && (#[trigger] listing[j]).id == session_id
                    && listing[j].notes == notes@ && listing[j].end_time == Some(now) by {
                law_ended_session_is_listed(store@, now, session_id, notes@, listing);
            }
        }
    }
    match find_session(&store.sessions, session_id) {
        Some(k) => {
            let row = &store.sessions[k];
            let ended = SessionRow {
                id: row.id,
                start_time: row.start_time.clone(),
                end_time: Some(end_time),
                pressure_setting: row.pressure_setting,
                notes: Some(notes.to_owned()),
            };
            store.sessions.set(k, ended);
            assert(store@.sessions =~= old(store)@.ended(now, session_id, notes@).sessions) by {
                assert forall|j: int| 0 <= j < old(store)@.sessions.len() && j != k implies (
                #[trigger] old(store)@.sessions[j]).id != session_id by {
                    assert(old(store)@.sessions[k as int].id == session_id);
                }
            }
        },
        None => {
            assert(store@.sessions =~= old(store)@.ended(now, session_id, notes@).sessions);
        },
    }
}

/// Ending a session keeps the store well formed.
pub proof fn lemma_ended_keeps_wf(store: Contents, now: Instant, id: i64, notes: Seq<char>)
    requires
        store.wf(),
    ensures
        store.ended(now, id, notes).wf(),
{
    let after = store.ended(now, id, notes);
    assert forall|i: int| 0 <= i < after.sessions.len() implies (#[trigger] after.sessions[i]).id
        == store.sessions[i].id by {}
    assert forall|i: int, j: int| 0 <= i < j < after.sessions.len() implies (
    #[trigger] after.sessions[i]).id != (#[trigger] after.sessions[j]).id by {
        assert(store.sessions[i].id != store.sessions[j].id);
    }
    assert forall|i: int| 0 <= i < after.reps.len() implies holds_session(
        after.sessions,
        (#[trigger] after.reps[i]).session_id,
    ) by {
        assert(holds_session(store.sessions, store.reps[i].session_id));
        let k = choose|k: int|
            0 <= k < store.sessions.len() && (#[trigger] store.sessions[k]).id
                == store.reps[i].session_id;
        assert(after.sessions[k].id == store.reps[i].session_id);
    }
}

/// Reads the profile. A store that holds none yet gets the default profile,
/// with the fixed identity and empty texts, and returns it.
pub fn get_profile(store: &mut Store) -> (result: UserProfile)
    requires
        old(store).wf(),
    ensures
        final(store).wf(),
        result@ == old(store)@.profile_or_default(),
        final(store)@ == old(store)@.with_profile_read(),
{
    match &store.profile {
        Some(profile) => profile.clone(),
        None => {
            let profile = UserProfile {
                id: PROFILE_ID,
                first_name: String::new(),
                last_name: String::new(),
                dob: String::new(),
                speech_therapist: String::new(),
            };
            store.profile = Some(profile.clone());
            profile
        },
    }
}

/// Writes the profile: every field of the stored profile is replaced. The
/// texts are taken as they are. Nothing changes where the store holds no
/// profile yet or the identity is not the fixed one.
pub fn update_profile(store: &mut Store, profile: &UserProfile)
    requires
        old(store).wf(),
    ensures
        final(store).wf(),
        final(store)@ == old(store)@.with_profile_update(profile@),
{
    if store.profile.is_some() && profile.id == PROFILE_ID {
        store.profile = Some(profile.clone());
    }
}

/// The identity for the next row of a table of reps, where one is left.
fn next_rep_id(reps: &Vec<RepRow>) -> (result: Option<i64>)
    ensures
        result == if next_id(rep_ids(rep_views(reps@))) <= i64::MAX {
            Some(next_id(rep_ids(rep_views(reps@))) as i64)
        } else {
            None
        },
{
    if reps.len() == 0 {
        return Some(1);
    }
    let ghost ids = rep_ids(rep_views(reps@));
    let mut top: i64 = reps[0].id;
    let mut i: usize = 1;
    while i < reps.len()
        invariant
            1 <= i <= reps.len(),
            ids == rep_ids(rep_views(reps@)),
            top == greatest(ids, i as nat),
        decreases reps.len() - i,
    {
        if reps[i].id > top {
            top = reps[i].id;
        }
        i += 1;
    }
    if top == i64::MAX {
        None
    } else {
        Some(top + 1)
    }
}

/// Adds a rep at `now` to the session with the given identity. Fails with
/// `ForeignKey` exactly if there is no such session, and else with `Write`
/// exactly if no identity is left; a failure changes nothing.
pub fn add_rep(store: &mut Store, now: Instant, session_id: i64) -> (result: Result<(), StoreError>)
    requires
        old(store).wf(),
        now.writable(),
    ensures
        final(store).wf(),
        match old(store)@.rep_added(now, session_id) {
            Ok(after) => result is Ok && final(store)@ == after,
            Err(e) => result == Err::<(), StoreError>(e) && final(store)@ == old(store)@,
        },
        now.reads_back(),
{
    let rep_timestamp = now.to_rfc3339();
    match find_session(&store.sessions, session_id) {
        Some(k) => {
            assert(store@.sessions[k as int].id == session_id);
        },
        None => {
            return Err(StoreError::ForeignKey);
        },
    }
    let id = match next_rep_id(&store.reps) {
        Some(id) => id,
        None => {
            return Err(StoreError::Write);
        },
    };
    let row = RepRow { id, session_id, rep_timestamp };
    store.reps.push(row);
    proof {
        assert(store@.reps =~= old(store)@.reps.push(row@));
        lemma_push_rep_keeps_wf(old(store)@, row@);
    }
    Ok(())
}

/// A store stays well formed when it gets a rep with the next identity
/// that belongs to one of its sessions.
pub proof fn lemma_push_rep_keeps_wf(store: Contents, row: RepRowView)
    requires
        store.wf(),
        store.has_session(row.session_id),
        row.id == next_id(rep_ids(store.reps)),
    ensures
        store.with_rep(row).wf(),
{
    let after = store.with_rep(row);
    lemma_next_id_is_fresh(rep_ids(store.reps));
    assert forall|i: int, j: int| 0 <= i < j < after.reps.len() implies (
    #[trigger] after.reps[i]).id != (#[trigger] after.reps[j]).id by {
        if j == store.reps.len() {
            assert(rep_ids(store.reps)[i] == store.reps[i].id);
        } else {
            assert(store.reps[i].id != store.reps[j].id);
        }
    }
    assert forall|i: int| 0 <= i < after.reps.len() implies holds_session(
        after.sessions,
        (#[trigger] after.reps[i]).session_id,
    ) by {
        if i < store.reps.len() {
            assert(holds_session(store.sessions, store.reps[i].session_id));
        }
    }
}

/// Takes out of a table the sessions with the given identity.
fn drop_session_rows(rows: &mut Vec<SessionRow>, id: i64)
    ensures
        session_views(final(rows)@) == session_views(old(rows)@).filter(other_session(id)),
{
    let ghost before = session_views(rows@);
    let ghost keep = other_session(id);
    let ghost mut k: int = 0;
    let mut i: usize = 0;
    proof {
        reveal(Seq::filter);
        assert(before.take(0).filter(keep) =~= Seq::<SessionRowView>::empty());
        assert(session_views(rows@) =~= before.take(0).filter(keep) + before.skip(0));
    }
    while i < rows.len()
        invariant
            0 <= k <= before.len(),
            i <= rows.len(),
            keep == other_session(id),
            i == before.take(k).filter(keep).len(),
            session_views(rows@) == before.take(k).filter(keep) + before.skip(k),
        decreases rows.len() - i,
    {
        let ghost current = session_views(rows@);
        proof {
            assert(current.len() == i + before.len() - k);
            assert(current[i as int] == before.skip(k)[0]);
            assert(before.take(k + 1) =~= before.take(k).push(before[k]));
            before.take(k).lemma_filter_push(before[k], keep);
        }
        if rows[i].id == id {
            assert(!keep(before[k]));
            rows.remove(i);
            proof {
                assert(session_views(rows@) =~= current.remove(i as int));
                assert(session_views(rows@) =~= before.take(k + 1).filter(keep) + before.skip(
                    k + 1,
                ));
                k = k + 1;
            }
        } else {
            i += 1;
            proof {
                assert(session_views(rows@) =~= before.take(k + 1).filter(keep) + before.skip(
                    k + 1,
                ));
                k = k + 1;
            }
        }
    }
    proof {
        assert(before.take(k) =~= before);
        assert(session_views(rows@) =~= before.filter(keep));
    }
}

/// Takes out of a table the reps that belong to the given session.
fn drop_rep_rows(rows: &mut Vec<RepRow>, session_id: i64)
    ensures
        rep_views(final(rows)@) == rep_views(old(rows)@).filter(rep_of_other_session(session_id)),
{
    let ghost before = rep_views(rows@);
    let ghost keep = rep_of_other_session(session_id);
    let ghost mut k: int = 0;
    let mut i: usize = 0;
    proof {
        reveal(Seq::filter);
        assert(before.take(0).filter(keep) =~= Seq::<RepRowView>::empty());
        assert(rep_views(rows@) =~= before.take(0).filter(keep) + before.skip(0));
    }
    while i < rows.len()
        invariant
            0 <= k <= before.len(),
            i <= rows.len(),
            keep == rep_of_other_session(session_id),
            i == before.take(k).filter(keep).len(),
            rep_views(rows@) == before.take(k).filter(keep) + before.skip(k),
        decreases rows.len() - i,
    {
        let ghost current = rep_views(rows@);
        proof {
            assert(current.len() == i + before.len() - k);
            assert(current[i as int] == before.skip(k)[0]);
            assert(before.take(k + 1) =~= before.take(k).push(before[k]));
            before.take(k).lemma_filter_push(before[k], keep);
        }
        if rows[i].session_id == session_id {
            assert(!keep(before[k]));
            rows.remove(i);
            proof {
                assert(rep_views(rows@) =~= current.remove(i as int));
                assert(rep_views(rows@) =~= before.take(k + 1).filter(keep) + before.skip(k + 1));
                k = k + 1;
            }
        } else {
            i += 1;
            proof {
                assert(rep_views(rows@) =~= before.take(k + 1).filter(keep) + before.skip(k + 1));
                k = k + 1;
            }
        }
    }
    proof {
        assert(before.take(k) =~= before);
        assert(rep_views(rows@) =~= before.filter(keep));
    }
}

/// Deletes the session with the given identity and, with it, every rep
/// that belongs to it, so that no rep is counted for it afterwards. Fails
/// with `NotFound`, and changes nothing, exactly if there is no such
/// session.
pub fn delete_session(store: &mut Store, session_id: i64) -> (result: Result<(), StoreError>)
    requires
        old(store).wf(),
    ensures
        final(store).wf(),
        match old(store)@.session_deleted(session_id) {
            Ok(after) => result is Ok && final(store)@ == after,
            Err(e) => result == Err::<(), StoreError>(e) && final(store)@ == old(store)@,
        },
        result is Ok ==> final(store)@.total_reps(session_id) == 0,
{
    match find_session(&store.sessions, session_id) {
        Some(k) => {
            assert(store@.sessions[k as int].id == session_id);
        },
        None => {
            return Err(StoreError::NotFound);
        },
    }
    drop_session_rows(&mut store.sessions, session_id);
    drop_rep_rows(&mut store.reps, session_id);
    proof {
        law_deleted_session_has_no_reps(old(store)@, session_id);
    }
    Ok(())
}

/// Taking rows out of a table of sessions leaves the identities distinct.
pub proof fn lemma_filter_keeps_sessions_distinct(
    sessions: Seq<SessionRowView>,
    keep: spec_fn(SessionRowView) -> bool,
)
    requires
        distinct_sessions(sessions),
    ensures
        distinct_sessions(sessions.filter(keep)),
    decreases sessions.len(),
{
    reveal(Seq::filter);
    if sessions.len() > 0 {
        let rest = sessions.drop_last();
        let last = sessions.last();
        assert forall|i: int, j: int| 0 <= i < j < rest.len() implies (#[trigger] rest[i]).id != (
        #[trigger] rest[j]).id by {
            assert(sessions[i].id != sessions[j].id);
        }
        lemma_filter_keeps_sessions_distinct(rest, keep);
        if keep(last) {
            let out = rest.filter(keep).push(last);
            assert forall|i: int, j: int| 0 <= i < j < out.len() implies (#[trigger] out[i]).id != (
            #[trigger] out[j]).id by {
                if j == out.len() - 1 {
                    assert(rest.filter(keep).contains(out[i])) by {
                        assert(rest.filter(keep)[i] == out[i]);
                    }
                    rest.lemma_filter_contains_rev(keep, out[i]);
                    let m = choose|m: int| 0 <= m < rest.len() && rest[m] == out[i];
                    assert(sessions[m].id != sessions[sessions.len() - 1].id);
                } else {
                    assert(rest.filter(keep)[i].id != rest.filter(keep)[j].id);
                }
            }
        }
    }
}

/// Taking rows out of a table of reps leaves the identities distinct.
pub proof fn lemma_filter_keeps_reps_distinct(
    reps: Seq<RepRowView>,
    keep: spec_fn(RepRowView) -> bool,
)
    requires
        distinct_reps(reps),
    ensures
        distinct_reps(reps.filter(keep)),
    decreases reps.len(),
{
    reveal(Seq::filter);
    if reps.len() > 0 {
        let rest = reps.drop_last();
        let last = reps.last();
        assert forall|i: int, j: int| 0 <= i < j < rest.len() implies (#[trigger] rest[i]).id != (
        #[trigger] rest[j]).id by {
            assert(reps[i].id != reps[j].id);
        }
        lemma_filter_keeps_reps_distinct(rest, keep);
        if keep(last) {
            let out = rest.filter(keep).push(last);
            assert forall|i: int, j: int| 0 <= i < j < out.len() implies (#[trigger] out[i]).id != (
            #[trigger] out[j]).id by {
                if j == out.len() - 1 {
                    assert(rest.filter(keep).contains(out[i])) by {
                        assert(rest.filter(keep)[i] == out[i]);
                    }
                    rest.lemma_filter_contains_rev(keep, out[i]);
                    let m = choose|m: int| 0 <= m < rest.len() && rest[m] == out[i];
                    assert(reps[m].id != reps[reps.len() - 1].id);
                } else {
                    assert(rest.filter(keep)[i].id != rest.filter(keep)[j].id);
                }
            }
        }
    }
}

/// Deleting a session with its reps keeps the store well formed.
pub proof fn lemma_deleted_keeps_wf(store: Contents, id: i64)
    requires
        store.wf(),
        store.has_session(id),
    ensures
        store.session_deleted(id) matches Ok(after) && after.wf(),
{
    let after = store.session_deleted(id)->Ok_0;
    let keep_session = other_session(id);
    let keep_rep = rep_of_other_session(id);
    lemma_filter_keeps_sessions_distinct(store.sessions, keep_session);
    lemma_filter_keeps_reps_distinct(store.reps, keep_rep);
    assert forall|i: int| 0 <= i < after.reps.len() implies holds_session(
        after.sessions,
        (#[trigger] after.reps[i]).session_id,
    ) by {
        let rep = after.reps[i];
        store.reps.lemma_filter_pred(keep_rep, i);
        assert(store.reps.filter(keep_rep).contains(rep));
        store.reps.lemma_filter_contains_rev(keep_rep, rep);
        let m = choose|m: int| 0 <= m < store.reps.len() && store.reps[m] == rep;
        assert(holds_session(store.sessions, store.reps[m].session_id));
        let k = choose|k: int|
            0 <= k < store.sessions.len() && (#[trigger] store.sessions[k]).id == rep.session_id;
        assert(keep_session(store.sessions[k]));
        store.sessions.lemma_filter_contains(keep_session, k);
        let n = choose|n: int|
            0 <= n < after.sessions.len() && after.sessions[n] == store.sessions[k];
        assert(after.sessions[n].id == rep.session_id);
    }
}

/// In a table with distinct keys, an entry is found at its own place.
pub proof fn lemma_setting_place(settings: Seq<SettingView>, i: int)
    requires
        distinct_settings(settings),
        0 <= i < settings.len(),
    ensures
        setting_place(settings, settings[i].key) == Some(i),
        setting_value(settings, settings[i].key) == Some(settings[i].value),
{
    let key = settings[i].key;
    assert(holds_setting(settings, key));
    let k = choose|k: int| 0 <= k < settings.len() && (#[trigger] settings[k]).key == key;
    if k < i {
        assert(settings[k].key != settings[i].key);
    } else if i < k {
        assert(settings[i].key != settings[k].key);
    }
}

/// The place of the entry with the given key, if the table has one.
fn find_setting(settings: &Vec<Setting>, key: &String) -> (result: Option<usize>)
    requires
        distinct_settings(setting_views(settings@)),
    ensures
        match result {
            Some(k) => k < settings.len() && setting_place(setting_views(settings@), key@) == Some(
                k as int,
            ),
            None => setting_place(setting_views(settings@), key@) is None,
        },
{
    let ghost views = setting_views(settings@);
    let mut i: usize = 0;
    while i < settings.len()
        invariant
            i <= settings.len(),
            views == setting_views(settings@),
            distinct_settings(views),
            forall|j: int| 0 <= j < i ==> (#[trigger] views[j]).key != key@,
        decreases settings.len() - i,
    {
        if settings[i].key == *key {
            proof {
                assert(views[i as int].key == key@);
                lemma_setting_place(views, i as int);
            }
            return Some(i);
        }
        i += 1;
    }
    None
}

/// Reads the value stored under a key: `None` where the key is not set.
pub fn get_setting(store: &Store, key: &str) -> (result: Option<String>)
    requires
        store.wf(),
    ensures
        match result {
            Some(value) => store@.setting(key@) == Some(value@),
            None => store@.setting(key@) is None,
        },
{
    let wanted = key.to_owned();
    match find_setting(&store.settings, &wanted) {
        Some(k) => Some(store.settings[k].value.clone()),
        None => None,
    }
}

/// Stores a value under a key, in place of the value that the key had:
/// it is the value read under the key afterwards.
pub fn set_setting(store: &mut Store, key: &str, value: &str)
    requires
        old(store).wf(),
    ensures
        final(store).wf(),
        final(store)@ == old(store)@.with_setting(key@, value@),
        final(store)@.setting(key@) == Some(value@),
{
    let entry = Setting { key: key.to_owned(), value: value.to_owned() };
    proof {
        law_setting_round_trip(store@, key@, value@, key@, value@);
    }
    match find_setting(&store.settings, &entry.key) {
        Some(k) => {
            store.settings.set(k, entry);
            assert(store@.settings =~= old(store)@.with_setting(key@, value@).settings);
        },
        None => {
            store.settings.push(entry);
            assert(store@.settings =~= old(store)@.with_setting(key@, value@).settings);
        },
    }
}

/// Setting a value keeps the store well formed.
pub proof fn lemma_with_setting_keeps_wf(store: Contents, key: Seq<char>, value: Seq<char>)
    requires
        store.wf(),
    ensures
        store.with_setting(key, value).wf(),
{
    let after = store.with_setting(key, value);
    match setting_place(store.settings, key) {
        Some(k) => {
            assert forall|i: int, j: int| 0 <= i < j < after.settings.len() implies (
            #[trigger] after.settings[i]).key != (#[trigger] after.settings[j]).key by {
                assert(store.settings[i].key != store.settings[j].key);
            }
        },
        None => {
            assert forall|i: int, j: int| 0 <= i < j < after.settings.len() implies (
            #[trigger] after.settings[i]).key != (#[trigger] after.settings[j]).key by {
                if j == store.settings.len() {
                    assert(store.settings[i].key != key);
                } else {
                    assert(store.settings[i].key != store.settings[j].key);
                }
            }
        },
    }
}

} // verus!
