//! The store: the four tables of the diary and the constraints between them.

use vstd::prelude::*;

use crate::entity::{
    ProfileView, RepRow, RepRowView, SessionRow, SessionRowView, Setting, SettingView, UserProfile,
    PROFILE_ID,
};
use crate::error::StoreError;

verus! {

/// The contents of a store: its tables, each as the sequence of its rows in
/// the order in which they were written.
pub struct Contents {
    /// The profile, absent until it is first read.
    pub profile: Option<ProfileView>,
    pub sessions: Seq<SessionRowView>,
    pub reps: Seq<RepRowView>,
    pub settings: Seq<SettingView>,
}

/// The views of a table of session rows.
pub open spec fn session_views(rows: Seq<SessionRow>) -> Seq<SessionRowView> {
    rows.map_values(|row: SessionRow| row@)
}

/// The views of a table of rep rows.
pub open spec fn rep_views(rows: Seq<RepRow>) -> Seq<RepRowView> {
    rows.map_values(|row: RepRow| row@)
}

/// The views of a table of settings.
pub open spec fn setting_views(rows: Seq<Setting>) -> Seq<SettingView> {
    rows.map_values(|row: Setting| row@)
}

/// The view of a profile that may be absent.
pub open spec fn profile_view(profile: Option<UserProfile>) -> Option<ProfileView> {
    match profile {
        Some(found) => Some(found@),
        None => None,
    }
}

/// Whether a table of sessions holds one with the given identity.
pub open spec fn holds_session(sessions: Seq<SessionRowView>, id: i64) -> bool {
    exists|k: int| 0 <= k < sessions.len() && (#[trigger] sessions[k]).id == id
}

/// Whether no two sessions of a table share an identity.
pub open spec fn distinct_sessions(sessions: Seq<SessionRowView>) -> bool {
    forall|i: int, j: int|
        0 <= i < j < sessions.len() ==> (#[trigger] sessions[i]).id != (#[trigger] sessions[j]).id
}

/// Whether no two reps of a table share an identity.
pub open spec fn distinct_reps(reps: Seq<RepRowView>) -> bool {
    forall|i: int, j: int|
        0 <= i < j < reps.len() ==> (#[trigger] reps[i]).id != (#[trigger] reps[j]).id
}

/// Whether no two settings of a table share a key.
pub open spec fn distinct_settings(settings: Seq<SettingView>) -> bool {
    forall|i: int, j: int|
        0 <= i < j < settings.len() ==> (#[trigger] settings[i]).key != (
        #[trigger] settings[j]).key
}

/// Whether every rep of a table belongs to a session of the other.
pub open spec fn reps_belong(reps: Seq<RepRowView>, sessions: Seq<SessionRowView>) -> bool {
    forall|i: int| 0 <= i < reps.len() ==> holds_session(sessions, (#[trigger] reps[i]).session_id)
}

impl Contents {
    /// The constraints of the schema: identities and keys are unique, every
    /// rep belongs to a session, and the profile has the fixed identity.
    pub open spec fn wf(self) -> bool {
        &&& distinct_sessions(self.sessions)
        &&& distinct_reps(self.reps)
        &&& distinct_settings(self.settings)
        &&& reps_belong(self.reps, self.sessions)
        &&& self.profile matches Some(profile) ==> profile.id == PROFILE_ID
    }

    /// The store with no rows.
    pub open spec fn empty() -> Contents {
        Contents {
            profile: None,
            sessions: Seq::empty(),
            reps: Seq::empty(),
            settings: Seq::empty(),
        }
    }

    /// Whether the store holds a session with the given identity.
    pub open spec fn has_session(self, id: i64) -> bool {
        holds_session(self.sessions, id)
    }
}

/// The rows found at a location, with nothing yet known of their constraints.
#[derive(Debug, PartialEq, Eq)]
pub struct StoreImage {
    /// The profile row with the fixed identity, if there is one.
    pub profile: Option<UserProfile>,
    pub sessions: Vec<SessionRow>,
    pub reps: Vec<RepRow>,
    pub settings: Vec<Setting>,
}

impl View for StoreImage {
    type V = Contents;

    open spec fn view(&self) -> Contents {
        Contents {
            profile: profile_view(self.profile),
            sessions: session_views(self.sessions@),
            reps: rep_views(self.reps@),
            settings: setting_views(self.settings@),
        }
    }
}

impl StoreImage {
    /// What a location holds that was never written to: no rows.
    pub fn blank() -> (result: StoreImage)
        ensures
            result@ == Contents::empty(),
    {
        let result = StoreImage {
            profile: None,
            sessions: Vec::new(),
            reps: Vec::new(),
            settings: Vec::new(),
        };
        assert(result@.sessions =~= Seq::empty());
        assert(result@.reps =~= Seq::empty());
        assert(result@.settings =~= Seq::empty());
        result
    }
}

/// An open store. Its rows meet the constraints of the schema whenever
/// [`Store::wf`] holds, which every operation of this crate keeps.
#[derive(Debug)]
pub struct Store {
    pub(crate) profile: Option<UserProfile>,
    pub(crate) sessions: Vec<SessionRow>,
    pub(crate) reps: Vec<RepRow>,
    pub(crate) settings: Vec<Setting>,
}

impl View for Store {
    type V = Contents;

    open(crate) spec fn view(&self) -> Contents {
        Contents {
            profile: profile_view(self.profile),
            sessions: session_views(self.sessions@),
            reps: rep_views(self.reps@),
            settings: setting_views(self.settings@),
        }
    }
}

impl Store {
    /// Whether the rows of the store meet the constraints of the schema.
    pub open spec fn wf(&self) -> bool {
        self@.wf()
    }

    /// A copy of the rows of the store.
    pub fn image(&self) -> (result: StoreImage)
        ensures
            result@ == self@,
    {
        let sessions = copy_sessions(&self.sessions);
        let reps = copy_reps(&self.reps);
        let settings = copy_settings(&self.settings);
        let profile = match &self.profile {
            Some(found) => Some(found.clone()),
            None => None,
        };
        StoreImage { profile, sessions, reps, settings }
    }
}

/// A copy of a table of sessions.
pub(crate) fn copy_sessions(rows: &Vec<SessionRow>) -> (result: Vec<SessionRow>)
    ensures
        session_views(result@) == session_views(rows@),
{
    let mut result: Vec<SessionRow> = Vec::new();
    let mut i: usize = 0;
    while i < rows.len()
        invariant
            i <= rows.len(),
            result.len() == i,
            forall|a: int| 0 <= a < i ==> (#[trigger] result[a])@ == rows[a]@,
        decreases rows.len() - i,
    {
        result.push(rows[i].clone());
        i += 1;
    }
    assert(session_views(result@) =~= session_views(rows@));
    result
}

/// A copy of a table of reps.
pub(crate) fn copy_reps(rows: &Vec<RepRow>) -> (result: Vec<RepRow>)
    ensures
        rep_views(result@) == rep_views(rows@),
{
    let mut result: Vec<RepRow> = Vec::new();
    let mut i: usize = 0;
    while i < rows.len()
        invariant
            i <= rows.len(),
            result.len() == i,
            forall|a: int| 0 <= a < i ==> (#[trigger] result[a])@ == rows[a]@,
        decreases rows.len() - i,
    {
        result.push(rows[i].clone());
        i += 1;
    }
    assert(rep_views(result@) =~= rep_views(rows@));
    result
}

/// A copy of a table of settings.
pub(crate) fn copy_settings(rows: &Vec<Setting>) -> (result: Vec<Setting>)
    ensures
        setting_views(result@) == setting_views(rows@),
{
    let mut result: Vec<Setting> = Vec::new();
    let mut i: usize = 0;
    while i < rows.len()
        invariant
            i <= rows.len(),
            result.len() == i,
            forall|a: int| 0 <= a < i ==> (#[trigger] result[a])@ == rows[a]@,
        decreases rows.len() - i,
    {
        result.push(rows[i].clone());
        i += 1;
    }
    assert(setting_views(result@) =~= setting_views(rows@));
    result
}

/// The place of the first session with the given identity, if there is one.
pub(crate) fn find_session(sessions: &Vec<SessionRow>, id: i64) -> (result: Option<usize>)
    ensures
        match result {
            Some(k) => k < sessions.len() && sessions[k as int].id == id && forall|j: int|
                0 <= j < k ==> (#[trigger] sessions[j]).id != id,
            None => !holds_session(session_views(sessions@), id),
        },
{
    let mut i: usize = 0;
    while i < sessions.len()
        invariant
            i <= sessions.len(),
            forall|j: int| 0 <= j < i ==> (#[trigger] sessions[j]).id != id,
        decreases sessions.len() - i,
    {
        if sessions[i].id == id {
            return Some(i);
        }
        i += 1;
    }
    assert(!holds_session(session_views(sessions@), id)) by {
        assert forall|k: int| 0 <= k < session_views(sessions@).len() implies (
        #[trigger] session_views(sessions@)[k]).id != id by {
            assert(sessions[k].id != id);
        }
    }
    None
}

/// Whether no two sessions of the table share an identity.
fn sessions_are_distinct(sessions: &Vec<SessionRow>) -> (result: bool)
    ensures
        result == distinct_sessions(session_views(sessions@)),
{
    let ghost views = session_views(sessions@);
    let mut j: usize = 0;
    while j < sessions.len()
        invariant
            j <= sessions.len(),
            views == session_views(sessions@),
            forall|a: int, b: int|
                0 <= a < b < j ==> (#[trigger] views[a]).id != (#[trigger] views[b]).id,
        decreases sessions.len() - j,
    {
        let mut i: usize = 0;
        while i < j
            invariant
                i <= j < sessions.len(),
                views == session_views(sessions@),
                forall|a: int| 0 <= a < i ==> (#[trigger] views[a]).id != views[j as int].id,
            decreases j - i,
        {
            if sessions[i].id == sessions[j].id {
                assert(views[i as int].id == views[j as int].id);
                return false;
            }
            i += 1;
        }
        j += 1;
    }
    true
}

/// Whether no two reps of the table share an identity.
fn reps_are_distinct(reps: &Vec<RepRow>) -> (result: bool)
    ensures
        result == distinct_reps(rep_views(reps@)),
{
    let ghost views = rep_views(reps@);
    let mut j: usize = 0;
    while j < reps.len()
        invariant
            j <= reps.len(),
            views == rep_views(reps@),
            forall|a: int, b: int|
                0 <= a < b < j ==> (#[trigger] views[a]).id != (#[trigger] views[b]).id,
        decreases reps.len() - j,
    {
        let mut i: usize = 0;
        while i < j
            invariant
                i <= j < reps.len(),
                views == rep_views(reps@),
                forall|a: int| 0 <= a < i ==> (#[trigger] views[a]).id != views[j as int].id,
            decreases j - i,
        {
            if reps[i].id == reps[j].id {
                assert(views[i as int].id == views[j as int].id);
                return false;
            }
            i += 1;
        }
        j += 1;
    }
    true
}

/// Whether no two settings of the table share a key.
fn settings_are_distinct(settings: &Vec<Setting>) -> (result: bool)
    ensures
        result == distinct_settings(setting_views(settings@)),
{
    let ghost views = setting_views(settings@);
    let mut j: usize = 0;
    while j < settings.len()
        invariant
            j <= settings.len(),
            views == setting_views(settings@),
            forall|a: int, b: int|
                0 <= a < b < j ==> (#[trigger] views[a]).key != (#[trigger] views[b]).key,
        decreases settings.len() - j,
    {
        let mut i: usize = 0;
        while i < j
            invariant
                i <= j < settings.len(),
                views == setting_views(settings@),
                forall|a: int| 0 <= a < i ==> (#[trigger] views[a]).key != views[j as int].key,
            decreases j - i,
        {
            if settings[i].key == settings[j].key {
                assert(views[i as int].key == views[j as int].key);
                return false;
            }
            i += 1;
        }
        j += 1;
    }
    true
}

/// Whether every rep of the one table belongs to a session of the other.
fn reps_have_sessions(reps: &Vec<RepRow>, sessions: &Vec<SessionRow>) -> (result: bool)
    ensures
        result == reps_belong(rep_views(reps@), session_views(sessions@)),
{
    let ghost views = rep_views(reps@);
    let mut i: usize = 0;
    while i < reps.len()
        invariant
            i <= reps.len(),
            views == rep_views(reps@),
            forall|a: int|
                0 <= a < i ==> holds_session(
                    session_views(sessions@),
                    (#[trigger] views[a]).session_id,
                ),
        decreases reps.len() - i,
    {
        match find_session(sessions, reps[i].session_id) {
            Some(k) => {
                assert(session_views(sessions@)[k as int].id == views[i as int].session_id);
            },
            None => {
                assert(!holds_session(session_views(sessions@), views[i as int].session_id));
                return false;
            },
        }
        i += 1;
    }
    true
}

/// What opening a location gives: the rows found there, unchanged, if they
/// meet the constraints of the schema.
pub open spec fn opened(image: Contents) -> Result<Contents, StoreError> {
    if image.wf() {
        Ok(image)
    } else {
        Err(StoreError::StoreOpen)
    }
}

/// Opens the store on the rows found at a location. A location that was
/// never written to holds no rows and gives the empty store. The rows are
/// taken as they are; the call fails with `StoreOpen` exactly if they break
/// a constraint of the schema.
pub fn initialize_database(image: StoreImage) -> (result: Result<Store, StoreError>)
    ensures
        match opened(image@) {
            Ok(rows) => result matches Ok(store) && store@ == rows && store.wf(),
            Err(e) => result matches Err(failure) && failure == e,
        },
{
    let profile_fits = match &image.profile {
        Some(profile) => profile.id == PROFILE_ID,
        None => true,
    };
    if profile_fits && sessions_are_distinct(&image.sessions) && reps_are_distinct(&image.reps)
        && settings_are_distinct(&image.settings) && reps_have_sessions(
        &image.reps,
        &image.sessions,
    ) {
        Ok(
            Store {
                profile: image.profile,
                sessions: image.sessions,
                reps: image.reps,
                settings: image.settings,
            },
        )
    } else {
        Err(StoreError::StoreOpen)
    }
}

} // verus!
