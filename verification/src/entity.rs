//! The entities of the diary: the rows as they are stored, and the sessions
//! and reps that are read from them.

use vstd::prelude::*;

use crate::error::StoreError;
use crate::instant::{decode_instant, Instant};

verus! {

/// The identity of the one profile.
pub const PROFILE_ID: i64 = 1;

/// The user's profile: one record with a fixed identity.
#[derive(Debug, PartialEq, Eq)]
pub struct UserProfile {
    pub id: i64,
    pub first_name: String,
    pub last_name: String,
    /// Date of birth, as the text the caller gave.
    pub dob: String,
    pub speech_therapist: String,
}

/// What a [`UserProfile`] holds.
pub struct ProfileView {
    pub id: i64,
    pub first_name: Seq<char>,
    pub last_name: Seq<char>,
    pub dob: Seq<char>,
    pub speech_therapist: Seq<char>,
}

impl View for UserProfile {
    type V = ProfileView;

    open spec fn view(&self) -> ProfileView {
        ProfileView {
            id: self.id,
            first_name: self.first_name@,
            last_name: self.last_name@,
            dob: self.dob@,
            speech_therapist: self.speech_therapist@,
        }
    }
}

/// The profile that a store holds before anyone has written one.
pub open spec fn default_profile() -> ProfileView {
    ProfileView {
        id: PROFILE_ID,
        first_name: Seq::empty(),
        last_name: Seq::empty(),
        dob: Seq::empty(),
        speech_therapist: Seq::empty(),
    }
}

impl Default for UserProfile {
    /// A profile with identity 0 and empty texts.
    fn default() -> (result: UserProfile)
        ensures
            result@ == (ProfileView { id: 0, ..default_profile() }),
    {
        UserProfile {
            id: 0,
            first_name: String::new(),
            last_name: String::new(),
            dob: String::new(),
            speech_therapist: String::new(),
        }
    }
}

impl Clone for UserProfile {
    fn clone(&self) -> (result: UserProfile)
        ensures
            result@ == self@,
    {
        UserProfile {
            id: self.id,
            first_name: self.first_name.clone(),
            last_name: self.last_name.clone(),
            dob: self.dob.clone(),
            speech_therapist: self.speech_therapist.clone(),
        }
    }
}

/// A session as it is stored: its timestamps are text.
#[derive(Debug, PartialEq, Eq)]
pub struct SessionRow {
    pub id: i64,
    pub start_time: String,
    /// Absent while the session is open.
    pub end_time: Option<String>,
    pub pressure_setting: i32,
    /// The column may be empty; a session of this crate always has notes.
    pub notes: Option<String>,
}

/// What a [`SessionRow`] holds.
pub struct SessionRowView {
    pub id: i64,
    pub start_time: Seq<char>,
    pub end_time: Option<Seq<char>>,
    pub pressure_setting: i32,
    pub notes: Option<Seq<char>>,
}

impl View for SessionRow {
    type V = SessionRowView;

    open spec fn view(&self) -> SessionRowView {
        SessionRowView {
            id: self.id,
            start_time: self.start_time@,
            end_time: match self.end_time {
                Some(text) => Some(text@),
                None => None,
            },
            pressure_setting: self.pressure_setting,
            notes: match self.notes {
                Some(text) => Some(text@),
                None => None,
            },
        }
    }
}

impl Clone for SessionRow {
    fn clone(&self) -> (result: SessionRow)
        ensures
            result@ == self@,
    {
        SessionRow {
            id: self.id,
            start_time: self.start_time.clone(),
            end_time: match &self.end_time {
                Some(text) => Some(text.clone()),
                None => None,
            },
            pressure_setting: self.pressure_setting,
            notes: match &self.notes {
                Some(text) => Some(text.clone()),
                None => None,
            },
        }
    }
}

/// A rep as it is stored.
#[derive(Debug, PartialEq, Eq)]
pub struct RepRow {
    pub id: i64,
    /// The session that the rep belongs to.
    pub session_id: i64,
    pub rep_timestamp: String,
}

/// What a [`RepRow`] holds.
pub struct RepRowView {
    pub id: i64,
    pub session_id: i64,
    pub rep_timestamp: Seq<char>,
}

impl View for RepRow {
    type V = RepRowView;

    open spec fn view(&self) -> RepRowView {
        RepRowView { id: self.id, session_id: self.session_id, rep_timestamp: self.rep_timestamp@ }
    }
}

impl Clone for RepRow {
    fn clone(&self) -> (result: RepRow)
        ensures
            result@ == self@,
    {
        RepRow {
            id: self.id,
            session_id: self.session_id,
            rep_timestamp: self.rep_timestamp.clone(),
        }
    }
}

/// One configuration entry.
#[derive(Debug, PartialEq, Eq)]
pub struct Setting {
    pub key: String,
    pub value: String,
}

/// What a [`Setting`] holds.
pub struct SettingView {
    pub key: Seq<char>,
    pub value: Seq<char>,
}

impl View for Setting {
    type V = SettingView;

    open spec fn view(&self) -> SettingView {
        SettingView { key: self.key@, value: self.value@ }
    }
}

impl Clone for Setting {
    fn clone(&self) -> (result: Setting)
        ensures
            result@ == self@,
    {
        Setting { key: self.key.clone(), value: self.value.clone() }
    }
}

/// One therapy session, as it is read from the store.
#[derive(Debug, PartialEq, Eq)]
pub struct Session {
    pub id: i64,
    pub start_time: Instant,
    /// Absent while the session is open.
    pub end_time: Option<Instant>,
    pub pressure_setting: i32,
    pub notes: String,
    /// The number of reps that belong to the session.
    pub rep_count: i64,
}

/// What a [`Session`] holds.
pub struct SessionView {
    pub id: i64,
    pub start_time: Instant,
    pub end_time: Option<Instant>,
    pub pressure_setting: i32,
    pub notes: Seq<char>,
    pub rep_count: i64,
}

impl View for Session {
    type V = SessionView;

    open spec fn view(&self) -> SessionView {
        SessionView {
            id: self.id,
            start_time: self.start_time,
            end_time: self.end_time,
            pressure_setting: self.pressure_setting,
            notes: self.notes@,
            rep_count: self.rep_count,
        }
    }
}

impl SessionView {
    /// Whether `self` comes before `other` in a listing: the later start
    /// first, and of two sessions with the same start the higher identity.
    pub open spec fn precedes(self, other: SessionView) -> bool {
        self.start_time.later_than(other.start_time) || (self.start_time == other.start_time
            && self.id > other.id)
    }
}

/// What reading a stored row gives, with the given number of reps: the
/// session with each column in its own field, `CorruptData` where one of
/// its timestamps cannot be read, and else `Read` where it has no notes.
pub open spec fn decode_session(row: SessionRowView, rep_count: i64) -> Result<
    SessionView,
    StoreError,
> {
    let end_time = match row.end_time {
        Some(text) => decode_instant(text),
        None => None,
    };
    match (decode_instant(row.start_time), row.notes) {
        (None, _) => Err(StoreError::CorruptData),
        (Some(_), _) if row.end_time is Some && end_time is None => Err(StoreError::CorruptData),
        (Some(_), None) => Err(StoreError::Read),
        (Some(start_time), Some(notes)) => Ok(
            SessionView {
                id: row.id,
                start_time,
                end_time,
                pressure_setting: row.pressure_setting,
                notes,
                rep_count,
            },
        ),
    }
}

impl Clone for Session {
    fn clone(&self) -> (result: Session)
        ensures
            result@ == self@,
    {
        Session {
            id: self.id,
            start_time: self.start_time,
            end_time: self.end_time,
            pressure_setting: self.pressure_setting,
            notes: self.notes.clone(),
            rep_count: self.rep_count,
        }
    }
}

impl Session {
    /// Whether `self` comes before `other` in a listing.
    pub fn comes_before(&self, other: &Session) -> (result: bool)
        ensures
            result == self@.precedes(other@),
    {
        self.start_time.is_later_than(&other.start_time) || (self.start_time.secs
            == other.start_time.secs && self.start_time.nanos == other.start_time.nanos && self.id
            > other.id)
    }

    /// Reads a session from its stored row and the number of its reps.
    /// Fails with `CorruptData` exactly if a timestamp of the row cannot be
    /// read, and else with `Read` exactly if the row has no notes.
    pub fn try_from(row: &SessionRow, rep_count: i64) -> (result: Result<Session, StoreError>)
        ensures
            match decode_session(row@, rep_count) {
                Ok(session) => result matches Ok(read) && read@ == session,
                Err(e) => result == Err::<Session, StoreError>(e),
            },
    {
        let start_time = match Instant::parse(row.start_time.as_str()) {
            Ok(at) => at,
            Err(e) => {
                return Err(e);
            },
        };
        let end_time = match &row.end_time {
            Some(text) => match Instant::parse(text.as_str()) {
                Ok(at) => Some(at),
                Err(e) => {
                    return Err(e);
                },
            },
            None => None,
        };
        let notes = match &row.notes {
            Some(text) => text.clone(),
            None => {
                return Err(StoreError::Read);
            },
        };
        Ok(
            Session {
                id: row.id,
                start_time,
                end_time,
                pressure_setting: row.pressure_setting,
                notes,
                rep_count,
            },
        )
    }
}

/// One repetition within a session, as it is read from the store.
#[derive(Clone, Copy, Debug, PartialEq, Eq, Structural)]
pub struct Rep {
    pub id: i64,
    /// The session that the rep belongs to.
    pub session_id: i64,
    pub rep_timestamp: Instant,
}

/// The rep that a stored row stands for: `None` where its timestamp cannot
/// be read.
pub open spec fn decode_rep(row: RepRowView) -> Option<Rep> {
    match decode_instant(row.rep_timestamp) {
        Some(at) => Some(Rep { id: row.id, session_id: row.session_id, rep_timestamp: at }),
        None => None,
    }
}

impl Rep {
    /// Reads a rep from its stored row. Fails with `CorruptData` exactly if
    /// the timestamp of the row cannot be read.
    pub fn try_from(row: &RepRow) -> (result: Result<Rep, StoreError>)
        ensures
            result == match decode_rep(row@) {
                Some(rep) => Ok::<Rep, StoreError>(rep),
                None => Err(StoreError::CorruptData),
            },
    {
        match Instant::parse(row.rep_timestamp.as_str()) {
            Ok(at) => Ok(Rep { id: row.id, session_id: row.session_id, rep_timestamp: at }),
            Err(e) => Err(e),
        }
    }
}

} // verus!
