//! The one handle through which a host reaches the store.
//!
//! A handle is unset until a store has been opened through it. Every
//! operation answers in plain values, and answers with the empty value of
//! its kind where the handle is unset or the operation fails: no failure
//! reaches the host.

use vstd::prelude::*;

use crate::entity::{Session, UserProfile};
use crate::instant::Instant;
use crate::queries::{
    end_of, find_last_end, get_active_session, get_all_sessions,
    get_session_count_for_current_week, get_total_reps, listing_views,
};
use crate::repository::{
    add_rep, end_session, get_profile, get_setting, set_setting, start_new_session,
    update_profile,
};
use crate::store::{initialize_database, opened, Contents, Store, StoreImage};

verus! {

/// What an operation that returns an identity answers in place of one.
pub const NO_SESSION: i64 = -1;

impl Contents {
    /// The value stored under a key, or `fallback` where the key is not set.
    pub open spec fn setting_or(self, key: Seq<char>, fallback: Seq<char>) -> Seq<char> {
        match self.setting(key) {
            Some(value) => value,
            None => fallback,
        }
    }

    /// Whether `text` is the last end time as the handle gives it out: the
    /// stored end time of the first session whose end is the latest, and
    /// the empty text where no session is completed or an end time cannot
    /// be read.
    pub open spec fn last_end_text_is(self, text: Seq<char>) -> bool {
        if self.has_unreadable_end() || !self.some_completed() {
            text == Seq::<char>::empty()
        } else {
            exists|place: int, last: Instant| #[trigger]
                self.is_last_end_row(place, last) && self.sessions[place].end_time == Some(text)
        }
    }
}

/// The handle to the store. Taking it by `&mut` is what puts the operations
/// of several callers into one sequence.
#[derive(Debug)]
pub struct StoreHandle {
    pub(crate) store: Option<Store>,
}

impl View for StoreHandle {
    type V = Option<Contents>;

    open(crate) spec fn view(&self) -> Option<Contents> {
        match self.store {
            Some(store) => Some(store@),
            None => None,
        }
    }
}

impl StoreHandle {
    /// Whether the store behind the handle, if there is one, is well formed.
    pub open spec fn wf(&self) -> bool {
        self@ matches Some(store) ==> store.wf()
    }

    /// A handle with no store behind it.
    pub fn new() -> (result: StoreHandle)
        ensures
            result@ is None,
            result.wf(),
    {
        StoreHandle { store: None }
    }

    /// Whether a store has been opened through the handle.
    pub fn is_initialized(&self) -> (result: bool)
        ensures
            result == (self@ is Some),
    {
        self.store.is_some()
    }

    /// Opens the store on the rows found at a location. Where the rows
    /// break a constraint the handle stays as it was.
    pub fn init_database(&mut self, image: StoreImage)
        requires
            old(self).wf(),
        ensures
            final(self).wf(),
            final(self)@ == match opened(image@) {
                Ok(rows) => Some(rows),
                Err(_) => old(self)@,
            },
    {
        match initialize_database(image) {
            Ok(store) => {
                self.store = Some(store);
            },
            Err(_) => {},
        }
    }

    /// A copy of the rows behind the handle, for the host to persist.
    pub fn image(&self) -> (result: Option<StoreImage>)
        ensures
            match result {
                Some(image) => self@ == Some(image@),
                None => self@ is None,
            },
    {
        match &self.store {
            Some(store) => Some(store.image()),
            None => None,
        }
    }

    /// Starts a session at `now` and returns its identity; returns
    /// [`NO_SESSION`], and changes nothing, where the handle is unset or no
    /// identity is left.
    pub fn start_session(&mut self, now: Instant, pressure_setting: i32, notes: &str) -> (result:
        i64)
        requires
            old(self).wf(),
            now.writable(),
        ensures
            final(self).wf(),
            match old(self)@ {
                Some(store) => match store.started(now, pressure_setting, notes@) {
                    Some((after, id)) => result == id && final(self)@ == Some(after),
                    None => result == NO_SESSION && final(self)@ == old(self)@,
                },
                None => result == NO_SESSION && final(self)@ is None,
            },
    {
        match &mut self.store {
            Some(store) => match start_new_session(store, now, pressure_setting, notes) {
                Ok(id) => id,
                Err(_) => NO_SESSION,
            },
            None => NO_SESSION,
        }
    }

    /// All sessions, the latest start first; no sessions where the handle is
    /// unset or a row cannot be read.
    pub fn get_all_sessions(&self) -> (result: Vec<Session>)
        requires
            self.wf(),
        ensures
            match self@ {
                Some(store) => if store.readable_up_to(store.sessions.len() as int) {
                    store.is_listing(listing_views(result@))
                } else {
                    result.len() == 0
                },
                None => result.len() == 0,
            },
    {
        match &self.store {
            Some(store) => match get_all_sessions(store) {
                Ok(listing) => listing,
                Err(_) => Vec::new(),
            },
            None => Vec::new(),
        }
    }

    /// The profile, which a store that holds none yet gets as the default;
    /// `None` where the handle is unset.
    pub fn get_profile(&mut self) -> (result: Option<UserProfile>)
        requires
            old(self).wf(),
        ensures
            final(self).wf(),
            match old(self)@ {
                Some(store) => result matches Some(profile) && profile@
                    == store.profile_or_default() && final(self)@ == Some(
                    store.with_profile_read(),
                ),
                None => result is None && final(self)@ is None,
            },
    {
        match &mut self.store {
            Some(store) => Some(get_profile(store)),
            None => None,
        }
    }

    /// Writes the profile; does nothing where the handle is unset.
    pub fn update_profile(&mut self, profile: &UserProfile)
        requires
            old(self).wf(),
        ensures
            final(self).wf(),
            final(self)@ == match old(self)@ {
                Some(store) => Some(store.with_profile_update(profile@)),
                None => None,
            },
    {
        match &mut self.store {
            Some(store) => {
                update_profile(store, profile);
            },
            None => {},
        }
    }

    /// The active session; `None` where the handle is unset, no session is
    /// open, or an open session cannot be read.
    pub fn get_active_session(&self) -> (result: Option<Session>)
        requires
            self.wf(),
        ensures
            match result {
                Some(session) => self@ matches Some(store) && store.is_active(session@),
                None => self@ matches Some(store) ==> store.none_open() || !store.open_readable(),
            },
    {
        match &self.store {
            Some(store) => match get_active_session(store) {
                Ok(active) => active,
                Err(_) => None,
            },
            None => None,
        }
    }

    /// The number of reps of a session; 0 where the handle is unset or the
    /// number cannot be read.
    pub fn get_total_reps(&self, session_id: i64) -> (result: i64)
        ensures
            result == match self@ {
                Some(store) => match store.rep_total(session_id) {
                    Ok(count) => count,
                    Err(_) => 0,
                },
                None => 0,
            },
    {
        match &self.store {
            Some(store) => match get_total_reps(store, session_id) {
                Ok(count) => count,
                Err(_) => 0,
            },
            None => 0,
        }
    }

    /// Adds a rep at `now` to a session; changes nothing where the handle is
    /// unset or the rep cannot be added.
    pub fn add_rep(&mut self, now: Instant, session_id: i64)
        requires
            old(self).wf(),
            now.writable(),
        ensures
            final(self).wf(),
            final(self)@ == match old(self)@ {
                Some(store) => match store.rep_added(now, session_id) {
                    Ok(after) => Some(after),
                    Err(_) => Some(store),
                },
                None => None,
            },
    {
        match &mut self.store {
            Some(store) => {
                let _ = add_rep(store, now, session_id);
            },
            None => {},
        }
    }

    /// Ends a session at `now`; does nothing where the handle is unset.
    pub fn end_session(&mut self, now: Instant, session_id: i64, notes: &str)
        requires
            old(self).wf(),
            now.writable(),
        ensures
            final(self).wf(),
            final(self)@ == match old(self)@ {
                Some(store) => Some(store.ended(now, session_id, notes@)),
                None => None,
            },
    {
        match &mut self.store {
            Some(store) => {
                end_session(store, now, session_id, notes);
            },
            None => {},
        }
    }

    /// The value stored under a key; `default_value` where the key is not
    /// set or the handle is unset.
    pub fn get_setting(&self, key: &str, default_value: &str) -> (result: String)
        requires
            self.wf(),
        ensures
            result@ == match self@ {
                Some(store) => store.setting_or(key@, default_value@),
                None => default_value@,
            },
    {
        match &self.store {
            Some(store) => match get_setting(store, key) {
                Some(value) => value,
                None => default_value.to_owned(),
            },
            None => default_value.to_owned(),
        }
    }

    /// Stores a value under a key; does nothing where the handle is unset.
    pub fn set_setting(&mut self, key: &str, value: &str)
        requires
            old(self).wf(),
        ensures
            final(self).wf(),
            final(self)@ == match old(self)@ {
                Some(store) => Some(store.with_setting(key@, value@)),
                None => None,
            },
    {
        match &mut self.store {
            Some(store) => {
                set_setting(store, key, value);
            },
            None => {},
        }
    }

    /// The number of sessions completed in the week of `now`; 0 where the
    /// handle is unset or the number cannot be read.
    pub fn get_session_count_for_week(&self, now: Instant, offset: i32) -> (result: i32)
        ensures
            result == match self@ {
                Some(store) => match store.sessions_in_week(now, offset as int) {
                    Ok(count) => count,
                    Err(_) => 0,
                },
                None => 0,
            },
    {
        match &self.store {
            Some(store) => match get_session_count_for_current_week(store, now, offset) {
                Ok(count) => count,
                Err(_) => 0,
            },
            None => 0,
        }
    }

    /// The latest end time of a completed session, as the text it is
    /// stored as; the empty text where the handle is unset, no session is
    /// completed, or an end time cannot be read.
    pub fn get_last_session_end_time(&self) -> (result: String)
        ensures
            match self@ {
                Some(store) => store.last_end_text_is(result@),
                None => result@ == Seq::<char>::empty(),
            },
    {
        let store = match &self.store {
            Some(store) => store,
            None => {
                return String::new();
            },
        };
        match find_last_end(store) {
            Ok(Some((place, last))) => {
                assert(store@.some_completed()) by {
                    assert(end_of(store@.sessions[place as int]) == Some(last));
                    assert(store@.sessions[place as int].end_time is Some);
                }
                match &store.sessions[place].end_time {
                    Some(text) => text.clone(),
                    None => String::new(),
                }
            },
            _ => String::new(),
        }
    }
}

} // verus!
