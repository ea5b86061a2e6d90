//! Persistence and aggregation core of a therapy-session diary.
//!
//! The crate keeps the four tables of the diary (profile, sessions, reps and
//! settings) as plain rows in a [`Store`], and every operation on them carries
//! a contract over the rows before and after it.
//!
//! - [`instant`]: points in time and the RFC 3339 text they are stored as
//! - [`entity`]: the rows, and the sessions and reps read from them
//! - [`store`]: the tables, their constraints, and opening a store
//! - [`repository`]: the operations that write
//! - [`queries`]: the derived views
//! - [`handle`]: the one handle a host holds, which lets no failure through
//! - [`laws`]: what holds of the operations taken together
//!
//! Nothing here reads a clock or a file. The caller passes the current
//! instant and the offset of the local clock, hands over the rows it found
//! at a location, and takes back the rows to persist.

pub mod entity;
pub mod error;
pub mod handle;
pub mod instant;
pub mod laws;
pub mod queries;
pub mod repository;
pub mod store;

pub use entity::{Rep, RepRow, Session, SessionRow, Setting, UserProfile};
pub use error::StoreError;
pub use handle::StoreHandle;
pub use instant::Instant;
pub use queries::{
    get_active_session, get_all_sessions, get_last_session_end_time,
    get_session_count_for_current_week, get_total_reps,
};
pub use repository::{
    add_rep, delete_session, end_session, get_profile, get_setting, set_setting, start_new_session,
    update_profile,
};
pub use store::{initialize_database, Store, StoreImage};
