//! Requests handled by the database actor.
use vstd::prelude::*;
use chrono::NaiveDateTime;
use crate::models::fs_change_log_model::{self, NewFsChangeLog};

verus! {

/// A request to log a file-system change.
#[derive(Debug)]
pub struct CreateFsChangeLog {
    pub event_type: String,
    pub file_name: String,
    pub new_name: Option<String>,
    pub created_at: NaiveDateTime,
    pub modified_at: Option<NaiveDateTime>,
    pub notified_at: NaiveDateTime,
    pub size: i64,
}

impl CreateFsChangeLog {
    /// The record inserted for the request: its fields, with the time the
    /// request is handled as the time it was noticed.
    pub fn into_new_log(self, handled_at: NaiveDateTime) -> (r: NewFsChangeLog)
        ensures
            r.event_type == self.event_type,
            r.file_name == self.file_name,
            r.new_name == self.new_name,
            r.created_at == self.created_at,
            r.modified_at == self.modified_at,
            r.notified_at == handled_at,
            r.size == self.size,
    {
        NewFsChangeLog {
            event_type: self.event_type,
            file_name: self.file_name,
            new_name: self.new_name,
            created_at: self.created_at,
            modified_at: self.modified_at,
            notified_at: handled_at,
            size: self.size,
        }
    }

    /// The record inserted for the request when it is handled now (see
    /// `into_new_log`), the time it was noticed being the clock's: the
    /// date-time of some representable timestamp. `None` when the clock
    /// reads a time that `chrono` cannot represent.
    pub fn into_new_log_now(self) -> (r: Option<NewFsChangeLog>)
        ensures
            r matches Some(l) ==> {
                &&& l.event_type == self.event_type
                &&& l.file_name == self.file_name
                &&& l.new_name == self.new_name
                &&& l.created_at == self.created_at
                &&& l.modified_at == self.modified_at
                &&& l.size == self.size
                &&& exists|s: int, n: int|
                    fs_change_log_model::timestamp_in_range(s) && 0 <= n < 1_000_000_000
                        && l.notified_at == #[trigger] fs_change_log_model::datetime_at(s, n)
            },
    {
        match fs_change_log_model::now_naive_utc() {
            Some(now) => Some(self.into_new_log(now)),
            None => None,
        }
    }
}

} // verus!
