//! The log record of a file-system change: which event, on which paths,
//! the file's times and size, and when it was noticed.
use vstd::prelude::*;
use chrono::NaiveDateTime;

verus! {

#[verifier::external_type_specification]
#[verifier::external_body]
pub struct ExNaiveDateTime(chrono::NaiveDateTime);

/// Earliest UNIX timestamp (seconds) that `chrono` can represent, that of
/// `DateTime::<Utc>::MIN_UTC` (the start of chrono's first day, in year
/// -262143).
pub const MIN_TIMESTAMP: i64 = -8_334_601_228_800;

/// Latest UNIX timestamp (seconds) that `chrono` can represent: the last
/// second of 31 December of year 262142, `DateTime::<Utc>::MAX_UTC`.
pub const MAX_TIMESTAMP: i64 = 8_210_266_876_799;

/// The naive UTC date-time `chrono` makes of a UNIX timestamp.
pub uninterp spec fn datetime_at(secs: int, nsecs: int) -> NaiveDateTime;

/// Calls `chrono::NaiveDateTime::from_timestamp_opt(secs, nsecs)`. Claimed:
/// a result is the date-time named `datetime_at(secs, nsecs)`, and there is
/// one whenever `secs` lies between `MIN_TIMESTAMP` and `MAX_TIMESTAMP` and
/// `nsecs` is below one second (chrono's `DateTime::from_timestamp` range
/// check on days and its `NaiveTime` check on the nanoseconds). Not stated:
/// the result for leap-second nanoseconds (one to two seconds).
#[verifier::external_body]
#[allow(deprecated)]
fn datetime_from_timestamp(secs: i64, nsecs: u32) -> (r: Option<NaiveDateTime>)
    ensures
        r matches Some(d) ==> d == datetime_at(secs as int, nsecs as int),
        MIN_TIMESTAMP <= secs <= MAX_TIMESTAMP && nsecs < 1_000_000_000 ==> r is Some,
{
    NaiveDateTime::from_timestamp_opt(secs, nsecs)
}

/// Reads the system clock, `std::time::SystemTime::now()`, as its distance
/// from the UNIX epoch (`duration_since(UNIX_EPOCH)`, or the duration of its
/// error when the clock reads a time before the epoch): whether it is at or
/// after the epoch, the whole seconds and the nanoseconds beyond them
/// (`Duration::as_secs`, `Duration::subsec_nanos`). Claimed: the nanoseconds
/// are below one second, as `subsec_nanos` documents. Nothing is claimed of
/// the reading itself: it is the clock's.
#[verifier::external_body]
fn read_system_clock() -> (r: (bool, u64, u32))
    ensures
        r.2 < 1_000_000_000,
{
    match std::time::SystemTime::now().duration_since(std::time::UNIX_EPOCH) {
        Ok(d) => (true, d.as_secs(), d.subsec_nanos()),
        Err(e) => (false, e.duration().as_secs(), e.duration().subsec_nanos()),
    }
}

/// The UNIX timestamp (seconds, then nanoseconds below one second) of a
/// clock reading `secs` seconds and `nanos` nanoseconds after the epoch, or
/// before it when `after_epoch` is false.
pub open spec fn reading_timestamp(after_epoch: bool, secs: int, nanos: int) -> (int, int) {
    if after_epoch {
        (secs, nanos)
    } else if nanos == 0 {
        (-secs, 0)
    } else {
        (-secs - 1, 1_000_000_000 - nanos)
    }
}

/// A second that `chrono` can represent.
pub open spec fn timestamp_in_range(secs: int) -> bool {
    MIN_TIMESTAMP <= secs <= MAX_TIMESTAMP
}

/// The naive UTC date-time of a clock reading (see `reading_timestamp`),
/// or `None` when its timestamp lies outside what `chrono` can represent.
pub fn datetime_of_reading(after_epoch: bool, secs: u64, nanos: u32) -> (r: Option<NaiveDateTime>)
    requires
        nanos < 1_000_000_000,
    ensures
        ({
            let ts = reading_timestamp(after_epoch, secs as int, nanos as int);
            r == if timestamp_in_range(ts.0) {
                Some(datetime_at(ts.0, ts.1))
            } else {
                None
            }
        }),
{
    let ts: (i64, u32) = if after_epoch {
        if secs > MAX_TIMESTAMP as u64 {
            return None;
        }
        (secs as i64, nanos)
    } else if nanos == 0 {
        if secs > 8_334_601_228_800u64 {
            return None;
        }
        (-(secs as i64), 0)
    } else {
        if secs >= 8_334_601_228_800u64 {
            return None;
        }
        (-(secs as i64) - 1, 1_000_000_000 - nanos)
    };
    match datetime_from_timestamp(ts.0, ts.1) {
        Some(d) => Some(d),
        None => None,
    }
}

/// The clock's current time as a naive UTC date-time, taken as chrono takes
/// a `SystemTime`; `None` when the clock reads a time that `chrono` cannot
/// represent. What the clock reads is not known here: a result is the
/// date-time of some representable timestamp.
pub fn now_naive_utc() -> (r: Option<NaiveDateTime>)
    ensures
        r matches Some(d) ==> exists|s: int, n: int|
            timestamp_in_range(s) && 0 <= n < 1_000_000_000 && d == #[trigger] datetime_at(s, n),
{
    let (after_epoch, secs, nanos) = read_system_clock();
    let r = datetime_of_reading(after_epoch, secs, nanos);
    proof {
        let ts = reading_timestamp(after_epoch, secs as int, nanos as int);
        if r is Some {
            assert(r == Some(datetime_at(ts.0, ts.1)));
        }
    }
    r
}

/// A file-system change, as the watcher reports it; paths as text.
#[derive(Debug, PartialEq, Eq)]
pub enum FsEvent {
    NoticeWrite(String),
    NoticeRemove(String),
    Create(String),
    Write(String),
    Chmod(String),
    Remove(String),
    Rename(String, String),
    Rescan,
    Other,
}

/// The name of an event's kind as it is logged.
pub open spec fn event_kind_name(e: FsEvent) -> Seq<char> {
    match e {
        FsEvent::NoticeWrite(_) => "NoticeWrite"@,
        FsEvent::NoticeRemove(_) => "NoticeRemove"@,
        FsEvent::Create(_) => "Create"@,
        FsEvent::Write(_) => "Write"@,
        FsEvent::Chmod(_) => "Chmod"@,
        FsEvent::Remove(_) => "Remove"@,
        FsEvent::Rename(_, _) => "Rename"@,
        FsEvent::Rescan => "Rescan"@,
        FsEvent::Other => "Other"@,
    }
}

/// The path an event concerns (the source path of a rename).
pub open spec fn event_source(e: FsEvent) -> Option<Seq<char>> {
    match e {
        FsEvent::NoticeWrite(p) => Some(p@),
        FsEvent::NoticeRemove(p) => Some(p@),
        FsEvent::Create(p) => Some(p@),
        FsEvent::Write(p) => Some(p@),
        FsEvent::Chmod(p) => Some(p@),
        FsEvent::Remove(p) => Some(p@),
        FsEvent::Rename(p, _) => Some(p@),
        FsEvent::Rescan => None,
        FsEvent::Other => None,
    }
}

/// The destination path of a rename.
pub open spec fn event_destination(e: FsEvent) -> Option<Seq<char>> {
    match e {
        FsEvent::Rename(_, q) => Some(q@),
        _ => None,
    }
}

/// The path whose metadata is logged for an event: the destination of a
/// rename, otherwise the path the event concerns.
pub open spec fn event_stat_path(e: FsEvent) -> Option<Seq<char>> {
    match event_destination(e) {
        Some(q) => Some(q),
        None => event_source(e),
    }
}

/// A time since the UNIX epoch, as `Duration::as_secs` and
/// `Duration::subsec_nanos` give it.
#[derive(Debug, Clone, Copy, PartialEq, Eq)]
pub struct FileTime {
    pub secs: u64,
    pub nanos: u32,
}

/// What the log takes from a file's metadata. A time is `None` when the
/// platform does not report it or it lies before the epoch.
#[derive(Debug, Clone, Copy, PartialEq, Eq)]
pub struct FileStat {
    pub created: Option<FileTime>,
    pub modified: Option<FileTime>,
    pub len: u64,
}

/// The timestamp seconds logged for a time (0 when there is none).
pub open spec fn logged_secs(t: Option<FileTime>) -> i64 {
    match t {
        Some(t) => t.secs as i64,
        None => 0,
    }
}

/// The nanoseconds logged for a time (0 when there is none).
pub open spec fn logged_nanos(t: Option<FileTime>) -> u32 {
    match t {
        Some(t) => t.nanos,
        None => 0,
    }
}

/// A time that `chrono` can represent once its seconds are taken as `i64`.
pub open spec fn representable(t: Option<FileTime>) -> bool {
    &&& MIN_TIMESTAMP <= logged_secs(t) <= MAX_TIMESTAMP
    &&& logged_nanos(t) < 1_000_000_000
}

/// The date-time logged for a time.
pub open spec fn logged_datetime(t: Option<FileTime>) -> NaiveDateTime {
    datetime_at(logged_secs(t) as int, logged_nanos(t) as int)
}

/// A record to insert into the change log.
#[derive(Debug)]
pub struct NewFsChangeLog {
    pub event_type: String,
    pub file_name: String,
    pub new_name: Option<String>,
    pub created_at: NaiveDateTime,
    pub modified_at: Option<NaiveDateTime>,
    pub notified_at: NaiveDateTime,
    pub size: i64,
}

/// The view of an optional string.
pub open spec fn opt_view(s: Option<String>) -> Option<Seq<char>> {
    match s {
        Some(s) => Some(s@),
        None => None,
    }
}

impl FsEvent {
    /// The name of the event's kind.
    pub fn kind_name(&self) -> (r: &'static str)
        ensures
            r@ == event_kind_name(*self),
    {
        match self {
            FsEvent::NoticeWrite(_) => "NoticeWrite",
            FsEvent::NoticeRemove(_) => "NoticeRemove",
            FsEvent::Create(_) => "Create",
            FsEvent::Write(_) => "Write",
            FsEvent::Chmod(_) => "Chmod",
            FsEvent::Remove(_) => "Remove",
            FsEvent::Rename(_, _) => "Rename",
            FsEvent::Rescan => "Rescan",
            FsEvent::Other => "Other",
        }
    }

    /// The path the event concerns (the source of a rename).
    pub fn source(&self) -> (r: Option<String>)
        ensures
            opt_view(r) == event_source(*self),
    {
        match self {
            FsEvent::NoticeWrite(p) => Some(p.clone()),
            FsEvent::NoticeRemove(p) => Some(p.clone()),
            FsEvent::Create(p) => Some(p.clone()),
            FsEvent::Write(p) => Some(p.clone()),
            FsEvent::Chmod(p) => Some(p.clone()),
            FsEvent::Remove(p) => Some(p.clone()),
            FsEvent::Rename(p, _) => Some(p.clone()),
            FsEvent::Rescan => None,
            FsEvent::Other => None,
        }
    }

    /// The destination of a rename.
    pub fn destination(&self) -> (r: Option<String>)
        ensures
            opt_view(r) == event_destination(*self),
    {
        match self {
            FsEvent::Rename(_, q) => Some(q.clone()),
            _ => None,
        }
    }

    /// The path whose metadata is logged: the destination of a rename,
    /// otherwise the path the event concerns.
    pub fn stat_path(&self) -> (r: Option<String>)
        ensures
            opt_view(r) == event_stat_path(*self),
    {
        match self.destination() {
            Some(q) => Some(q),
            None => self.source(),
        }
    }
}

/// The date-time logged for a time: its timestamp, or the epoch when there
/// is none.
fn logged_datetime_of(t: Option<FileTime>) -> (r: NaiveDateTime)
    requires
        representable(t),
    ensures
        r == logged_datetime(t),
{
    let (secs, nanos): (i64, u32) = match t {
        Some(t) => (t.secs as i64, t.nanos),
        None => (0, 0),
    };
    datetime_from_timestamp(secs, nanos).unwrap()
}

/// Whether `r` logs `event` with the metadata `stat` of its stat path
/// (`None` when there is none): the event's kind, its path, the rename
/// destination, the file's creation and modification times (the epoch when
/// unknown) and size (0 without metadata). The time it was noticed is not
/// part of this.
pub open spec fn logs_event(r: NewFsChangeLog, event: FsEvent, stat: Option<FileStat>) -> bool {
    &&& r.event_type@ == event_kind_name(event)
    &&& r.file_name@ == match event_source(event) {
        Some(p) => p,
        None => Seq::<char>::empty(),
    }
    &&& opt_view(r.new_name) == event_destination(event)
    &&& r.created_at == match stat {
        Some(st) => logged_datetime(st.created),
        None => datetime_at(0, 0),
    }
    &&& r.modified_at == Some(
        match stat {
            Some(st) => logged_datetime(st.modified),
            None => datetime_at(0, 0),
        },
    )
    &&& r.size == match stat {
        Some(st) => st.len as i64,
        None => 0i64,
    }
}

/// Every event on a path `p` is logged under `p`, and the metadata logged
/// is that of `p`; a rename from `p` to `q` is logged under `p` with the new
/// name `q`, and the metadata of `q`; an event without a path is logged with
/// an empty name and no new name.
pub proof fn lemma_event_record_paths(r: NewFsChangeLog, p: String, q: String, stat: Option<FileStat>)
    ensures
        logs_event(r, FsEvent::NoticeWrite(p), stat) ==> r.file_name@ == p@ && r.new_name is None,
        logs_event(r, FsEvent::NoticeRemove(p), stat) ==> r.file_name@ == p@ && r.new_name is None,
        logs_event(r, FsEvent::Create(p), stat) ==> r.file_name@ == p@ && r.new_name is None,
        logs_event(r, FsEvent::Write(p), stat) ==> r.file_name@ == p@ && r.new_name is None,
        logs_event(r, FsEvent::Chmod(p), stat) ==> r.file_name@ == p@ && r.new_name is None,
        logs_event(r, FsEvent::Remove(p), stat) ==> r.file_name@ == p@ && r.new_name is None,
        logs_event(r, FsEvent::Rename(p, q), stat) ==> r.file_name@ == p@ && opt_view(r.new_name)
            == Some(q@),
        logs_event(r, FsEvent::Rescan, stat) ==> r.file_name@.len() == 0 && r.new_name is None,
        logs_event(r, FsEvent::Other, stat) ==> r.file_name@.len() == 0 && r.new_name is None,
        event_stat_path(FsEvent::NoticeWrite(p)) == Some(p@),
        event_stat_path(FsEvent::NoticeRemove(p)) == Some(p@),
        event_stat_path(FsEvent::Create(p)) == Some(p@),
        event_stat_path(FsEvent::Write(p)) == Some(p@),
        event_stat_path(FsEvent::Chmod(p)) == Some(p@),
        event_stat_path(FsEvent::Remove(p)) == Some(p@),
        event_stat_path(FsEvent::Rename(p, q)) == Some(q@),
        event_stat_path(FsEvent::Rescan) is None,
        event_stat_path(FsEvent::Other) is None,
{
}

impl NewFsChangeLog {
    /// The record logged for `event`, given the metadata of its stat path
    /// (`None` when there is none, always for an event without a path) and
    /// the time it was noticed (see `logs_event`).
    pub fn from_event_at(event: &FsEvent, stat: Option<FileStat>, notified_at: NaiveDateTime) -> (r:
        NewFsChangeLog)
        requires
            stat matches Some(st) ==> representable(st.created) && representable(st.modified),
            event_source(*event) is None && event_destination(*event) is None ==> stat is None,
        ensures
            logs_event(r, *event, stat),
            r.notified_at == notified_at,
    {
        let (created_at, modified_at, size): (NaiveDateTime, NaiveDateTime, i64) = match stat {
            Some(st) => (
                logged_datetime_of(st.created),
                logged_datetime_of(st.modified),
                st.len as i64,
            ),
            None => {
                let epoch = logged_datetime_of(None);
                (epoch, epoch, 0)
            },
        };
        let file_name = match event.source() {
            Some(p) => p,
            None => String::new(),
        };
        NewFsChangeLog {
            event_type: String::from_str(event.kind_name()),
            file_name,
            new_name: event.destination(),
            created_at,
            modified_at: Some(modified_at),
            notified_at,
            size,
        }
    }

    /// The record logged for `event` now (see `from_event_at`), the time it
    /// was noticed being the clock's: the date-time of some representable
    /// timestamp. `None` when the clock reads a time that `chrono` cannot
    /// represent.
    pub fn from_event(event: &FsEvent, stat: Option<FileStat>) -> (r: Option<NewFsChangeLog>)
        requires
            stat matches Some(st) ==> representable(st.created) && representable(st.modified),
            event_source(*event) is None && event_destination(*event) is None ==> stat is None,
        ensures
            r matches Some(l) ==> {
                &&& logs_event(l, *event, stat)
                &&& exists|s: int, n: int|
                    timestamp_in_range(s) && 0 <= n < 1_000_000_000 && l.notified_at
                        == #[trigger] datetime_at(s, n)
            },
    {
        match now_naive_utc() {
            Some(now) => Some(NewFsChangeLog::from_event_at(event, stat, now)),
            None => None,
        }
    }
}

} // verus!
