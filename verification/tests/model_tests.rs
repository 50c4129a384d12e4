use chrono::{DateTime, NaiveDateTime};
use minigrep::borg::borg_invoker::install_status;
use minigrep::common_message::RemoveAll;
use minigrep::common_util::{client_message_lines, requires_folder_check, SoftwareDescription};
use minigrep::db::CreateFsChangeLog;
use minigrep::models::fs_change_log_model::{
    datetime_of_reading, now_naive_utc, FileStat, FileTime, FsEvent, NewFsChangeLog,
    MAX_TIMESTAMP, MIN_TIMESTAMP,
};
use minigrep::payload::{append_chunk, PayloadError, MAX_SIZE};

fn at(secs: i64, nanos: u32) -> NaiveDateTime {
    DateTime::from_timestamp(secs, nanos).unwrap().naive_utc()
}

#[test]
fn timestamp_bounds_are_chrono_bounds() {
    assert!(DateTime::from_timestamp(MAX_TIMESTAMP, 999_999_999).is_some());
    assert!(DateTime::from_timestamp(MAX_TIMESTAMP + 1, 0).is_none());
    assert_eq!(DateTime::<chrono::Utc>::MIN_UTC.timestamp(), MIN_TIMESTAMP);
    assert_eq!(DateTime::<chrono::Utc>::MAX_UTC.timestamp(), MAX_TIMESTAMP);
    assert!(DateTime::from_timestamp(MIN_TIMESTAMP, 0).is_some());
    assert!(DateTime::from_timestamp(MIN_TIMESTAMP - 1, 999_999_999).is_none());
}

#[test]
fn event_record_takes_times_and_size_from_metadata() {
    let event = FsEvent::Write("/tmp/a.txt".to_string());
    let stat = FileStat {
        created: Some(FileTime { secs: 1_000, nanos: 5 }),
        modified: Some(FileTime { secs: 2_000, nanos: 7 }),
        len: 42,
    };
    let noticed = at(3_000, 0);
    let r = NewFsChangeLog::from_event_at(&event, Some(stat), noticed);
    assert_eq!(r.event_type, "Write");
    assert_eq!(r.file_name, "/tmp/a.txt");
    assert_eq!(r.new_name, None);
    assert_eq!(r.created_at, at(1_000, 5));
    assert_eq!(r.modified_at, Some(at(2_000, 7)));
    assert_eq!(r.notified_at, noticed);
    assert_eq!(r.size, 42);
}

#[test]
fn event_record_without_metadata_uses_the_epoch() {
    let event = FsEvent::Rescan;
    let r = NewFsChangeLog::from_event_at(&event, None, at(10, 0));
    assert_eq!(r.event_type, "Rescan");
    assert_eq!(r.file_name, "");
    assert_eq!(r.created_at, at(0, 0));
    assert_eq!(r.modified_at, Some(at(0, 0)));
    assert_eq!(r.size, 0);
    let stat = FileStat { created: None, modified: None, len: u64::MAX };
    let r = NewFsChangeLog::from_event_at(&FsEvent::Chmod("c".to_string()), Some(stat), at(10, 0));
    assert_eq!(r.event_type, "Chmod");
    assert_eq!(r.created_at, at(0, 0));
    assert_eq!(r.size, -1);
}

#[test]
fn rename_logs_both_paths_and_stats_the_destination() {
    let event = FsEvent::Rename("old.txt".to_string(), "new.txt".to_string());
    assert_eq!(event.stat_path(), Some("new.txt".to_string()));
    assert_eq!(FsEvent::Chmod("c".to_string()).stat_path(), Some("c".to_string()));
    assert_eq!(FsEvent::Rescan.stat_path(), None);
    let r = NewFsChangeLog::from_event(&event, None).unwrap();
    assert!(r.notified_at > at(1_500_000_000, 0));
    assert_eq!(r.event_type, "Rename");
    assert_eq!(r.file_name, "old.txt");
    assert_eq!(r.new_name, Some("new.txt".to_string()));
}

#[test]
fn every_event_kind_has_its_name() {
    let p = || "p".to_string();
    let cases = vec![
        (FsEvent::NoticeWrite(p()), "NoticeWrite"),
        (FsEvent::NoticeRemove(p()), "NoticeRemove"),
        (FsEvent::Create(p()), "Create"),
        (FsEvent::Write(p()), "Write"),
        (FsEvent::Chmod(p()), "Chmod"),
        (FsEvent::Remove(p()), "Remove"),
        (FsEvent::Rename(p(), p()), "Rename"),
        (FsEvent::Rescan, "Rescan"),
        (FsEvent::Other, "Other"),
    ];
    for (e, name) in cases {
        assert_eq!(e.kind_name(), name);
    }
}

#[test]
fn create_request_becomes_a_record() {
    let req = CreateFsChangeLog {
        event_type: "NoticeRemove".to_string(),
        file_name: r"c:\abc.txt".to_string(),
        new_name: None,
        created_at: at(1, 0),
        modified_at: None,
        notified_at: at(2, 0),
        size: -1,
    };
    let r = req.into_new_log(at(5, 0));
    assert_eq!(r.event_type, "NoticeRemove");
    assert_eq!(r.file_name, r"c:\abc.txt");
    assert_eq!(r.notified_at, at(5, 0));
    assert_eq!(r.size, -1);
}

#[test]
fn payload_is_capped() {
    let body = append_chunk(Vec::new(), &[1, 2, 3]).unwrap();
    assert_eq!(body, vec![1, 2, 3]);
    let big = vec![0u8; MAX_SIZE - 3];
    let full = append_chunk(body, &big).unwrap();
    assert_eq!(full.len(), MAX_SIZE);
    assert_eq!(append_chunk(full, &[9]), Err(PayloadError::Overflow));
    assert_eq!(append_chunk(Vec::new(), &vec![0u8; MAX_SIZE + 1]), Err(PayloadError::Overflow));
}

#[test]
fn install_status_names_an_existing_binary() {
    assert_eq!(install_status(true), "AlreadyIntalled");
    assert_eq!(install_status(false), "");
}

#[test]
fn client_message_is_framed() {
    assert_eq!(
        client_message_lines("hello"),
        vec![
            "for-easy-installer-client-use-start".to_string(),
            "hello".to_string(),
            "for-easy-installer-client-use-end".to_string()
        ]
    );
}

#[test]
fn folder_check_only_for_plain_paths() {
    assert!(requires_folder_check("/var/db/test.db"));
    assert!(!requires_folder_check(":memory:"));
    assert!(!requires_folder_check("file:test.db"));
}

#[test]
fn plain_records() {
    let s = SoftwareDescription { package_url: "https://x".to_string(), local_name: "".to_string() };
    assert!(s.package_url.starts_with("https://"));
    assert_eq!(s.local_name, "");
    assert_eq!(RemoveAll::FsChangeLog, RemoveAll::FsChangeLog);
}

#[test]
fn clock_readings_become_timestamps_as_chrono_takes_them() {
    assert_eq!(datetime_of_reading(true, 1_000, 5), Some(at(1_000, 5)));
    assert_eq!(datetime_of_reading(false, 10, 0), Some(at(-10, 0)));
    assert_eq!(datetime_of_reading(false, 10, 250_000_000), Some(at(-11, 750_000_000)));
    assert_eq!(datetime_of_reading(true, MAX_TIMESTAMP as u64, 999_999_999), Some(at(MAX_TIMESTAMP, 999_999_999)));
    assert_eq!(datetime_of_reading(true, MAX_TIMESTAMP as u64 + 1, 0), None);
    let before = (-MIN_TIMESTAMP) as u64;
    assert_eq!(datetime_of_reading(false, before, 0), Some(at(MIN_TIMESTAMP, 0)));
    assert_eq!(datetime_of_reading(false, before, 1), None);
    assert_eq!(datetime_of_reading(false, before + 1, 0), None);
    assert_eq!(datetime_of_reading(true, u64::MAX, 0), None);
}

#[test]
fn the_clock_reads_a_representable_time_now() {
    let now = now_naive_utc().unwrap();
    assert!(now > at(1_500_000_000, 0));
}
