use resona::library::watcher::{
    events_from_changes, notify_buffer_is_well_formed, parse_notify_buffer, FileChangeEvent,
    PathChange, PendingChanges,
    FILE_ACTION_ADDED, FILE_ACTION_MODIFIED, FILE_ACTION_REMOVED, FILE_ACTION_RENAMED_NEW_NAME,
    FILE_ACTION_RENAMED_OLD_NAME,
};

/// One record as the system writes it: next offset, action, name length,
/// then the UTF-16LE name.
fn record(next: u32, action: u32, name: &str) -> Vec<u8> {
    let units: Vec<u16> = name.encode_utf16().collect();
    let mut r = Vec::new();
    r.extend_from_slice(&next.to_le_bytes());
    r.extend_from_slice(&action.to_le_bytes());
    r.extend_from_slice(&((units.len() * 2) as u32).to_le_bytes());
    for u in units {
        r.extend_from_slice(&u.to_le_bytes());
    }
    r
}

#[test]
fn actions_map_to_events() {
    let p = || "C:\\Music\\a.mp3".to_string();
    assert!(matches!(FileChangeEvent::from_action(FILE_ACTION_ADDED, p()), Some(FileChangeEvent::Added(x)) if x == p()));
    assert!(matches!(FileChangeEvent::from_action(FILE_ACTION_MODIFIED, p()), Some(FileChangeEvent::Modified(x)) if x == p()));
    assert!(matches!(FileChangeEvent::from_action(FILE_ACTION_REMOVED, p()), Some(FileChangeEvent::Removed(x)) if x == p()));
    assert!(matches!(FileChangeEvent::from_action(FILE_ACTION_RENAMED_NEW_NAME, p()), Some(FileChangeEvent::Added(x)) if x == p()));
    assert!(FileChangeEvent::from_action(FILE_ACTION_RENAMED_OLD_NAME, p()).is_none());
    assert!(FileChangeEvent::from_action(99, p()).is_none());
}

#[test]
fn buffer_with_two_records() {
    let first = record(0, FILE_ACTION_ADDED, "a.mp3");
    let next = first.len() as u32;
    let mut buf = record(next, FILE_ACTION_ADDED, "a.mp3");
    buf.extend(record(0, FILE_ACTION_REMOVED, "béla.flac"));
    let len = buf.len();
    assert!(notify_buffer_is_well_formed(&buf, len));
    let recs = parse_notify_buffer(&buf, len);
    assert_eq!(recs.len(), 2);
    assert_eq!(recs[0].action, FILE_ACTION_ADDED);
    assert_eq!(recs[0].file_name(), "a.mp3");
    assert_eq!(recs[1].action, FILE_ACTION_REMOVED);
    assert_eq!(recs[1].file_name(), "béla.flac");
}

#[test]
fn record_past_the_returned_length_is_not_read() {
    let first = record(0, FILE_ACTION_ADDED, "a.mp3");
    let next = first.len() as u32;
    let mut buf = record(next, FILE_ACTION_MODIFIED, "a.mp3");
    buf.extend(record(0, FILE_ACTION_REMOVED, "b.mp3"));
    let recs = parse_notify_buffer(&buf, next as usize);
    assert_eq!(recs.len(), 1);
    assert_eq!(recs[0].action, FILE_ACTION_MODIFIED);
}

#[test]
fn truncated_name_is_not_well_formed() {
    let mut buf = record(0, FILE_ACTION_ADDED, "long-name.mp3");
    buf.truncate(buf.len() - 2);
    let len = buf.len();
    assert!(!notify_buffer_is_well_formed(&buf, len));
    assert!(!notify_buffer_is_well_formed(&[0u8; 10], 10));
    assert!(notify_buffer_is_well_formed(&[], 0));
    assert_eq!(parse_notify_buffer(&[], 0).len(), 0);
}

#[test]
fn unpaired_surrogate_is_replaced() {
    let mut buf = record(0, FILE_ACTION_ADDED, "");
    buf[8] = 4;
    buf.extend_from_slice(&0xD800u16.to_le_bytes());
    buf.extend_from_slice(&(b'x' as u16).to_le_bytes());
    let len = buf.len();
    let recs = parse_notify_buffer(&buf, len);
    assert_eq!(recs[0].file_name(), "\u{FFFD}x");
}

#[test]
fn changes_collect_until_quiet_period() {
    let mut p = PendingChanges::new();
    assert!(p.is_empty());
    assert_eq!(p.quiet_period_elapsed(), None);
    p.record(FileChangeEvent::Added("a".to_string()));
    p.record(FileChangeEvent::Modified("a".to_string()));
    p.record(FileChangeEvent::Removed("b".to_string()));
    assert_eq!(p.len(), 2);
    assert_eq!(p.quiet_period_elapsed(), Some(2));
    assert!(p.is_empty());
    assert_eq!(p.quiet_period_elapsed(), None);
}

#[test]
fn rename_replaces_the_old_path() {
    let mut p = PendingChanges::new();
    p.record(FileChangeEvent::Added("old".to_string()));
    p.record(FileChangeEvent::Renamed("old".to_string(), "new".to_string()));
    assert_eq!(p.len(), 1);
    p.record(FileChangeEvent::Added("new".to_string()));
    assert_eq!(p.len(), 1);
    p.record(FileChangeEvent::Renamed("missing".to_string(), "other".to_string()));
    assert_eq!(p.quiet_period_elapsed(), Some(2));
}

fn change(action: u32, path: &str) -> PathChange {
    PathChange { action, path: path.to_string() }
}

#[test]
fn a_rename_pair_is_one_renamed_event() {
    let events = events_from_changes(vec![
        change(FILE_ACTION_ADDED, "/m/a.mp3"),
        change(FILE_ACTION_RENAMED_OLD_NAME, "/m/b.mp3"),
        change(FILE_ACTION_RENAMED_NEW_NAME, "/m/c.mp3"),
        change(FILE_ACTION_MODIFIED, "/m/c.mp3"),
        change(99, "/m/x"),
        change(FILE_ACTION_REMOVED, "/m/a.mp3"),
    ]);
    assert_eq!(events.len(), 4);
    assert!(matches!(&events[0], FileChangeEvent::Added(p) if p == "/m/a.mp3"));
    assert!(matches!(&events[1], FileChangeEvent::Renamed(o, n) if o == "/m/b.mp3" && n == "/m/c.mp3"));
    assert!(matches!(&events[2], FileChangeEvent::Modified(p) if p == "/m/c.mp3"));
    assert!(matches!(&events[3], FileChangeEvent::Removed(p) if p == "/m/a.mp3"));
}

#[test]
fn unpaired_rename_records() {
    let events = events_from_changes(vec![
        change(FILE_ACTION_RENAMED_OLD_NAME, "/m/b.mp3"),
        change(FILE_ACTION_ADDED, "/m/d.mp3"),
        change(FILE_ACTION_RENAMED_NEW_NAME, "/m/e.mp3"),
    ]);
    assert_eq!(events.len(), 2);
    assert!(matches!(&events[0], FileChangeEvent::Added(p) if p == "/m/d.mp3"));
    assert!(matches!(&events[1], FileChangeEvent::Added(p) if p == "/m/e.mp3"));
}

#[test]
fn surrogate_pair_decodes_to_one_character() {
    let buf = record(0, FILE_ACTION_ADDED, "\u{1D11E}.flac");
    let len = buf.len();
    let recs = parse_notify_buffer(&buf, len);
    assert_eq!(recs[0].name_units.len(), 7);
    assert_eq!(recs[0].file_name(), "\u{1D11E}.flac");
}

#[test]
fn spellings_of_one_path_are_pending_once() {
    let mut p = PendingChanges::new();
    p.record(FileChangeEvent::Modified("/m/a.mp3".to_string()));
    p.record(FileChangeEvent::Modified("/m//a.mp3".to_string()));
    p.record(FileChangeEvent::Modified("/m/./a.mp3".to_string()));
    assert_eq!(p.len(), 1);
    p.record(FileChangeEvent::Renamed("/m//a.mp3".to_string(), "/m/b.mp3".to_string()));
    assert_eq!(p.len(), 1);
    p.record(FileChangeEvent::Added("/m\\b.mp3".to_string()));
    let expected = if std::path::is_separator('\\') { 1 } else { 2 };
    assert_eq!(p.quiet_period_elapsed(), Some(expected));
}
