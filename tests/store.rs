use pdtodo::api::{CreateNoteRequest, ListNotesQuery, UpdateNoteRequest, UserSettings};
use pdtodo::live::{handle_message, parse_live_message, welcome, LiveMessage, LiveReply};
use pdtodo::logging::AppLogger;
use pdtodo::notes;
use pdtodo::store::{Database, SyncError};

const OWNER_A: u128 = 0x0123456789abcdef0123456789abcdef;
const OWNER_B: u128 = 0xfedcba9876543210fedcba9876543210;
const NOTE_1: u128 = 0x11111111111111111111111111111111;
const NOTE_2: u128 = 0x22222222222222222222222222222222;

#[test]
fn create_is_idempotent_for_its_owner_and_conflicts_for_others() {
    let mut db = Database::new();
    let first = db.create_note(NOTE_1, OWNER_A, "one", b"hi", true, 1000).ok().unwrap();
    assert_eq!(first.version, 1);
    assert_eq!(first.created_at, 1000);
    assert_eq!(first.content.len(), 1);
    let again = db.create_note(NOTE_1, OWNER_A, "other", b"", false, 2000).ok().unwrap();
    assert_eq!(again.title, "one");
    assert_eq!(again.created_at, 1000);
    assert_eq!(db.create_note(NOTE_1, OWNER_B, "x", b"", false, 2000).err(), Some(SyncError::Conflict));
    assert_eq!(db.list_notes(OWNER_A, true, None).len(), 1);
}

#[test]
fn apply_delta_needs_the_owner() {
    let mut db = Database::new();
    db.create_note(NOTE_1, OWNER_A, "one", b"", false, 1000).ok().unwrap();
    assert_eq!(db.apply_delta(NOTE_1, OWNER_B, b"d", 2000).err(), Some(SyncError::NotFound));
    let note = db.apply_delta(NOTE_1, OWNER_A, b"d", 2000).ok().unwrap();
    assert_eq!(note.version, 2);
    assert_eq!(note.updated_at, 2000);
    assert_eq!(note.content.encode(), vec![0, 0, 0, 0, 0, 0, 0, 1, b'd']);
}

#[test]
fn update_keeps_fields_not_given() {
    let mut db = Database::new();
    db.create_note(NOTE_1, OWNER_A, "one", b"hi", true, 1000).ok().unwrap();
    let n = db.update_note(NOTE_1, OWNER_A, None, None, Some(&b"sv"[..]), Some(false), 2000).ok().unwrap();
    assert_eq!(n.title, "one");
    assert!(!n.starred);
    assert_eq!(n.state_vector, Some(b"sv".to_vec()));
    assert_eq!(n.content.len(), 1);
    assert_eq!(n.version, 2);
    assert_eq!(n.updated_at, 2000);
    let m = db.update_note(NOTE_1, OWNER_A, Some("two"), Some(&b""[..]), None, None, 3000).ok().unwrap();
    assert_eq!(m.title, "two");
    assert_eq!(m.content.len(), 0);
    assert_eq!(m.state_vector, Some(b"sv".to_vec()));
    assert_eq!(db.update_note(NOTE_2, OWNER_A, None, None, None, None, 3000).err(), Some(SyncError::NotFound));
}

#[test]
fn log_hands_out_increasing_sequence_numbers() {
    let mut db = Database::new();
    db.create_note(NOTE_1, OWNER_A, "one", b"", false, 1000).ok().unwrap();
    db.create_note(NOTE_2, OWNER_B, "two", b"", false, 1000).ok().unwrap();
    assert_eq!(db.next_update_id(), 1);
    assert_eq!(db.store_sync_update(NOTE_1, b"a", Some("laptop"), 10), Ok(1));
    assert_eq!(db.store_sync_update(NOTE_2, b"b", None, 20), Ok(2));
    assert_eq!(db.store_sync_update(NOTE_1, b"c", None, 30), Ok(3));
    assert_eq!(db.store_sync_update(0x99, b"x", None, 40), Err(SyncError::NotFound));
    assert_eq!(db.next_update_id(), 4);
    let after = db.updates_after(1);
    assert_eq!(after.iter().map(|e| e.id).collect::<Vec<_>>(), vec![2, 3]);
    assert_eq!(db.updates_after(0)[0].client_id, Some("laptop".to_string()));
    assert_eq!(db.get_sync_updates_since(NOTE_1, 10), vec![(3u64, b"c".to_vec())]);
}

#[test]
fn purge_removes_the_note_and_its_log() {
    let mut db = Database::new();
    db.create_note(NOTE_1, OWNER_A, "one", b"", false, 1000).ok().unwrap();
    db.create_note(NOTE_2, OWNER_A, "two", b"", false, 1000).ok().unwrap();
    db.store_sync_update(NOTE_1, b"a", None, 10).ok().unwrap();
    db.store_sync_update(NOTE_2, b"b", None, 20).ok().unwrap();
    assert_eq!(db.permanent_delete_note(NOTE_1, OWNER_B), 0);
    assert_eq!(db.permanent_delete_note(NOTE_1, OWNER_A), 1);
    assert!(db.get_note(NOTE_1, OWNER_A).is_none());
    assert!(db.get_sync_updates_since(NOTE_1, 0).is_empty());
    assert_eq!(db.updates_after(0).len(), 1);
    assert_eq!(db.permanent_delete_note(NOTE_1, OWNER_A), 0);
    assert_eq!(db.store_sync_update(NOTE_2, b"c", None, 30), Ok(3));
}

#[test]
fn listing_filters_owner_trash_and_time() {
    let mut db = Database::new();
    db.create_note(NOTE_1, OWNER_A, "one", b"", false, 1000).ok().unwrap();
    db.create_note(NOTE_2, OWNER_A, "two", b"", false, 2000).ok().unwrap();
    db.create_note(0x33, OWNER_B, "three", b"", false, 3000).ok().unwrap();
    db.soft_delete_note(NOTE_1, OWNER_A, 4000).ok().unwrap();
    assert_eq!(db.list_notes(OWNER_A, false, None).len(), 1);
    assert_eq!(db.list_notes(OWNER_A, true, None).len(), 2);
    assert_eq!(db.list_notes(OWNER_A, true, Some(3000)).len(), 1);
    let page = notes::list_notes(&db, OWNER_A, &ListNotesQuery { include_deleted: true, since: None }, 9000);
    assert_eq!(page.server_time, 9000);
    assert_eq!(page.notes[0].id, NOTE_1);
    assert_eq!(page.notes[0].deleted_at, Some(4000));
    assert_eq!(page.notes[1].title, "two");
}

#[test]
fn note_endpoints_decode_and_encode_base64() {
    let mut db = Database::new();
    let bad = CreateNoteRequest { id: NOTE_1, title: "one".to_string(), content: "%%".to_string(), starred: false };
    assert_eq!(notes::create_note(&mut db, OWNER_A, &bad, 1000).err(), Some(SyncError::InvalidEncoding));
    assert!(db.get_note(NOTE_1, OWNER_A).is_none());
    let good = CreateNoteRequest { id: NOTE_1, title: "one".to_string(), content: "aGk=".to_string(), starred: true };
    let created = notes::create_note(&mut db, OWNER_A, &good, 1000).ok().unwrap();
    assert_eq!(created.id, NOTE_1);
    assert_eq!(created.created_at, 1000);
    assert_eq!(notes::create_note(&mut db, OWNER_B, &good, 1000).err(), Some(SyncError::Conflict));
    let shown = notes::get_note(&db, OWNER_A, NOTE_1).ok().unwrap();
    assert_eq!(shown.content, "AAAAAAAAAAJoaQ==");
    assert!(shown.starred);
    assert_eq!(shown.state_vector, None);
    assert_eq!(notes::get_note(&db, OWNER_B, NOTE_1).err(), Some(SyncError::NotFound));
    let change = UpdateNoteRequest { title: None, content: None, starred: None, state_vector: Some("c3Y=".to_string()) };
    let updated = notes::update_note(&mut db, OWNER_A, NOTE_1, &change, 2000).ok().unwrap();
    assert_eq!(updated.state_vector, Some("c3Y=".to_string()));
    assert_eq!(updated.updated_at, 2000);
    let broken = UpdateNoteRequest { title: None, content: Some("!".to_string()), starred: None, state_vector: None };
    assert_eq!(notes::update_note(&mut db, OWNER_A, NOTE_1, &broken, 3000).err(), Some(SyncError::InvalidEncoding));
    assert_eq!(notes::delete_note(&mut db, OWNER_A, NOTE_1, 4000), Ok(4000));
    assert_eq!(notes::restore_note(&mut db, OWNER_A, NOTE_1, 5000), Ok(5000));
    assert_eq!(notes::permanent_delete(&mut db, OWNER_B, NOTE_1), Err(SyncError::NotFound));
    assert_eq!(notes::permanent_delete(&mut db, OWNER_A, NOTE_1), Ok(()));
    assert_eq!(notes::delete_note(&mut db, OWNER_A, NOTE_1, 6000), Err(SyncError::NotFound));
}

#[test]
fn logger_keeps_the_most_recent_entries() {
    let mut log = AppLogger::new(2);
    log.log_at("info", "a", "one", 10);
    log.log_at("warn", "b", "two", 20);
    log.log_at("error", "c", "three", 30);
    let all = log.get_entries();
    assert_eq!(all.len(), 2);
    assert_eq!(all[0].message, "two");
    assert_eq!(all[1].level, "error");
    let since = log.get_entries_since(20);
    assert_eq!(since.len(), 1);
    assert_eq!(since[0].timestamp, 30);
}

#[test]
fn logger_levels_and_zero_bound() {
    let mut log = AppLogger::new(0);
    log.info("system", "started");
    log.warn("system", "careful");
    let all = log.get_entries();
    assert_eq!(all.len(), 1);
    assert_eq!(all[0].level, "warn");
    let mut big = AppLogger::new(10);
    big.info("x", "1");
    big.warn("x", "2");
    big.error("x", "3");
    let levels: Vec<String> = big.get_entries().into_iter().map(|e| e.level).collect();
    assert_eq!(levels, vec!["info", "warn", "error"]);
    assert!(big.get_entries()[0].timestamp > 1_600_000_000_000);
}

#[test]
fn live_channel_answers() {
    assert!(matches!(welcome(7), LiveReply::Connected { server_time: 7 }));
    assert!(matches!(handle_message(parse_live_message("ping", None), 9), Some(LiveReply::Pong { server_time: 9 })));
    match handle_message(parse_live_message("subscribe", Some("n1".to_string())), 9) {
        Some(LiveReply::Subscribed { note_id }) => assert_eq!(note_id, Some("n1".to_string())),
        _ => panic!("expected an acknowledgment"),
    }
    assert!(matches!(parse_live_message("other", None), LiveMessage::Other));
    assert!(handle_message(LiveMessage::Other, 9).is_none());
}

#[test]
fn settings_defaults() {
    let s = UserSettings::default();
    assert_eq!(s.font_size, 16);
    assert_eq!(s.sidebar_width, 280);
    assert_eq!(pdtodo::api::default_font_size(), 16);
    assert_eq!(pdtodo::api::default_sidebar_width(), 280);
}

#[test]
fn pull_renders_identifiers_in_hyphenated_form() {
    let mut db = Database::new();
    db.create_note(0x0123456789abcdef0123456789abcdef, OWNER_A, "t", b"", false, 1000).ok().unwrap();
    db.soft_delete_note(0x0123456789abcdef0123456789abcdef, OWNER_A, 2000).ok().unwrap();
    let request = pdtodo::sync::SyncPullRequest { state_vectors: vec![], since: 0 };
    let pull = pdtodo::sync::pull_updates(&db, OWNER_A, &request).ok().unwrap();
    assert_eq!(pull.deleted_notes, vec!["01234567-89ab-cdef-0123-456789abcdef".to_string()]);
}

#[test]
fn pull_accepts_state_vector_keys_in_any_identifier_form() {
    let mut db = Database::new();
    db.create_note(NOTE_1, OWNER_A, "t", b"", false, 1000).ok().unwrap();
    db.apply_delta(NOTE_1, OWNER_A, b"d", 2000).ok().unwrap();
    db.store_sync_update(NOTE_1, b"d", None, 2000).ok().unwrap();
    let request = pdtodo::sync::SyncPullRequest {
        state_vectors: vec![("11111111111111111111111111111111".to_string(), String::new())],
        since: 1500,
    };
    let pull = pdtodo::sync::pull_updates_at(&db, OWNER_A, &request, 3000).ok().unwrap();
    assert!(pull.new_notes.is_empty());
    assert_eq!(pull.updates[0].1, vec!["ZA==".to_string()]);
}

#[test]
fn accounts_are_found_by_id_address_and_google_account() {
    let mut db = Database::new();
    let u = db.create_user(7, "a@example.com", Some("Ann"), None, Some("g-1"), 100).ok().unwrap();
    assert_eq!(u.settings, "{}");
    assert_eq!(u.created_at, 100);
    assert_eq!(db.create_user(7, "b@example.com", None, None, None, 100).err(), Some(SyncError::Conflict));
    assert_eq!(db.create_user(8, "a@example.com", None, None, None, 100).err(), Some(SyncError::Conflict));
    assert_eq!(db.get_user_by_id(7).unwrap().email, "a@example.com");
    assert_eq!(db.get_user_by_email("a@example.com").unwrap().id, 7);
    assert_eq!(db.get_user_by_google_id("g-1").unwrap().id, 7);
    assert!(db.get_user_by_google_id("g-2").is_none());
    assert!(db.get_user_by_id(8).is_none());
    let changed = db.update_user(7, None, Some("pic"), 200).ok().unwrap();
    assert_eq!(changed.name, Some("Ann".to_string()));
    assert_eq!(changed.picture_url, Some("pic".to_string()));
    assert_eq!(changed.updated_at, 200);
    let set = db.update_user_settings(7, "{\"fontSize\":18}", 300).ok().unwrap();
    assert_eq!(set.settings, "{\"fontSize\":18}");
    assert_eq!(db.update_user(9, None, None, 300).err(), Some(SyncError::NotFound));
    assert_eq!(db.update_user_settings(9, "{}", 300).err(), Some(SyncError::NotFound));
}

#[test]
fn refresh_tokens_expire_and_are_deleted() {
    let mut db = Database::new();
    db.create_refresh_token(1, 7, "h1", None, 1000, 10);
    db.create_refresh_token(2, 7, "h2", Some("{}"), 2000, 10);
    db.create_refresh_token(3, 8, "h3", None, 2000, 10);
    assert_eq!(db.get_refresh_token("h1", 999).unwrap().id, 1);
    assert!(db.get_refresh_token("h1", 1000).is_none());
    assert!(db.get_refresh_token("nope", 0).is_none());
    assert_eq!(db.delete_refresh_token("h2"), 1);
    assert_eq!(db.delete_refresh_token("h2"), 0);
    assert_eq!(db.delete_user_refresh_tokens(7), 1);
    assert_eq!(db.get_refresh_token("h3", 0).unwrap().user_id, 8);
}

#[test]
fn listing_puts_the_most_recent_change_first() {
    let mut db = Database::new();
    db.create_note(1, OWNER_A, "old", b"", false, 1000).ok().unwrap();
    db.create_note(2, OWNER_A, "new", b"", false, 3000).ok().unwrap();
    db.create_note(3, OWNER_A, "mid", b"", false, 2000).ok().unwrap();
    let titles: Vec<String> = db.list_notes(OWNER_A, false, None).into_iter().map(|n| n.title).collect();
    assert_eq!(titles, vec!["new", "mid", "old"]);
    db.apply_delta(1, OWNER_A, b"x", 4000).ok().unwrap();
    let ids: Vec<u128> = db.list_notes(OWNER_A, false, None).into_iter().map(|n| n.id).collect();
    assert_eq!(ids, vec![1, 2, 3]);
}
