use pdtodo::merge::Document;
use pdtodo::store::{Database, SyncError};
use pdtodo::sync::{
    pull_updates_at, push_updates, push_updates_at, SyncPullRequest, SyncPushRequest, UpdateItem,
};

const OWNER_A: u128 = 0x0123456789abcdef0123456789abcdef;
const OWNER_B: u128 = 0xfedcba9876543210fedcba9876543210;
const NOTE_1: u128 = 0x11111111111111111111111111111111;
const NOTE_2: u128 = 0x22222222222222222222222222222222;
const NOTE_1_TEXT: &str = "11111111-1111-1111-1111-111111111111";
const NOTE_2_TEXT: &str = "22222222-2222-2222-2222-222222222222";
const MISSING_TEXT: &str = "33333333-3333-3333-3333-333333333333";

fn item(note_id: &str, update: &str) -> UpdateItem {
    UpdateItem { note_id: note_id.to_string(), update: update.to_string(), timestamp: 0 }
}

fn store_with_note(owner: u128, id: u128, now: i64) -> Database {
    let mut db = Database::new();
    db.create_note(id, owner, "title", b"", false, now).ok().unwrap();
    db
}

fn pull_all(db: &Database, owner: u128, known: &[&str], since: i64) -> pdtodo::sync::SyncPullResponse {
    let request = SyncPullRequest {
        state_vectors: known.iter().map(|k| (k.to_string(), String::new())).collect(),
        since,
    };
    pull_updates_at(db, owner, &request, 5000).ok().unwrap()
}

#[test]
fn create_push_then_pull_gives_snapshot() {
    let mut db = store_with_note(OWNER_A, NOTE_1, 1000);
    let r = push_updates_at(&mut db, OWNER_A, &vec![item(NOTE_1_TEXT, "RDE=")], 2000);
    assert_eq!(r.processed, vec![NOTE_1_TEXT.to_string()]);
    assert!(r.conflicts.is_empty());
    assert_eq!(r.server_time, 2000);
    let pull = pull_all(&db, OWNER_A, &[], 0);
    assert_eq!(pull.new_notes.len(), 1);
    let snapshot = &pull.new_notes[0];
    assert_eq!(snapshot.id, NOTE_1_TEXT);
    assert_eq!(snapshot.title, "title");
    assert_eq!(snapshot.created_at, 1000);
    // One frame holding the delta "D1".
    assert_eq!(snapshot.content, "AAAAAAAAAAJEMQ==");
    assert!(pull.updates.is_empty());
    assert!(pull.deleted_notes.is_empty());
    assert_eq!(pull.server_time, 5000);
}

#[test]
fn divergent_pushes_converge_for_a_new_device() {
    let mut first = store_with_note(OWNER_A, NOTE_1, 1000);
    push_updates_at(&mut first, OWNER_A, &vec![item(NOTE_1_TEXT, "RDE=")], 2000);
    push_updates_at(&mut first, OWNER_A, &vec![item(NOTE_1_TEXT, "RDI=")], 2001);
    let mut second = store_with_note(OWNER_A, NOTE_1, 1000);
    push_updates_at(&mut second, OWNER_A, &vec![item(NOTE_1_TEXT, "RDI=")], 2000);
    push_updates_at(&mut second, OWNER_A, &vec![item(NOTE_1_TEXT, "RDE=")], 2001);
    let a = pull_all(&first, OWNER_A, &[], 0);
    let b = pull_all(&second, OWNER_A, &[], 0);
    assert_eq!(a.new_notes.len(), 1);
    assert_eq!(b.new_notes.len(), 1);
    assert_eq!(a.new_notes[0].content, b.new_notes[0].content);
    assert_eq!(a.new_notes[0].content, "AAAAAAAAAAJEMQAAAAAAAAACRDI=");
}

#[test]
fn batch_with_missing_note_in_the_middle() {
    let mut db = store_with_note(OWNER_A, NOTE_1, 1000);
    db.create_note(NOTE_2, OWNER_A, "two", b"", false, 1000).ok().unwrap();
    let items = vec![item(NOTE_1_TEXT, "RDE="), item(MISSING_TEXT, "RDI="), item(NOTE_2_TEXT, "RDM=")];
    let r = push_updates_at(&mut db, OWNER_A, &items, 2000);
    assert_eq!(r.processed, vec![NOTE_1_TEXT.to_string(), NOTE_2_TEXT.to_string()]);
    assert_eq!(r.conflicts, vec![MISSING_TEXT.to_string()]);
    assert_eq!(db.get_sync_updates_since(NOTE_1, 0), vec![(1u64, b"D1".to_vec())]);
    assert_eq!(db.get_sync_updates_since(NOTE_2, 0), vec![(2u64, b"D3".to_vec())]);
}

#[test]
fn malformed_items_are_conflicts_and_do_not_block_others() {
    let mut db = store_with_note(OWNER_A, NOTE_1, 1000);
    let items = vec![item("not-an-id", "RDE="), item(NOTE_1_TEXT, "%%%"), item(NOTE_1_TEXT, "RDI=")];
    let r = push_updates_at(&mut db, OWNER_A, &items, 2000);
    assert_eq!(r.processed, vec![NOTE_1_TEXT.to_string()]);
    assert_eq!(r.conflicts, vec!["not-an-id".to_string(), NOTE_1_TEXT.to_string()]);
    let note = db.get_note(NOTE_1, OWNER_A).unwrap();
    assert_eq!(note.content.len(), 1);
    assert_eq!(note.version, 2);
}

#[test]
fn push_for_another_owner_changes_nothing() {
    let mut db = store_with_note(OWNER_A, NOTE_1, 1000);
    let r = push_updates_at(&mut db, OWNER_B, &vec![item(NOTE_1_TEXT, "RDE=")], 2000);
    assert!(r.processed.is_empty());
    assert_eq!(r.conflicts, vec![NOTE_1_TEXT.to_string()]);
    let note = db.get_note(NOTE_1, OWNER_A).unwrap();
    assert_eq!(note.content.len(), 0);
    assert_eq!(note.version, 1);
    assert_eq!(note.updated_at, 1000);
    assert!(db.get_sync_updates_since(NOTE_1, 0).is_empty());
    assert!(db.get_note(NOTE_1, OWNER_B).is_none());
}

#[test]
fn pull_for_another_owner_sees_nothing() {
    let mut db = store_with_note(OWNER_A, NOTE_1, 1000);
    push_updates_at(&mut db, OWNER_A, &vec![item(NOTE_1_TEXT, "RDE=")], 2000);
    db.create_note(NOTE_2, OWNER_A, "gone", b"", false, 1000).ok().unwrap();
    db.soft_delete_note(NOTE_2, OWNER_A, 3000).ok().unwrap();
    let pull = pull_all(&db, OWNER_B, &[NOTE_1_TEXT], 0);
    assert!(pull.new_notes.is_empty());
    assert!(pull.updates.is_empty());
    assert!(pull.deleted_notes.is_empty());
}

#[test]
fn tombstone_reaches_a_pull_from_before_the_delete() {
    let mut db = store_with_note(OWNER_A, NOTE_1, 1000);
    push_updates_at(&mut db, OWNER_A, &vec![item(NOTE_1_TEXT, "RDE=")], 2000);
    db.soft_delete_note(NOTE_1, OWNER_A, 3000).ok().unwrap();
    for known in [&[][..], &[NOTE_1_TEXT][..]] {
        let pull = pull_all(&db, OWNER_A, known, 2500);
        assert_eq!(pull.deleted_notes, vec![NOTE_1_TEXT.to_string()]);
        assert!(pull.new_notes.is_empty());
        assert!(pull.updates.is_empty());
    }
    let later = pull_all(&db, OWNER_A, &[], 3000);
    assert!(later.deleted_notes.is_empty());
}

#[test]
fn restored_note_leaves_the_trash() {
    let mut db = store_with_note(OWNER_A, NOTE_1, 1000);
    let trashed = db.soft_delete_note(NOTE_1, OWNER_A, 3000).ok().unwrap();
    assert_eq!(trashed.deleted_at, Some(3000));
    let restored = db.restore_note(NOTE_1, OWNER_A, 4000).ok().unwrap();
    assert_eq!(restored.deleted_at, None);
    assert_eq!(restored.updated_at, 4000);
    assert_eq!(restored.version, 3);
    let pull = pull_all(&db, OWNER_A, &[], 3500);
    assert!(pull.deleted_notes.is_empty());
    assert_eq!(pull.new_notes.len(), 1);
    assert_eq!(db.restore_note(NOTE_2, OWNER_A, 4000).err(), Some(SyncError::NotFound));
}

#[test]
fn unseen_note_comes_whole_even_with_deltas_in_the_log() {
    let mut db = store_with_note(OWNER_A, NOTE_1, 1000);
    push_updates_at(&mut db, OWNER_A, &vec![item(NOTE_1_TEXT, "RDE="), item(NOTE_1_TEXT, "RDI=")], 2000);
    let pull = pull_all(&db, OWNER_A, &[NOTE_2_TEXT], 1500);
    assert_eq!(pull.new_notes.len(), 1);
    assert_eq!(pull.new_notes[0].id, NOTE_1_TEXT);
    assert!(pull.updates.is_empty());
}

#[test]
fn known_note_gets_its_deltas_in_log_order() {
    let mut db = store_with_note(OWNER_A, NOTE_1, 1000);
    push_updates_at(&mut db, OWNER_A, &vec![item(NOTE_1_TEXT, "RDI=")], 2000);
    push_updates_at(&mut db, OWNER_A, &vec![item(NOTE_1_TEXT, "RDE=")], 3000);
    let pull = pull_all(&db, OWNER_A, &[NOTE_1_TEXT], 1500);
    assert!(pull.new_notes.is_empty());
    assert_eq!(pull.updates.len(), 1);
    assert_eq!(pull.updates[0].0, NOTE_1_TEXT);
    assert_eq!(pull.updates[0].1, vec!["RDI=".to_string(), "RDE=".to_string()]);
    let recent = pull_all(&db, OWNER_A, &[NOTE_1_TEXT], 2500);
    assert_eq!(recent.updates[0].1, vec!["RDE=".to_string()]);
}

#[test]
fn known_note_without_new_deltas_is_left_out() {
    let mut db = store_with_note(OWNER_A, NOTE_1, 1000);
    db.update_note(NOTE_1, OWNER_A, Some("renamed"), None, None, None, 2000).ok().unwrap();
    let pull = pull_all(&db, OWNER_A, &[NOTE_1_TEXT], 1500);
    assert!(pull.updates.is_empty());
    assert!(pull.new_notes.is_empty());
    assert!(pull.deleted_notes.is_empty());
}

#[test]
fn pruned_history_falls_back_to_a_snapshot() {
    let mut db = store_with_note(OWNER_A, NOTE_1, 1000);
    push_updates_at(&mut db, OWNER_A, &vec![item(NOTE_1_TEXT, "RDE=")], 2000);
    push_updates_at(&mut db, OWNER_A, &vec![item(NOTE_1_TEXT, "RDI=")], 3000);
    db.prune_updates_before(2500);
    assert_eq!(db.retained_from(), 2500);
    assert_eq!(db.get_sync_updates_since(NOTE_1, 0), vec![(2u64, b"D2".to_vec())]);
    let pull = pull_all(&db, OWNER_A, &[NOTE_1_TEXT], 1500);
    assert!(pull.updates.is_empty());
    assert_eq!(pull.new_notes.len(), 1);
    assert_eq!(pull.new_notes[0].content, "AAAAAAAAAAJEMQAAAAAAAAACRDI=");
    let recent = pull_all(&db, OWNER_A, &[NOTE_1_TEXT], 2500);
    assert_eq!(recent.updates[0].1, vec!["RDI=".to_string()]);
}

#[test]
fn retried_push_leaves_content_as_one_push() {
    let mut once = store_with_note(OWNER_A, NOTE_1, 1000);
    push_updates_at(&mut once, OWNER_A, &vec![item(NOTE_1_TEXT, "RDE=")], 2000);
    let mut twice = store_with_note(OWNER_A, NOTE_1, 1000);
    push_updates_at(&mut twice, OWNER_A, &vec![item(NOTE_1_TEXT, "RDE=")], 2000);
    push_updates_at(&mut twice, OWNER_A, &vec![item(NOTE_1_TEXT, "RDE=")], 2000);
    let a = once.get_note(NOTE_1, OWNER_A).unwrap();
    let b = twice.get_note(NOTE_1, OWNER_A).unwrap();
    assert_eq!(a.content.encode(), b.content.encode());
    assert_eq!(twice.get_sync_updates_since(NOTE_1, 0).len(), 2);
}

#[test]
fn push_with_the_clock_stamps_server_time() {
    let mut db = store_with_note(OWNER_A, NOTE_1, 1000);
    let request = SyncPushRequest { updates: vec![item(NOTE_1_TEXT, "RDE=")] };
    let r = push_updates(&mut db, OWNER_A, &request);
    assert_eq!(r.processed.len(), 1);
    assert!(r.server_time > 1_600_000_000_000);
    let note = db.get_note(NOTE_1, OWNER_A).unwrap();
    assert_eq!(note.updated_at, r.server_time);
}

#[test]
fn any_order_of_deltas_folds_to_the_same_document() {
    let deltas: Vec<Vec<u8>> = vec![b"alpha".to_vec(), b"b".to_vec(), b"".to_vec(), b"al".to_vec(), b"zz".to_vec()];
    let mut expected: Option<Vec<u8>> = None;
    let mut seed: u64 = 7;
    for _ in 0..50 {
        let mut order: Vec<usize> = (0..deltas.len()).collect();
        for i in (1..order.len()).rev() {
            seed = seed.wrapping_mul(6364136223846793005).wrapping_add(1442695040888963407);
            let j = (seed >> 33) as usize % (i + 1);
            order.swap(i, j);
        }
        let mut doc = Document::new();
        for &k in &order {
            doc = doc.merge(&deltas[k]);
        }
        let bytes = doc.encode();
        match &expected {
            Some(e) => assert_eq!(&bytes, e),
            None => expected = Some(bytes),
        }
    }
}

#[test]
fn merge_orders_updates_and_skips_repeats() {
    let doc = Document::new().merge(b"b").merge(b"a").merge(b"b");
    assert_eq!(doc.len(), 2);
    assert_eq!(doc.encode(), vec![0, 0, 0, 0, 0, 0, 0, 1, b'a', 0, 0, 0, 0, 0, 0, 0, 1, b'b']);
    let prefix_first = Document::new().merge(b"ab").merge(b"a");
    assert_eq!(prefix_first.encode(), vec![0, 0, 0, 0, 0, 0, 0, 1, b'a', 0, 0, 0, 0, 0, 0, 0, 2, b'a', b'b']);
    assert!(pdtodo::merge::bytes_lt(b"a", b"ab"));
    assert!(!pdtodo::merge::bytes_lt(b"b", b"ab"));
    assert!(!pdtodo::merge::bytes_lt(b"a", b"a"));
}

#[test]
fn empty_document_encodes_to_nothing() {
    assert!(Document::new().encode().is_empty());
    assert_eq!(Document::from_content(b"").len(), 0);
    assert_eq!(Document::from_content(b"hi").encode(), vec![0, 0, 0, 0, 0, 0, 0, 2, b'h', b'i']);
}
