//! The push and pull reconcilers.
//!
//! A push folds a batch of deltas into the caller's notes, item by item: an
//! item that names no note of the caller, or carries a delta that is not valid
//! base64, is reported as a conflict and never stops the others. A pull tells
//! a client what it is missing since its last pull: tombstones, snapshots of
//! notes it has never seen, and the deltas of the notes it knows.
use vstd::prelude::*;
use crate::codec::{
    base64_decoded, base64_text, decode_base64, encode_base64, now_millis, parse_uuid,
    parsed_uuid, uuid_string, uuid_text,
};
use crate::merge::encoded;
use crate::store::{
    appended, delta_applied, has_id, has_note, updates_since, with_note, Database, DbView,
    NoteView, SyncError, UpdateView,
};

verus! {

/// One delta of a push: the note's identifier and the delta in base64.
pub struct UpdateItem {
    pub note_id: String,
    pub update: String,
    pub timestamp: i64,
}

/// A batch of deltas.
pub struct SyncPushRequest {
    pub updates: Vec<UpdateItem>,
}

/// What a push did: the identifiers of the items folded in and of those
/// refused, each in batch order, and the server's time.
pub struct SyncPushResponse {
    pub processed: Vec<String>,
    pub conflicts: Vec<String>,
    pub server_time: i64,
}

/// What a client knows: the notes it holds, each with its state vector in
/// base64, and the time of its last pull.
pub struct SyncPullRequest {
    pub state_vectors: Vec<(String, String)>,
    pub since: i64,
}

/// The full state of a note that the client has never seen.
pub struct NewNote {
    pub id: String,
    pub title: String,
    pub content: String,
    pub starred: bool,
    pub created_at: i64,
}

/// What a client is missing: the deltas of each note it knows that changed,
/// the snapshots of the notes it must take whole, the notes moved to the
/// trash, and the server's time.
pub struct SyncPullResponse {
    pub updates: Vec<(String, Vec<String>)>,
    pub new_notes: Vec<NewNote>,
    pub deleted_notes: Vec<String>,
    pub server_time: i64,
}

/// A snapshot, as plain values.
pub struct NewNoteView {
    pub id: Seq<char>,
    pub title: Seq<char>,
    pub content: Seq<char>,
    pub starred: bool,
    pub created_at: i64,
}

impl View for NewNote {
    type V = NewNoteView;

    open spec fn view(&self) -> NewNoteView {
        NewNoteView {
            id: self.id@,
            title: self.title@,
            content: self.content@,
            starred: self.starred,
            created_at: self.created_at,
        }
    }
}

pub open spec fn string_views(vs: Seq<String>) -> Seq<Seq<char>> {
    vs.map_values(|s: String| s@)
}

pub open spec fn new_note_views(vs: Seq<NewNote>) -> Seq<NewNoteView> {
    vs.map_values(|n: NewNote| n@)
}

pub open spec fn change_views(vs: Seq<(String, Vec<String>)>) -> Seq<(Seq<char>, Seq<Seq<char>>)> {
    vs.map_values(|p: (String, Vec<String>)| (p.0@, string_views(p.1@)))
}

// ---------------------------------------------------------------- push

/// The note and delta that a push item stands for: its identifier must name
/// a note of `owner`, and its delta must be valid base64.
pub open spec fn item_target(v: DbView, owner: u128, note_id: Seq<char>, update: Seq<char>) -> Option<(u128, Seq<u8>)> {
    match parsed_uuid(note_id) {
        Some(id) => if has_note(v, id, owner) {
            match base64_decoded(update) {
                Some(d) => Some((id, d)),
                None => None,
            }
        } else {
            None
        },
        None => None,
    }
}

/// The store after one delta `d` of note `id` is logged and folded in.
pub open spec fn delta_pushed(v: DbView, owner: u128, id: u128, d: Seq<u8>, now: i64) -> DbView {
    with_note(appended(v, id, d, None, now), id, owner, |n: NoteView| delta_applied(n, d, now))
}

/// A push of `items` by `owner` at time `now`: the store after it, and the
/// identifiers of the items folded in and of those refused, in batch order.
pub open spec fn pushed(v: DbView, owner: u128, items: Seq<UpdateItem>, now: i64) -> (DbView, Seq<Seq<char>>, Seq<Seq<char>>)
    decreases items.len(),
{
    if items.len() == 0 {
        (v, Seq::empty(), Seq::empty())
    } else {
        let (w, p, c) = pushed(v, owner, items.drop_last(), now);
        let it = items.last();
        match item_target(w, owner, it.note_id@, it.update@) {
            Some((id, d)) => (delta_pushed(w, owner, id, d, now), p.push(it.note_id@), c),
            None => (w, p, c.push(it.note_id@)),
        }
    }
}

/// Whether the store holds the note `id` of `user_id`.
pub fn owns_note(db: &Database, id: u128, user_id: u128) -> (r: bool)
    requires
        db.wf(),
    ensures
        r == has_note(db@, id, user_id),
{
    db.get_note(id, user_id).is_some()
}

/// Pushes the batch `updates` of `user_id` at time `now`. Each item is folded
/// into its note and logged when it names a note of `user_id` and carries
/// valid base64; otherwise it is a conflict. The other items go on either way.
pub fn push_updates_at(db: &mut Database, user_id: u128, updates: &Vec<UpdateItem>, now: i64) -> (r: SyncPushResponse)
    requires
        old(db).wf(),
        old(db)@.next_update_id + updates@.len() < u64::MAX,
    ensures
        final(db).wf(),
        (final(db)@, string_views(r.processed@), string_views(r.conflicts@)) == pushed(old(db)@, user_id, updates@, now),
        r.server_time == now,
{
    let ghost start = db@;
    let mut processed: Vec<String> = Vec::new();
    let mut conflicts: Vec<String> = Vec::new();
    let mut i: usize = 0;
    while i < updates.len()
        invariant
            i <= updates@.len(),
            db.wf(),
            db@.next_update_id <= start.next_update_id + i,
            start.next_update_id + updates@.len() < u64::MAX,
            (db@, string_views(processed@), string_views(conflicts@)) == pushed(start, user_id, updates@.take(i as int), now),
        decreases updates.len() - i,
    {
        let item = &updates[i];
        let ghost w = db@;
        let ghost p = string_views(processed@);
        let ghost c = string_views(conflicts@);
        proof {
            assert(updates@.take(i + 1).drop_last() =~= updates@.take(i as int));
            assert(updates@.take(i + 1).last() == updates@[i as int]);
        }
        let target = match parse_uuid(item.note_id.as_str()) {
            Some(id) => if owns_note(db, id, user_id) {
                match decode_base64(item.update.as_str()) {
                    Some(d) => Some((id, d)),
                    None => None,
                }
            } else {
                None
            },
            None => None,
        };
        match target {
            Some((id, d)) => {
                proof {
                    let k = choose|k: int| 0 <= k < w.notes.len() && crate::store::owned(#[trigger] w.notes[k], id, user_id);
                    assert(w.notes[k].id == id);
                    assert(has_id(w, id));
                }
                let _ = db.store_sync_update(id, d.as_slice(), None, now);
                let ghost a = db@;
                proof {
                    assert(a.notes == w.notes);
                    assert(has_note(a, id, user_id));
                }
                let _ = db.apply_delta(id, user_id, d.as_slice(), now);
                proof {
                    assert(db@.notes =~= delta_pushed(w, user_id, id, d@, now).notes);
                    assert(db@ =~= delta_pushed(w, user_id, id, d@, now));
                }
                processed.push(item.note_id.clone());
                assert(string_views(processed@) =~= p.push(item.note_id@));
            },
            None => {
                conflicts.push(item.note_id.clone());
                assert(string_views(conflicts@) =~= c.push(item.note_id@));
            },
        }
        i = i + 1;
    }
    assert(updates@.take(updates@.len() as int) =~= updates@);
    SyncPushResponse { processed, conflicts, server_time: now }
}

/// Pushes a batch of `user_id` stamped with the server's time now.
pub fn push_updates(db: &mut Database, user_id: u128, request: &SyncPushRequest) -> (r: SyncPushResponse)
    requires
        old(db).wf(),
        old(db)@.next_update_id + request.updates@.len() < u64::MAX,
    ensures
        final(db).wf(),
        (final(db)@, string_views(r.processed@), string_views(r.conflicts@)) == pushed(old(db)@, user_id, request.updates@, r.server_time),
{
    let now = now_millis();
    push_updates_at(db, user_id, &request.updates, now)
}

// ---------------------------------------------------------------- pull

/// The client names note `id` among the notes it holds.
pub open spec fn known(sv: Seq<(String, String)>, id: u128) -> bool {
    exists|k: int| 0 <= k < sv.len() && parsed_uuid((#[trigger] sv[k]).0@) == Some(id)
}

/// The note belongs to `owner` and changed after `since`.
pub open spec fn changed_since(n: NoteView, owner: u128, since: i64) -> bool {
    n.user_id == owner && n.updated_at > since
}

/// The log may have lost entries received after `since`.
pub open spec fn history_pruned(v: DbView, since: i64) -> bool {
    since < v.retained_from
}

/// The deltas of note `id` received after `since`, in log order.
pub open spec fn deltas_since(log: Seq<UpdateView>, id: u128, since: i64) -> Seq<Seq<u8>> {
    updates_since(log, id, since).map_values(|p: (u64, Seq<u8>)| p.1)
}

/// A changed note in the trash goes out as a tombstone.
pub open spec fn tombstone_of(n: NoteView, owner: u128, since: i64) -> Option<u128> {
    if changed_since(n, owner, since) && n.deleted_at.is_some() {
        Some(n.id)
    } else {
        None
    }
}

/// A changed live note goes out whole when the client has never seen it, or
/// when the log can no longer tell what the client misses.
pub open spec fn snapshot_wanted(v: DbView, n: NoteView, owner: u128, sv: Seq<(String, String)>, since: i64) -> bool {
    changed_since(n, owner, since) && n.deleted_at.is_none() && (!known(sv, n.id) || history_pruned(v, since))
}

/// A changed live note that the client knows goes out as its deltas.
pub open spec fn deltas_wanted(v: DbView, n: NoteView, owner: u128, sv: Seq<(String, String)>, since: i64) -> bool {
    changed_since(n, owner, since) && n.deleted_at.is_none() && known(sv, n.id) && !history_pruned(v, since)
}

pub open spec fn snapshot_of(v: DbView, n: NoteView, owner: u128, sv: Seq<(String, String)>, since: i64) -> Option<NoteView> {
    if snapshot_wanted(v, n, owner, sv, since) {
        Some(n)
    } else {
        None
    }
}

/// The deltas of a note, when it goes out as deltas and has any.
pub open spec fn change_of(v: DbView, n: NoteView, owner: u128, sv: Seq<(String, String)>, since: i64) -> Option<(u128, Seq<Seq<u8>>)> {
    if deltas_wanted(v, n, owner, sv, since) && deltas_since(v.log, n.id, since).len() > 0 {
        Some((n.id, deltas_since(v.log, n.id, since)))
    } else {
        None
    }
}

pub open spec fn tombstones_in(notes: Seq<NoteView>, owner: u128, since: i64) -> Seq<u128> {
    notes.filter_map(|n: NoteView| tombstone_of(n, owner, since))
}

pub open spec fn snapshots_in(v: DbView, notes: Seq<NoteView>, owner: u128, sv: Seq<(String, String)>, since: i64) -> Seq<NoteView> {
    notes.filter_map(|n: NoteView| snapshot_of(v, n, owner, sv, since))
}

pub open spec fn changes_in(v: DbView, notes: Seq<NoteView>, owner: u128, sv: Seq<(String, String)>, since: i64) -> Seq<(u128, Seq<Seq<u8>>)> {
    notes.filter_map(|n: NoteView| change_of(v, n, owner, sv, since))
}

/// The notes that a pull reports as moved to the trash, in store order.
pub open spec fn tombstones(v: DbView, owner: u128, since: i64) -> Seq<u128> {
    tombstones_in(v.notes, owner, since)
}

/// The notes that a pull sends whole, in store order.
pub open spec fn snapshots(v: DbView, owner: u128, sv: Seq<(String, String)>, since: i64) -> Seq<NoteView> {
    snapshots_in(v, v.notes, owner, sv, since)
}

/// The notes that a pull sends as deltas, with their deltas, in store order.
pub open spec fn changes(v: DbView, owner: u128, sv: Seq<(String, String)>, since: i64) -> Seq<(u128, Seq<Seq<u8>>)> {
    changes_in(v, v.notes, owner, sv, since)
}

pub open spec fn rendered_ids(ids: Seq<u128>) -> Seq<Seq<char>> {
    ids.map_values(|id: u128| uuid_text(id))
}

pub open spec fn snapshot_view(n: NoteView) -> NewNoteView {
    NewNoteView {
        id: uuid_text(n.id),
        title: n.title,
        content: base64_text(encoded(n.content)),
        starred: n.starred,
        created_at: n.created_at,
    }
}

pub open spec fn rendered_snapshots(ns: Seq<NoteView>) -> Seq<NewNoteView> {
    ns.map_values(|n: NoteView| snapshot_view(n))
}

pub open spec fn rendered_deltas(ds: Seq<Seq<u8>>) -> Seq<Seq<char>> {
    ds.map_values(|d: Seq<u8>| base64_text(d))
}

pub open spec fn rendered_changes(cs: Seq<(u128, Seq<Seq<u8>>)>) -> Seq<(Seq<char>, Seq<Seq<char>>)> {
    cs.map_values(|c: (u128, Seq<Seq<u8>>)| (uuid_text(c.0), rendered_deltas(c.1)))
}

/// What a pull would send of this note is small enough to encode.
pub open spec fn note_fits(v: DbView, n: NoteView, owner: u128, sv: Seq<(String, String)>, since: i64) -> bool {
    &&& snapshot_wanted(v, n, owner, sv, since) ==> encoded(n.content).len() <= usize::MAX / 2
    &&& deltas_wanted(v, n, owner, sv, since) ==> forall|k: int|
        0 <= k < deltas_since(v.log, n.id, since).len() ==> (#[trigger] deltas_since(v.log, n.id, since)[k]).len() <= usize::MAX / 2
}

/// Everything a pull would send is small enough to encode.
pub open spec fn pull_fits(v: DbView, owner: u128, sv: Seq<(String, String)>, since: i64) -> bool {
    forall|i: int| 0 <= i < v.notes.len() ==> note_fits(v, #[trigger] v.notes[i], owner, sv, since)
}

proof fn lemma_string_views_push(vs: Seq<String>, x: String)
    ensures
        string_views(vs.push(x)) == string_views(vs).push(x@),
{
    assert(string_views(vs.push(x)) =~= string_views(vs).push(x@));
}

proof fn lemma_new_note_views_push(vs: Seq<NewNote>, x: NewNote)
    ensures
        new_note_views(vs.push(x)) == new_note_views(vs).push(x@),
{
    assert(new_note_views(vs.push(x)) =~= new_note_views(vs).push(x@));
}

proof fn lemma_change_views_push(vs: Seq<(String, Vec<String>)>, x: (String, Vec<String>))
    ensures
        change_views(vs.push(x)) == change_views(vs).push((x.0@, string_views(x.1@))),
{
    assert(change_views(vs.push(x)) =~= change_views(vs).push((x.0@, string_views(x.1@))));
}

proof fn lemma_rendered_ids_snoc(ids: Seq<u128>, id: u128)
    ensures
        rendered_ids(ids + seq![id]) == rendered_ids(ids).push(uuid_text(id)),
{
    assert(rendered_ids(ids + seq![id]) =~= rendered_ids(ids).push(uuid_text(id)));
}

proof fn lemma_rendered_snapshots_snoc(ns: Seq<NoteView>, n: NoteView)
    ensures
        rendered_snapshots(ns + seq![n]) == rendered_snapshots(ns).push(snapshot_view(n)),
{
    assert(rendered_snapshots(ns + seq![n]) =~= rendered_snapshots(ns).push(snapshot_view(n)));
}

proof fn lemma_rendered_changes_snoc(cs: Seq<(u128, Seq<Seq<u8>>)>, c: (u128, Seq<Seq<u8>>))
    ensures
        rendered_changes(cs + seq![c]) == rendered_changes(cs).push((uuid_text(c.0), rendered_deltas(c.1))),
{
    assert(rendered_changes(cs + seq![c]) =~= rendered_changes(cs).push((uuid_text(c.0), rendered_deltas(c.1))));
}

proof fn lemma_rendered_deltas_take(ds: Seq<Seq<u8>>, j: int)
    requires
        0 <= j < ds.len(),
    ensures
        rendered_deltas(ds.take(j + 1)) == rendered_deltas(ds.take(j)).push(base64_text(ds[j])),
{
    assert(rendered_deltas(ds.take(j + 1)) =~= rendered_deltas(ds.take(j)).push(base64_text(ds[j])));
}

/// The identifiers of the notes that the client names.
fn known_ids(sv: &Vec<(String, String)>) -> (r: Vec<u128>)
    ensures
        forall|id: u128| r@.contains(id) <==> known(sv@, id),
{
    let mut r: Vec<u128> = Vec::new();
    let mut j: usize = 0;
    while j < sv.len()
        invariant
            j <= sv@.len(),
            forall|id: u128| r@.contains(id) <==> exists|k: int| 0 <= k < j && parsed_uuid((#[trigger] sv@[k]).0@) == Some(id),
        decreases sv.len() - j,
    {
        let ghost prev = r@;
        match parse_uuid(sv[j].0.as_str()) {
            Some(id) => {
                r.push(id);
                assert forall|x: u128| r@.contains(x) <==> exists|k: int| 0 <= k < j + 1 && parsed_uuid((#[trigger] sv@[k]).0@) == Some(x) by {
                    if r@.contains(x) && x != id {
                        let m = choose|m: int| 0 <= m < r@.len() && r@[m] == x;
                        assert(prev[m] == x);
                        assert(prev.contains(x));
                    }
                    if x == id {
                        assert(r@[r@.len() - 1] == x);
                    }
                    if exists|k: int| 0 <= k < j + 1 && parsed_uuid((#[trigger] sv@[k]).0@) == Some(x) {
                        let k = choose|k: int| 0 <= k < j + 1 && parsed_uuid((#[trigger] sv@[k]).0@) == Some(x);
                        if k < j {
                            assert(prev.contains(x));
                            let m = choose|m: int| 0 <= m < prev.len() && prev[m] == x;
                            assert(r@[m] == x);
                        }
                    }
                }
            },
            None => {
                assert forall|x: u128| r@.contains(x) <==> exists|k: int| 0 <= k < j + 1 && parsed_uuid((#[trigger] sv@[k]).0@) == Some(x) by {
                    if exists|k: int| 0 <= k < j + 1 && parsed_uuid((#[trigger] sv@[k]).0@) == Some(x) {
                        let k = choose|k: int| 0 <= k < j + 1 && parsed_uuid((#[trigger] sv@[k]).0@) == Some(x);
                        assert(k < j);
                    }
                    if r@.contains(x) {
                        assert(r@ == prev);
                    }
                }
            },
        }
        j = j + 1;
    }
    r
}

/// Whether `id` is among `ids`.
fn contains_id(ids: &Vec<u128>, id: u128) -> (r: bool)
    ensures
        r == ids@.contains(id),
{
    let mut m: usize = 0;
    while m < ids.len()
        invariant
            m <= ids@.len(),
            forall|k: int| 0 <= k < m ==> ids@[k] != id,
        decreases ids.len() - m,
    {
        if ids[m] == id {
            return true;
        }
        m = m + 1;
    }
    false
}

/// The deltas of note `id` received after `since`, in base64; none when one
/// of them is too large to encode.
fn encoded_deltas(db: &Database, id: u128, since: i64) -> (r: Option<Vec<String>>)
    ensures
        match r {
            Some(out) => {
                &&& string_views(out@) == rendered_deltas(deltas_since(db@.log, id, since))
                &&& forall|k: int| 0 <= k < deltas_since(db@.log, id, since).len() ==> (#[trigger] deltas_since(db@.log, id, since)[k]).len() <= usize::MAX / 2
            },
            None => exists|k: int| 0 <= k < deltas_since(db@.log, id, since).len() && (#[trigger] deltas_since(db@.log, id, since)[k]).len() > usize::MAX / 2,
        },
{
    let pairs = db.get_sync_updates_since(id, since);
    let ghost ds = deltas_since(db@.log, id, since);
    assert(ds.len() == pairs@.len());
    let mut out: Vec<String> = Vec::new();
    let mut j: usize = 0;
    while j < pairs.len()
        invariant
            j <= pairs@.len(),
            ds.len() == pairs@.len(),
            ds == deltas_since(db@.log, id, since),
            forall|k: int| 0 <= k < pairs@.len() ==> (#[trigger] ds[k]) == pairs@[k].1@,
            string_views(out@) == rendered_deltas(ds.take(j as int)),
            forall|k: int| 0 <= k < j ==> (#[trigger] ds[k]).len() <= usize::MAX / 2,
        decreases pairs.len() - j,
    {
        let data = pairs[j].1.as_slice();
        if data.len() > usize::MAX / 2 {
            assert(ds[j as int].len() > usize::MAX / 2);
            return None;
        }
        let text = encode_base64(data);
        proof {
            lemma_string_views_push(out@, text);
            lemma_rendered_deltas_take(ds, j as int);
        }
        out.push(text);
        j = j + 1;
    }
    assert(ds.take(ds.len() as int) =~= ds);
    Some(out)
}

/// Pulls for `user_id` at time `now` what the client described by `request`
/// misses: tombstones, snapshots and deltas, as `tombstones`, `snapshots` and
/// `changes` give them. It fails only when something to send is too large to
/// encode.
pub fn pull_updates_at(db: &Database, user_id: u128, request: &SyncPullRequest, now: i64) -> (r: Result<SyncPullResponse, SyncError>)
    requires
        db.wf(),
    ensures
        r.is_ok() == pull_fits(db@, user_id, request.state_vectors@, request.since),
        match r {
            Ok(resp) => {
                &&& string_views(resp.deleted_notes@) == rendered_ids(tombstones(db@, user_id, request.since))
                &&& new_note_views(resp.new_notes@) == rendered_snapshots(snapshots(db@, user_id, request.state_vectors@, request.since))
                &&& change_views(resp.updates@) == rendered_changes(changes(db@, user_id, request.state_vectors@, request.since))
                &&& resp.server_time == now
            },
            Err(e) => e == SyncError::StorageFailure,
        },
{
    let ghost v = db@;
    let ghost sv = request.state_vectors@;
    let since = request.since;
    let ids = known_ids(&request.state_vectors);
    let pruned = since < db.retained_from();
    let mut updates: Vec<(String, Vec<String>)> = Vec::new();
    let mut new_notes: Vec<NewNote> = Vec::new();
    let mut deleted_notes: Vec<String> = Vec::new();
    let n = db.note_count();
    let mut i: usize = 0;
    while i < n
        invariant
            i <= n,
            n == v.notes.len(),
            v == db@,
            sv == request.state_vectors@,
            since == request.since,
            pruned == history_pruned(v, since),
            forall|id: u128| ids@.contains(id) <==> known(sv, id),
            string_views(deleted_notes@) == rendered_ids(tombstones_in(v.notes.take(i as int), user_id, since)),
            new_note_views(new_notes@) == rendered_snapshots(snapshots_in(v, v.notes.take(i as int), user_id, sv, since)),
            change_views(updates@) == rendered_changes(changes_in(v, v.notes.take(i as int), user_id, sv, since)),
            forall|k: int| 0 <= k < i ==> note_fits(v, #[trigger] v.notes[k], user_id, sv, since),
        decreases n - i,
    {
        let note = db.note_at(i);
        let ghost nv = v.notes[i as int];
        proof {
            assert(v.notes.take(i + 1).drop_last() =~= v.notes.take(i as int));
            assert(v.notes.take(i + 1).last() == nv);
        }
        if note.user_id == user_id && note.updated_at > since {
            if note.deleted_at.is_some() {
                let text = uuid_string(note.id);
                proof {
                    lemma_string_views_push(deleted_notes@, text);
                    lemma_rendered_ids_snoc(tombstones_in(v.notes.take(i as int), user_id, since), nv.id);
                    assert(tombstones_in(v.notes.take(i + 1), user_id, since) == tombstones_in(v.notes.take(i as int), user_id, since) + seq![nv.id]);
                }
                deleted_notes.push(text);
            } else {
                let is_known = contains_id(&ids, note.id);
                if !is_known || pruned {
                    let bytes = note.content.encode();
                    if bytes.len() > usize::MAX / 2 {
                        assert(!note_fits(v, v.notes[i as int], user_id, sv, since));
                        return Err(SyncError::StorageFailure);
                    }
                    let snapshot = NewNote {
                        id: uuid_string(note.id),
                        title: note.title.clone(),
                        content: encode_base64(bytes.as_slice()),
                        starred: note.starred,
                        created_at: note.created_at,
                    };
                    proof {
                        lemma_new_note_views_push(new_notes@, snapshot);
                        lemma_rendered_snapshots_snoc(snapshots_in(v, v.notes.take(i as int), user_id, sv, since), nv);
                        assert(snapshots_in(v, v.notes.take(i + 1), user_id, sv, since) == snapshots_in(v, v.notes.take(i as int), user_id, sv, since) + seq![nv]);
                    }
                    new_notes.push(snapshot);
                } else {
                    match encoded_deltas(db, note.id, since) {
                        Some(out) => {
                            proof {
                                assert(string_views(out@).len() == out@.len());
                                assert(rendered_deltas(deltas_since(v.log, nv.id, since)).len() == deltas_since(v.log, nv.id, since).len());
                                assert(known(sv, nv.id));
                                assert(deltas_wanted(v, nv, user_id, sv, since));
                            }
                            if out.len() > 0 {
                                let entry = (uuid_string(note.id), out);
                                proof {
                                    let c = (nv.id, deltas_since(v.log, nv.id, since));
                                    lemma_change_views_push(updates@, entry);
                                    lemma_rendered_changes_snoc(changes_in(v, v.notes.take(i as int), user_id, sv, since), c);
                                    assert(changes_in(v, v.notes.take(i + 1), user_id, sv, since) == changes_in(v, v.notes.take(i as int), user_id, sv, since) + seq![c]);
                                }
                                updates.push(entry);
                            }
                        },
                        None => {
                            assert(!note_fits(v, v.notes[i as int], user_id, sv, since));
                            return Err(SyncError::StorageFailure);
                        },
                    }
                }
            }
        }
        i = i + 1;
    }
    assert(v.notes.take(n as int) =~= v.notes);
    Ok(SyncPullResponse { updates, new_notes, deleted_notes, server_time: now })
}

/// Pulls for `user_id` what the client described by `request` misses,
/// stamped with the server's time now.
pub fn pull_updates(db: &Database, user_id: u128, request: &SyncPullRequest) -> (r: Result<SyncPullResponse, SyncError>)
    requires
        db.wf(),
    ensures
        r.is_ok() == pull_fits(db@, user_id, request.state_vectors@, request.since),
        match r {
            Ok(resp) => {
                &&& string_views(resp.deleted_notes@) == rendered_ids(tombstones(db@, user_id, request.since))
                &&& new_note_views(resp.new_notes@) == rendered_snapshots(snapshots(db@, user_id, request.state_vectors@, request.since))
                &&& change_views(resp.updates@) == rendered_changes(changes(db@, user_id, request.state_vectors@, request.since))
            },
            Err(e) => e == SyncError::StorageFailure,
        },
{
    let now = now_millis();
    pull_updates_at(db, user_id, request, now)
}

} // verus!
