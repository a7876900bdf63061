//! The note endpoints of the service, from decoded request to response.
use vstd::prelude::*;
use crate::api::{CreateNoteRequest, CreateNoteResponse, ListNotesQuery, NoteResponse, UpdateNoteRequest};
use crate::codec::{base64_decoded, base64_text, decode_base64, encode_base64};
use crate::merge::{encoded, initial_state};
use crate::store::{
    edited, has_id, has_note, listed, newest_first, note_views, owned, trashed, untrashed, with_note, Database,
    DbView, Note, NoteMeta, NoteView, SyncError,
};

verus! {

/// A note response, as plain values.
pub struct NoteResponseView {
    pub id: u128,
    pub title: Seq<char>,
    pub content: Seq<char>,
    pub starred: bool,
    pub created_at: i64,
    pub updated_at: i64,
    pub state_vector: Option<Seq<char>>,
}

impl View for NoteResponse {
    type V = NoteResponseView;

    open spec fn view(&self) -> NoteResponseView {
        NoteResponseView {
            id: self.id,
            title: self.title@,
            content: self.content@,
            starred: self.starred,
            created_at: self.created_at,
            updated_at: self.updated_at,
            state_vector: match self.state_vector {
                Some(s) => Some(s@),
                None => None,
            },
        }
    }
}

/// The response that shows note `n`: its content's bytes and its state vector
/// in base64.
pub open spec fn response_of(n: NoteView) -> NoteResponseView {
    NoteResponseView {
        id: n.id,
        title: n.title,
        content: base64_text(encoded(n.content)),
        starred: n.starred,
        created_at: n.created_at,
        updated_at: n.updated_at,
        state_vector: match n.state_vector {
            Some(s) => Some(base64_text(s)),
            None => None,
        },
    }
}

/// The payloads of note `n` are small enough to encode.
pub open spec fn response_fits(n: NoteView) -> bool {
    &&& encoded(n.content).len() <= usize::MAX / 2
    &&& match n.state_vector {
        Some(s) => s.len() <= usize::MAX / 2,
        None => true,
    }
}

/// The response that shows `note`; it fails only when a payload is too large
/// to encode.
pub fn note_response(note: &Note) -> (r: Result<NoteResponse, SyncError>)
    ensures
        r.is_ok() == response_fits(note@),
        match r {
            Ok(x) => x@ == response_of(note@),
            Err(e) => e == SyncError::StorageFailure,
        },
{
    let bytes = note.content.encode();
    if bytes.len() > usize::MAX / 2 {
        return Err(SyncError::StorageFailure);
    }
    let state_vector = match &note.state_vector {
        Some(s) => {
            if s.len() > usize::MAX / 2 {
                return Err(SyncError::StorageFailure);
            }
            Some(encode_base64(s.as_slice()))
        },
        None => None,
    };
    Ok(NoteResponse {
        id: note.id,
        title: note.title.clone(),
        content: encode_base64(bytes.as_slice()),
        starred: note.starred,
        created_at: note.created_at,
        updated_at: note.updated_at,
        state_vector,
    })
}

/// The bytes of an optional base64 payload.
pub open spec fn decoded_opt(s: Option<Seq<char>>) -> Option<Option<Seq<u8>>> {
    match s {
        Some(t) => match base64_decoded(t) {
            Some(b) => Some(Some(b)),
            None => None,
        },
        None => Some(None),
    }
}

pub open spec fn opt_view(s: Option<String>) -> Option<Seq<char>> {
    match s {
        Some(t) => Some(t@),
        None => None,
    }
}

/// Decodes an optional base64 payload; text that is not base64 is an
/// encoding error.
fn decode_opt(s: &Option<String>) -> (r: Result<Option<Vec<u8>>, SyncError>)
    ensures
        match decoded_opt(opt_view(*s)) {
            Some(d) => r.is_ok() && match r.unwrap() {
                Some(b) => d == Some(b@),
                None => d.is_none(),
            },
            None => r == Err::<Option<Vec<u8>>, SyncError>(SyncError::InvalidEncoding),
        },
{
    match s {
        Some(t) => match decode_base64(t.as_str()) {
            Some(b) => Ok(Some(b)),
            None => Err(SyncError::InvalidEncoding),
        },
        None => Ok(None),
    }
}

/// A page of note metadata.
pub struct NotesListResponse {
    pub notes: Vec<NoteMeta>,
    pub server_time: i64,
}

/// Note metadata, as plain values.
pub struct NoteMetaView {
    pub id: u128,
    pub title: Seq<char>,
    pub starred: bool,
    pub created_at: i64,
    pub updated_at: i64,
    pub deleted_at: Option<i64>,
}

impl View for NoteMeta {
    type V = NoteMetaView;

    open spec fn view(&self) -> NoteMetaView {
        NoteMetaView {
            id: self.id,
            title: self.title@,
            starred: self.starred,
            created_at: self.created_at,
            updated_at: self.updated_at,
            deleted_at: self.deleted_at,
        }
    }
}

pub open spec fn meta_of(n: NoteView) -> NoteMetaView {
    NoteMetaView {
        id: n.id,
        title: n.title,
        starred: n.starred,
        created_at: n.created_at,
        updated_at: n.updated_at,
        deleted_at: n.deleted_at,
    }
}

pub open spec fn meta_views(ms: Seq<NoteMeta>) -> Seq<NoteMetaView> {
    ms.map_values(|m: NoteMeta| m@)
}

/// `s` holds the notes of `owner` that a listing selects, each once, the
/// most recently changed first.
pub open spec fn listing(v: DbView, owner: u128, include_deleted: bool, since: Option<i64>, s: Seq<NoteView>) -> bool {
    &&& s.to_multiset() == v.notes.filter(|n: NoteView| listed(n, owner, include_deleted, since)).to_multiset()
    &&& newest_first(s)
}

/// The metadata of the notes of `user_id` that `query` selects, the most
/// recently changed first, stamped with `now`.
pub fn list_notes(db: &Database, user_id: u128, query: &ListNotesQuery, now: i64) -> (r: NotesListResponse)
    ensures
        exists|s: Seq<NoteView>| #[trigger] listing(db@, user_id, query.include_deleted, query.since, s)
            && meta_views(r.notes@) == s.map_values(|n: NoteView| meta_of(n)),
        r.server_time == now,
{
    let notes = db.list_notes(user_id, query.include_deleted, query.since);
    let ghost all = note_views(notes@);
    let mut metas: Vec<NoteMeta> = Vec::new();
    let mut i: usize = 0;
    while i < notes.len()
        invariant
            i <= notes@.len(),
            all == note_views(notes@),
            meta_views(metas@) == all.take(i as int).map_values(|n: NoteView| meta_of(n)),
        decreases notes.len() - i,
    {
        let m = notes[i].meta();
        let ghost prev = metas@;
        metas.push(m);
        assert(meta_views(metas@) =~= all.take(i + 1).map_values(|n: NoteView| meta_of(n))) by {
            assert(meta_views(metas@) =~= meta_views(prev).push(m@));
        }
        i = i + 1;
    }
    assert(all.take(i as int) =~= all);
    assert(listing(db@, user_id, query.include_deleted, query.since, all));
    NotesListResponse { notes: metas, server_time: now }
}

/// Creates the note of `request` for `user_id` at time `now`; its content
/// must be valid base64. Creating a note that `user_id` already has returns
/// it unchanged; an identifier that another owner holds is a conflict.
pub fn create_note(db: &mut Database, user_id: u128, request: &CreateNoteRequest, now: i64) -> (r: Result<CreateNoteResponse, SyncError>)
    requires
        old(db).wf(),
    ensures
        final(db).wf(),
        base64_decoded(request.content@).is_none() ==> r == Err::<CreateNoteResponse, SyncError>(SyncError::InvalidEncoding) && final(db)@ == old(db)@,
        base64_decoded(request.content@).is_some() ==> {
            let c = base64_decoded(request.content@).unwrap();
            &&& has_id(old(db)@, request.id) && !has_note(old(db)@, request.id, user_id) ==> r == Err::<CreateNoteResponse, SyncError>(SyncError::Conflict) && final(db)@ == old(db)@
            &&& has_note(old(db)@, request.id, user_id) ==> final(db)@ == old(db)@ && (match r {
                Ok(x) => x.id == request.id && exists|i: int| 0 <= i < old(db)@.notes.len() && owned(#[trigger] old(db)@.notes[i], request.id, user_id) && x.created_at == old(db)@.notes[i].created_at,
                Err(_) => false,
            })
            &&& !has_id(old(db)@, request.id) ==> {
                &&& r.is_ok() && r.unwrap().id == request.id && r.unwrap().created_at == now
                &&& final(db)@ == (DbView { notes: old(db)@.notes.push(NoteView {
                    id: request.id,
                    user_id,
                    title: request.title@,
                    content: initial_state(c),
                    state_vector: None,
                    starred: request.starred,
                    created_at: now,
                    updated_at: now,
                    deleted_at: None,
                    version: 1,
                }), ..old(db)@ })
            }
        },
{
    let content = match decode_base64(request.content.as_str()) {
        Some(c) => c,
        None => {
            return Err(SyncError::InvalidEncoding);
        },
    };
    match db.create_note(request.id, user_id, request.title.as_str(), content.as_slice(), request.starred, now) {
        Ok(note) => Ok(CreateNoteResponse { id: note.id, created_at: note.created_at }),
        Err(e) => Err(e),
    }
}

/// The note `id` of `user_id`, shown as a response.
pub fn get_note(db: &Database, user_id: u128, id: u128) -> (r: Result<NoteResponse, SyncError>)
    requires
        db.wf(),
    ensures
        !has_note(db@, id, user_id) ==> r == Err::<NoteResponse, SyncError>(SyncError::NotFound),
        has_note(db@, id, user_id) ==> exists|i: int| 0 <= i < db@.notes.len() && owned(#[trigger] db@.notes[i], id, user_id) && {
            &&& r.is_ok() == response_fits(db@.notes[i])
            &&& match r {
                Ok(x) => x@ == response_of(db@.notes[i]),
                Err(e) => e == SyncError::StorageFailure,
            }
        },
{
    match db.get_note(id, user_id) {
        Some(note) => note_response(&note),
        None => Err(SyncError::NotFound),
    }
}

/// Applies `request` to the note `id` of `user_id` at time `now`: payloads
/// must be valid base64, then the fields given replace the note's and its
/// version is bumped. Returns the note as changed.
pub fn update_note(db: &mut Database, user_id: u128, id: u128, request: &UpdateNoteRequest, now: i64) -> (r: Result<NoteResponse, SyncError>)
    requires
        old(db).wf(),
    ensures
        final(db).wf(),
        decoded_opt(opt_view(request.content)).is_none() || decoded_opt(opt_view(request.state_vector)).is_none() ==> r == Err::<NoteResponse, SyncError>(SyncError::InvalidEncoding) && final(db)@ == old(db)@,
        decoded_opt(opt_view(request.content)).is_some() && decoded_opt(opt_view(request.state_vector)).is_some() ==> {
            let f = |n: NoteView| edited(
                n,
                opt_view(request.title),
                decoded_opt(opt_view(request.content)).unwrap(),
                decoded_opt(opt_view(request.state_vector)).unwrap(),
                request.starred,
                now,
            );
            &&& !has_note(old(db)@, id, user_id) ==> r == Err::<NoteResponse, SyncError>(SyncError::NotFound) && final(db)@ == old(db)@
            &&& has_note(old(db)@, id, user_id) ==> {
                &&& final(db)@ == with_note(old(db)@, id, user_id, f)
                &&& exists|i: int| 0 <= i < old(db)@.notes.len() && owned(#[trigger] old(db)@.notes[i], id, user_id) && {
                    &&& r.is_ok() == response_fits(f(old(db)@.notes[i]))
                    &&& match r {
                        Ok(x) => x@ == response_of(f(old(db)@.notes[i])),
                        Err(e) => e == SyncError::StorageFailure,
                    }
                }
            }
        },
{
    let content = match decode_opt(&request.content) {
        Ok(c) => c,
        Err(e) => {
            return Err(e);
        },
    };
    let state_vector = match decode_opt(&request.state_vector) {
        Ok(s) => s,
        Err(e) => {
            return Err(e);
        },
    };
    let title = match &request.title {
        Some(t) => Some(t.as_str()),
        None => None,
    };
    let content_ref = match &content {
        Some(c) => Some(c.as_slice()),
        None => None,
    };
    let vector_ref = match &state_vector {
        Some(s) => Some(s.as_slice()),
        None => None,
    };
    let ghost before = db@;
    let result = db.update_note(id, user_id, title, content_ref, vector_ref, request.starred, now);
    proof {
        let f = |n: NoteView| edited(
            n,
            opt_view(request.title),
            decoded_opt(opt_view(request.content)).unwrap(),
            decoded_opt(opt_view(request.state_vector)).unwrap(),
            request.starred,
            now,
        );
        if has_note(before, id, user_id) {
            assert(db@.notes =~= with_note(before, id, user_id, f).notes);
            assert(db@ =~= with_note(before, id, user_id, f));
        }
    }
    match result {
        Ok(note) => note_response(&note),
        Err(e) => Err(e),
    }
}

/// Moves the note `id` of `user_id` to the trash at time `now`; returns when.
pub fn delete_note(db: &mut Database, user_id: u128, id: u128, now: i64) -> (r: Result<i64, SyncError>)
    requires
        old(db).wf(),
    ensures
        final(db).wf(),
        !has_note(old(db)@, id, user_id) ==> r == Err::<i64, SyncError>(SyncError::NotFound) && final(db)@ == old(db)@,
        has_note(old(db)@, id, user_id) ==> r == Ok::<i64, SyncError>(now) && final(db)@ == with_note(old(db)@, id, user_id, |n: NoteView| trashed(n, now)),
{
    match db.soft_delete_note(id, user_id, now) {
        Ok(note) => {
            let t = match note.deleted_at {
                Some(t) => t,
                None => now,
            };
            Ok(t)
        },
        Err(e) => Err(e),
    }
}

/// Takes the note `id` of `user_id` out of the trash at time `now`; returns
/// when.
pub fn restore_note(db: &mut Database, user_id: u128, id: u128, now: i64) -> (r: Result<i64, SyncError>)
    requires
        old(db).wf(),
    ensures
        final(db).wf(),
        !has_note(old(db)@, id, user_id) ==> r == Err::<i64, SyncError>(SyncError::NotFound) && final(db)@ == old(db)@,
        has_note(old(db)@, id, user_id) ==> r == Ok::<i64, SyncError>(now) && final(db)@ == with_note(old(db)@, id, user_id, |n: NoteView| untrashed(n, now)),
{
    match db.restore_note(id, user_id, now) {
        Ok(note) => Ok(note.updated_at),
        Err(e) => Err(e),
    }
}

/// Destroys the note `id` of `user_id` and its log entries.
pub fn permanent_delete(db: &mut Database, user_id: u128, id: u128) -> (r: Result<(), SyncError>)
    requires
        old(db).wf(),
    ensures
        final(db).wf(),
        !has_note(old(db)@, id, user_id) ==> r == Err::<(), SyncError>(SyncError::NotFound) && final(db)@ == old(db)@,
        has_note(old(db)@, id, user_id) ==> r.is_ok() && !has_id(final(db)@, id),
{
    let rows = db.permanent_delete_note(id, user_id);
    if rows == 0 {
        return Err(SyncError::NotFound);
    }
    proof {
        if has_id(db@, id) {
            let k = choose|k: int| 0 <= k < db@.notes.len() && (#[trigger] db@.notes[k]).id == id;
            broadcast use vstd::seq_lib::group_filter_ensures;
            assert(db@.notes.contains(db@.notes[k]));
        }
    }
    Ok(())
}

} // verus!
