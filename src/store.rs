//! The note registry and the update log, held together in one store.
//!
//! A note is found by its identifier and its owner together: a note of
//! another owner cannot be told apart from one that does not exist. Every
//! delta pushed for a note is appended to the update log under a sequence
//! number that is strictly greater than all earlier ones, and folded into the
//! note's content by the merge of the `merge` module.
use vstd::prelude::*;
use crate::merge::{copy_bytes, merged, initial_state, strictly_sorted, Document};

verus! {

/// Why a store or sync operation did not do its work.
#[derive(Debug, Clone, Copy, PartialEq, Eq, Structural)]
pub enum SyncError {
    /// No note with this identifier belongs to the caller.
    NotFound,
    /// The identifier belongs to a note of another owner.
    Conflict,
    /// A payload is not valid base64 or not a valid identifier.
    InvalidEncoding,
    /// The store cannot hold or hand out what was asked (the sequence
    /// numbers are used up, or a payload is too large to encode).
    StorageFailure,
}

/// A note as the registry holds it.
pub struct Note {
    pub id: u128,
    pub user_id: u128,
    pub title: String,
    pub content: Document,
    pub state_vector: Option<Vec<u8>>,
    pub starred: bool,
    pub created_at: i64,
    pub updated_at: i64,
    pub deleted_at: Option<i64>,
    pub version: u64,
}

/// What a note holds, as plain values.
pub struct NoteView {
    pub id: u128,
    pub user_id: u128,
    pub title: Seq<char>,
    pub content: Seq<Seq<u8>>,
    pub state_vector: Option<Seq<u8>>,
    pub starred: bool,
    pub created_at: i64,
    pub updated_at: i64,
    pub deleted_at: Option<i64>,
    pub version: u64,
}

pub open spec fn opt_bytes_view(o: Option<Vec<u8>>) -> Option<Seq<u8>> {
    match o {
        Some(v) => Some(v@),
        None => None,
    }
}

impl View for Note {
    type V = NoteView;

    open spec fn view(&self) -> NoteView {
        NoteView {
            id: self.id,
            user_id: self.user_id,
            title: self.title@,
            content: self.content@,
            state_vector: opt_bytes_view(self.state_vector),
            starred: self.starred,
            created_at: self.created_at,
            updated_at: self.updated_at,
            deleted_at: self.deleted_at,
            version: self.version,
        }
    }
}

/// A copy of optional bytes.
fn copy_opt_bytes(o: &Option<Vec<u8>>) -> (r: Option<Vec<u8>>)
    ensures
        opt_bytes_view(r) == opt_bytes_view(*o),
{
    match o {
        Some(v) => Some(copy_bytes(v.as_slice())),
        None => None,
    }
}

impl Note {
    /// A copy of the note.
    pub fn duplicate(&self) -> (r: Note)
        ensures
            r@ == self@,
    {
        Note {
            id: self.id,
            user_id: self.user_id,
            title: self.title.clone(),
            content: self.content.duplicate(),
            state_vector: copy_opt_bytes(&self.state_vector),
            starred: self.starred,
            created_at: self.created_at,
            updated_at: self.updated_at,
            deleted_at: self.deleted_at,
            version: self.version,
        }
    }

    /// The note's metadata, without its content.
    pub fn meta(&self) -> (r: NoteMeta)
        ensures
            r.id == self.id,
            r.title@ == self.title@,
            r.starred == self.starred,
            r.created_at == self.created_at,
            r.updated_at == self.updated_at,
            r.deleted_at == self.deleted_at,
    {
        NoteMeta {
            id: self.id,
            title: self.title.clone(),
            starred: self.starred,
            created_at: self.created_at,
            updated_at: self.updated_at,
            deleted_at: self.deleted_at,
        }
    }
}

/// The metadata of a note, as listings show it.
pub struct NoteMeta {
    pub id: u128,
    pub title: String,
    pub starred: bool,
    pub created_at: i64,
    pub updated_at: i64,
    pub deleted_at: Option<i64>,
}

/// One entry of the update log.
pub struct SyncUpdate {
    pub id: u64,
    pub note_id: u128,
    pub update_data: Vec<u8>,
    pub client_id: Option<String>,
    pub created_at: i64,
}

/// What a log entry holds, as plain values.
pub struct UpdateView {
    pub id: u64,
    pub note_id: u128,
    pub data: Seq<u8>,
    pub client_id: Option<Seq<char>>,
    pub created_at: i64,
}

pub open spec fn opt_string_view(o: Option<String>) -> Option<Seq<char>> {
    match o {
        Some(s) => Some(s@),
        None => None,
    }
}

impl View for SyncUpdate {
    type V = UpdateView;

    open spec fn view(&self) -> UpdateView {
        UpdateView {
            id: self.id,
            note_id: self.note_id,
            data: self.update_data@,
            client_id: opt_string_view(self.client_id),
            created_at: self.created_at,
        }
    }
}

impl SyncUpdate {
    /// A copy of the entry.
    pub fn duplicate(&self) -> (r: SyncUpdate)
        ensures
            r@ == self@,
    {
        let client_id = match &self.client_id {
            Some(c) => Some(c.clone()),
            None => None,
        };
        SyncUpdate {
            id: self.id,
            note_id: self.note_id,
            update_data: copy_bytes(self.update_data.as_slice()),
            client_id,
            created_at: self.created_at,
        }
    }
}

/// An account.
pub struct User {
    pub id: u128,
    pub email: String,
    pub name: Option<String>,
    pub picture_url: Option<String>,
    pub google_id: Option<String>,
    /// The user's settings, as JSON text.
    pub settings: String,
    pub created_at: i64,
    pub updated_at: i64,
}

/// An account, as plain values.
pub struct UserView {
    pub id: u128,
    pub email: Seq<char>,
    pub name: Option<Seq<char>>,
    pub picture_url: Option<Seq<char>>,
    pub google_id: Option<Seq<char>>,
    pub settings: Seq<char>,
    pub created_at: i64,
    pub updated_at: i64,
}

impl View for User {
    type V = UserView;

    open spec fn view(&self) -> UserView {
        UserView {
            id: self.id,
            email: self.email@,
            name: opt_string_view(self.name),
            picture_url: opt_string_view(self.picture_url),
            google_id: opt_string_view(self.google_id),
            settings: self.settings@,
            created_at: self.created_at,
            updated_at: self.updated_at,
        }
    }
}

/// A copy of an optional text.
fn copy_opt_string(o: &Option<String>) -> (r: Option<String>)
    ensures
        opt_string_view(r) == opt_string_view(*o),
{
    match o {
        Some(s) => Some(s.clone()),
        None => None,
    }
}

/// An owned optional text from a borrowed one.
fn owned_opt(o: Option<&str>) -> (r: Option<String>)
    ensures
        opt_string_view(r) == opt_str_view(o),
{
    match o {
        Some(s) => Some(s.to_owned()),
        None => None,
    }
}

pub open spec fn opt_str_view(o: Option<&str>) -> Option<Seq<char>> {
    match o {
        Some(s) => Some(s@),
        None => None,
    }
}

impl User {
    /// A copy of the account.
    pub fn duplicate(&self) -> (r: User)
        ensures
            r@ == self@,
    {
        User {
            id: self.id,
            email: self.email.clone(),
            name: copy_opt_string(&self.name),
            picture_url: copy_opt_string(&self.picture_url),
            google_id: copy_opt_string(&self.google_id),
            settings: self.settings.clone(),
            created_at: self.created_at,
            updated_at: self.updated_at,
        }
    }
}

/// A refresh token, stored by its digest.
pub struct RefreshToken {
    pub id: u128,
    pub user_id: u128,
    pub token_hash: String,
    /// What the client said of its device, as JSON text.
    pub device_info: Option<String>,
    pub expires_at: i64,
    pub created_at: i64,
}

/// A refresh token, as plain values.
pub struct TokenView {
    pub id: u128,
    pub user_id: u128,
    pub token_hash: Seq<char>,
    pub device_info: Option<Seq<char>>,
    pub expires_at: i64,
    pub created_at: i64,
}

impl View for RefreshToken {
    type V = TokenView;

    open spec fn view(&self) -> TokenView {
        TokenView {
            id: self.id,
            user_id: self.user_id,
            token_hash: self.token_hash@,
            device_info: opt_string_view(self.device_info),
            expires_at: self.expires_at,
            created_at: self.created_at,
        }
    }
}

impl RefreshToken {
    /// A copy of the token.
    pub fn duplicate(&self) -> (r: RefreshToken)
        ensures
            r@ == self@,
    {
        RefreshToken {
            id: self.id,
            user_id: self.user_id,
            token_hash: self.token_hash.clone(),
            device_info: copy_opt_string(&self.device_info),
            expires_at: self.expires_at,
            created_at: self.created_at,
        }
    }
}

pub open spec fn user_views(vs: Seq<User>) -> Seq<UserView> {
    vs.map_values(|u: User| u@)
}

pub open spec fn token_views(vs: Seq<RefreshToken>) -> Seq<TokenView> {
    vs.map_values(|t: RefreshToken| t@)
}

/// `r` is the first account that `p` picks, or none when `p` picks none.
pub open spec fn first_user(users: Seq<UserView>, p: spec_fn(UserView) -> bool, r: Option<UserView>) -> bool {
    match r {
        Some(u) => exists|i: int| 0 <= i < users.len() && #[trigger] users[i] == u && p(u)
            && forall|j: int| 0 <= j < i ==> !p(#[trigger] users[j]),
        None => forall|j: int| 0 <= j < users.len() ==> !p(#[trigger] users[j]),
    }
}

pub open spec fn opt_user_view(o: Option<User>) -> Option<UserView> {
    match o {
        Some(u) => Some(u@),
        None => None,
    }
}

pub open spec fn opt_token_view(o: Option<RefreshToken>) -> Option<TokenView> {
    match o {
        Some(t) => Some(t@),
        None => None,
    }
}

/// The store with every account `id` replaced by `f` of it.
pub open spec fn with_user(v: DbView, id: u128, f: spec_fn(UserView) -> UserView) -> DbView {
    DbView { users: v.users.map_values(|u: UserView| if u.id == id { f(u) } else { u }), ..v }
}

/// The store holds the account `id`.
pub open spec fn has_user(v: DbView, id: u128) -> bool {
    exists|i: int| 0 <= i < v.users.len() && (#[trigger] v.users[i]).id == id
}

/// The store holds an account with address `email`.
pub open spec fn has_email(v: DbView, email: Seq<char>) -> bool {
    exists|i: int| 0 <= i < v.users.len() && (#[trigger] v.users[i]).email == email
}

/// The account `u` is the one looked for: by identifier when one is given,
/// else by address, else by Google account.
pub open spec fn user_matches(u: UserView, id: Option<u128>, email: Option<&str>, google_id: Option<&str>) -> bool {
    match id {
        Some(x) => u.id == x,
        None => match email {
            Some(e) => u.email == e@,
            None => match google_id {
                Some(g) => u.google_id == Some(g@),
                None => false,
            },
        },
    }
}

/// The token `t` has digest `hash` and expires after `now`.
pub open spec fn live_token(t: TokenView, hash: Seq<char>, now: i64) -> bool {
    t.token_hash == hash && t.expires_at > now
}

/// The token `t` is the one to drop: by digest when one is given, else by
/// account.
pub open spec fn token_matches(t: TokenView, hash: Option<&str>, user_id: Option<u128>) -> bool {
    match hash {
        Some(h) => t.token_hash == h@,
        None => match user_id {
            Some(u) => t.user_id == u,
            None => false,
        },
    }
}

/// The whole store, as plain values.
pub struct DbView {
    pub notes: Seq<NoteView>,
    pub log: Seq<UpdateView>,
    pub next_update_id: u64,
    pub retained_from: i64,
    pub users: Seq<UserView>,
    pub tokens: Seq<TokenView>,
}

/// The note `n` is the one with identifier `id` owned by `owner`.
pub open spec fn owned(n: NoteView, id: u128, owner: u128) -> bool {
    n.id == id && n.user_id == owner
}

/// The store holds a note `id` of `owner`.
pub open spec fn has_note(v: DbView, id: u128, owner: u128) -> bool {
    exists|i: int| 0 <= i < v.notes.len() && owned(#[trigger] v.notes[i], id, owner)
}

/// The store holds a note `id`, of any owner.
pub open spec fn has_id(v: DbView, id: u128) -> bool {
    exists|i: int| 0 <= i < v.notes.len() && (#[trigger] v.notes[i]).id == id
}

/// The store's invariant: note identifiers are unique, every content is a
/// sorted state, sequence numbers increase along the log and stay below the
/// next one to hand out, and account identifiers are unique.
pub open spec fn wf_view(v: DbView) -> bool {
    &&& forall|i: int, j: int|
        0 <= i < j < v.notes.len() ==> (#[trigger] v.notes[i]).id != (#[trigger] v.notes[j]).id
    &&& forall|i: int| 0 <= i < v.notes.len() ==> strictly_sorted((#[trigger] v.notes[i]).content)
    &&& forall|i: int, j: int|
        0 <= i < j < v.log.len() ==> (#[trigger] v.log[i]).id < (#[trigger] v.log[j]).id
    &&& forall|i: int| 0 <= i < v.log.len() ==> (#[trigger] v.log[i]).id < v.next_update_id
    &&& forall|i: int, j: int|
        0 <= i < j < v.users.len() ==> (#[trigger] v.users[i]).id != (#[trigger] v.users[j]).id
}

/// A version number after one more change; it stays at the largest value once
/// there.
pub open spec fn bumped(version: u64) -> u64 {
    if version < u64::MAX {
        (version + 1) as u64
    } else {
        version
    }
}

/// The store with the note `id` of `owner` replaced by `f` of it.
pub open spec fn with_note(v: DbView, id: u128, owner: u128, f: spec_fn(NoteView) -> NoteView) -> DbView {
    DbView {
        notes: v.notes.map_values(|n: NoteView| if owned(n, id, owner) { f(n) } else { n }),
        ..v
    }
}

/// A note after `delta` is merged into it at time `now`.
pub open spec fn delta_applied(n: NoteView, delta: Seq<u8>, now: i64) -> NoteView {
    NoteView { content: merged(n.content, delta), version: bumped(n.version), updated_at: now, ..n }
}

/// A note moved to the trash at time `now`.
pub open spec fn trashed(n: NoteView, now: i64) -> NoteView {
    NoteView { deleted_at: Some(now), updated_at: now, version: bumped(n.version), ..n }
}

/// A note taken out of the trash at time `now`.
pub open spec fn untrashed(n: NoteView, now: i64) -> NoteView {
    NoteView { deleted_at: None, updated_at: now, version: bumped(n.version), ..n }
}

/// A note whose metadata (and, when given, whole content) is set at time `now`;
/// absent fields keep their value.
pub open spec fn edited(
    n: NoteView,
    title: Option<Seq<char>>,
    content: Option<Seq<u8>>,
    state_vector: Option<Seq<u8>>,
    starred: Option<bool>,
    now: i64,
) -> NoteView {
    NoteView {
        title: match title {
            Some(t) => t,
            None => n.title,
        },
        content: match content {
            Some(c) => initial_state(c),
            None => n.content,
        },
        state_vector: match state_vector {
            Some(s) => Some(s),
            None => n.state_vector,
        },
        starred: match starred {
            Some(s) => s,
            None => n.starred,
        },
        updated_at: now,
        version: bumped(n.version),
        ..n
    }
}

/// The log entry appended for `data` on note `note_id`.
pub open spec fn appended(v: DbView, note_id: u128, data: Seq<u8>, client_id: Option<Seq<char>>, now: i64) -> DbView {
    DbView {
        log: v.log.push(
            UpdateView { id: v.next_update_id, note_id, data, client_id, created_at: now },
        ),
        next_update_id: (v.next_update_id + 1) as u64,
        ..v
    }
}

/// A note belongs in a listing of `owner`'s notes.
pub open spec fn listed(n: NoteView, owner: u128, include_deleted: bool, since: Option<i64>) -> bool {
    &&& n.user_id == owner
    &&& (include_deleted || n.deleted_at.is_none())
    &&& match since {
        Some(t) => n.updated_at > t,
        None => true,
    }
}

/// The deltas of note `note_id` received after `since`, in log order, each
/// with its sequence number.
pub open spec fn updates_since(log: Seq<UpdateView>, note_id: u128, since: i64) -> Seq<(u64, Seq<u8>)> {
    log.filter_map(
        |e: UpdateView|
            if e.note_id == note_id && e.created_at > since {
                Some((e.id, e.data))
            } else {
                None
            },
    )
}

pub open spec fn pair_views(vs: Seq<(u64, Vec<u8>)>) -> Seq<(u64, Seq<u8>)> {
    vs.map_values(|p: (u64, Vec<u8>)| (p.0, p.1@))
}

pub open spec fn note_views(vs: Seq<Note>) -> Seq<NoteView> {
    vs.map_values(|n: Note| n@)
}

pub open spec fn update_views(vs: Seq<SyncUpdate>) -> Seq<UpdateView> {
    vs.map_values(|e: SyncUpdate| e@)
}

/// The notes and the update log.
pub struct Database {
    notes: Vec<Note>,
    updates: Vec<SyncUpdate>,
    next_update_id: u64,
    retained_from: i64,
    users: Vec<User>,
    tokens: Vec<RefreshToken>,
}

impl View for Database {
    type V = DbView;

    closed spec fn view(&self) -> DbView {
        DbView {
            notes: note_views(self.notes@),
            log: update_views(self.updates@),
            next_update_id: self.next_update_id,
            retained_from: self.retained_from,
            users: user_views(self.users@),
            tokens: token_views(self.tokens@),
        }
    }
}

impl Database {
    pub open spec fn wf(&self) -> bool {
        wf_view(self@)
    }

    /// An empty store: no notes, no log, nothing pruned.
    pub fn new() -> (r: Database)
        ensures
            r.wf(),
            r@.notes == Seq::<NoteView>::empty(),
            r@.log == Seq::<UpdateView>::empty(),
            r@.next_update_id == 1,
            r@.retained_from == i64::MIN,
            r@.users == Seq::<UserView>::empty(),
            r@.tokens == Seq::<TokenView>::empty(),
    {
        let r = Database {
            notes: Vec::new(),
            updates: Vec::new(),
            next_update_id: 1,
            retained_from: i64::MIN,
            users: Vec::new(),
            tokens: Vec::new(),
        };
        assert(r@.notes =~= Seq::<NoteView>::empty());
        assert(r@.log =~= Seq::<UpdateView>::empty());
        assert(r@.users =~= Seq::<UserView>::empty());
        assert(r@.tokens =~= Seq::<TokenView>::empty());
        r
    }

    /// The next sequence number that the log will hand out.
    pub fn next_update_id(&self) -> (r: u64)
        ensures
            r == self@.next_update_id,
    {
        self.next_update_id
    }

    /// How many notes the store holds, of all owners.
    pub fn note_count(&self) -> (r: usize)
        ensures
            r == self@.notes.len(),
    {
        self.notes.len()
    }

    /// The note at position `i` of the store.
    pub fn note_at(&self, i: usize) -> (r: &Note)
        requires
            i < self@.notes.len(),
        ensures
            r@ == self@.notes[i as int],
    {
        &self.notes[i]
    }

    /// The latest cut of the log: entries received before it may be gone.
    pub fn retained_from(&self) -> (r: i64)
        ensures
            r == self@.retained_from,
    {
        self.retained_from
    }

    /// Where the note `id` of `owner` stands in the store, if it is there.
    fn find(&self, id: u128, owner: u128) -> (r: Option<usize>)
        requires
            self.wf(),
        ensures
            match r {
                Some(i) => i < self@.notes.len() && owned(self@.notes[i as int], id, owner),
                None => !has_note(self@, id, owner),
            },
    {
        let mut i: usize = 0;
        while i < self.notes.len()
            invariant
                i <= self.notes@.len(),
                self@.notes.len() == self.notes@.len(),
                forall|k: int| 0 <= k < i ==> !owned(#[trigger] self@.notes[k], id, owner),
            decreases self.notes.len() - i,
        {
            if self.notes[i].id == id && self.notes[i].user_id == owner {
                return Some(i);
            }
            i = i + 1;
        }
        None
    }

    /// Where the note `id` stands in the store, whoever owns it.
    fn find_id(&self, id: u128) -> (r: Option<usize>)
        ensures
            match r {
                Some(i) => i < self@.notes.len() && self@.notes[i as int].id == id,
                None => !has_id(self@, id),
            },
    {
        let mut i: usize = 0;
        while i < self.notes.len()
            invariant
                i <= self.notes@.len(),
                self@.notes.len() == self.notes@.len(),
                forall|k: int| 0 <= k < i ==> (#[trigger] self@.notes[k]).id != id,
            decreases self.notes.len() - i,
        {
            if self.notes[i].id == id {
                return Some(i);
            }
            i = i + 1;
        }
        None
    }

    /// Replaces the note at `i`, which stays the note `id` of `owner`.
    fn replace_note(&mut self, i: usize, note: Note, id: u128, owner: u128, Ghost(f): Ghost<spec_fn(NoteView) -> NoteView>)
        requires
            old(self).wf(),
            i < old(self)@.notes.len(),
            owned(old(self)@.notes[i as int], id, owner),
            note@ == f(old(self)@.notes[i as int]),
            owned(note@, id, owner),
            strictly_sorted(note@.content),
        ensures
            final(self).wf(),
            final(self)@ == with_note(old(self)@, id, owner, f),
    {
        let ghost before = self@;
        self.notes.set(i, note);
        assert(self@.notes =~= with_note(before, id, owner, f).notes) by {
            assert forall|k: int| 0 <= k < before.notes.len() implies self@.notes[k]
                == with_note(before, id, owner, f).notes[k] by {
                if k != i {
                    assert(!owned(before.notes[k], id, owner));
                }
            }
        }
        assert(self@ =~= with_note(before, id, owner, f));
    }

    /// The note `id` of `owner`, if the store holds it.
    pub fn get_note(&self, id: u128, user_id: u128) -> (r: Option<Note>)
        requires
            self.wf(),
        ensures
            match r {
                Some(n) => exists|i: int|
                    0 <= i < self@.notes.len() && #[trigger] self@.notes[i] == n@ && owned(n@, id, user_id),
                None => !has_note(self@, id, user_id),
            },
    {
        match self.find(id, user_id) {
            Some(i) => Some(self.notes[i].duplicate()),
            None => None,
        }
    }

    /// Creates the note `id` of `user_id` at time `now`. Creating a note that
    /// the same owner already has changes nothing and returns it; an
    /// identifier that another owner holds is a conflict.
    pub fn create_note(
        &mut self,
        id: u128,
        user_id: u128,
        title: &str,
        content: &[u8],
        starred: bool,
        now: i64,
    ) -> (r: Result<Note, SyncError>)
        requires
            old(self).wf(),
        ensures
            final(self).wf(),
            has_id(old(self)@, id) && !has_note(old(self)@, id, user_id) ==> r == Err::<Note, SyncError>(SyncError::Conflict) && final(self)@ == old(self)@,
            has_note(old(self)@, id, user_id) ==> final(self)@ == old(self)@ && (match r {
                Ok(n) => exists|i: int| 0 <= i < old(self)@.notes.len() && #[trigger] old(self)@.notes[i] == n@ && owned(n@, id, user_id),
                Err(_) => false,
            }),
            !has_id(old(self)@, id) ==> {
                let created = NoteView {
                    id,
                    user_id,
                    title: title@,
                    content: initial_state(content@),
                    state_vector: None,
                    starred,
                    created_at: now,
                    updated_at: now,
                    deleted_at: None,
                    version: 1,
                };
                &&& r.is_ok() && r.unwrap()@ == created
                &&& final(self)@ == DbView { notes: old(self)@.notes.push(created), ..old(self)@ }
            },
    {
        match self.find_id(id) {
            Some(i) => {
                if self.notes[i].user_id == user_id {
                    Ok(self.notes[i].duplicate())
                } else {
                    proof {
                        assert forall|k: int| 0 <= k < self@.notes.len() implies !owned(#[trigger] self@.notes[k], id, user_id) by {
                            if k != i {
                                assert(self@.notes[k].id != self@.notes[i as int].id);
                            }
                        }
                    }
                    Err(SyncError::Conflict)
                }
            },
            None => {
                let note = Note {
                    id,
                    user_id,
                    title: title.to_owned(),
                    content: Document::from_content(content),
                    state_vector: None,
                    starred,
                    created_at: now,
                    updated_at: now,
                    deleted_at: None,
                    version: 1,
                };
                let ghost before = self@;
                let out = note.duplicate();
                self.notes.push(note);
                assert(self@.notes =~= before.notes.push(out@));
                assert(self@ =~= DbView { notes: before.notes.push(out@), ..before });
                Ok(out)
            },
        }
    }

    /// Sets the metadata of the note `id` of `user_id` at time `now`, and its
    /// whole content when `content` is given; fields not given keep their
    /// value. The version is bumped.
    pub fn update_note(
        &mut self,
        id: u128,
        user_id: u128,
        title: Option<&str>,
        content: Option<&[u8]>,
        state_vector: Option<&[u8]>,
        starred: Option<bool>,
        now: i64,
    ) -> (r: Result<Note, SyncError>)
        requires
            old(self).wf(),
        ensures
            final(self).wf(),
            !has_note(old(self)@, id, user_id) ==> r == Err::<Note, SyncError>(SyncError::NotFound) && final(self)@ == old(self)@,
            has_note(old(self)@, id, user_id) ==> {
                let f = |n: NoteView| edited(
                    n,
                    match title { Some(t) => Some(t@), None => None },
                    match content { Some(c) => Some(c@), None => None },
                    match state_vector { Some(s) => Some(s@), None => None },
                    starred,
                    now,
                );
                &&& final(self)@ == with_note(old(self)@, id, user_id, f)
                &&& match r {
                    Ok(n) => exists|i: int| 0 <= i < old(self)@.notes.len() && owned(#[trigger] old(self)@.notes[i], id, user_id) && n@ == f(old(self)@.notes[i]),
                    Err(_) => false,
                }
            },
    {
        let i = match self.find(id, user_id) {
            Some(i) => i,
            None => {
                return Err(SyncError::NotFound);
            },
        };
        let ghost f = |n: NoteView| edited(
            n,
            match title { Some(t) => Some(t@), None => None },
            match content { Some(c) => Some(c@), None => None },
            match state_vector { Some(s) => Some(s@), None => None },
            starred,
            now,
        );
        let old_note = &self.notes[i];
        let new_title = match title {
            Some(t) => t.to_owned(),
            None => old_note.title.clone(),
        };
        let new_content = match content {
            Some(c) => Document::from_content(c),
            None => old_note.content.duplicate(),
        };
        let new_vector = match state_vector {
            Some(s) => Some(copy_bytes(s)),
            None => copy_opt_bytes(&old_note.state_vector),
        };
        let new_starred = match starred {
            Some(s) => s,
            None => old_note.starred,
        };
        let version = if old_note.version < u64::MAX { old_note.version + 1 } else { old_note.version };
        let note = Note {
            id: old_note.id,
            user_id: old_note.user_id,
            title: new_title,
            content: new_content,
            state_vector: new_vector,
            starred: new_starred,
            created_at: old_note.created_at,
            updated_at: now,
            deleted_at: old_note.deleted_at,
            version,
        };
        let out = note.duplicate();
        proof {
            assert(note@ == f(self@.notes[i as int]));
        }
        self.replace_note(i, note, id, user_id, Ghost(f));
        Ok(out)
    }

    /// Merges `delta` into the content of the note `id` of `user_id` at time
    /// `now`, and bumps its version.
    pub fn apply_delta(&mut self, id: u128, user_id: u128, delta: &[u8], now: i64) -> (r: Result<Note, SyncError>)
        requires
            old(self).wf(),
        ensures
            final(self).wf(),
            !has_note(old(self)@, id, user_id) ==> r == Err::<Note, SyncError>(SyncError::NotFound) && final(self)@ == old(self)@,
            has_note(old(self)@, id, user_id) ==> {
                &&& final(self)@ == with_note(old(self)@, id, user_id, |n: NoteView| delta_applied(n, delta@, now))
                &&& match r {
                    Ok(n) => exists|i: int| 0 <= i < old(self)@.notes.len() && owned(#[trigger] old(self)@.notes[i], id, user_id) && n@ == delta_applied(old(self)@.notes[i], delta@, now),
                    Err(_) => false,
                }
            },
    {
        let i = match self.find(id, user_id) {
            Some(i) => i,
            None => {
                return Err(SyncError::NotFound);
            },
        };
        let ghost f = |n: NoteView| delta_applied(n, delta@, now);
        let old_note = &self.notes[i];
        proof {
            assert(strictly_sorted(self@.notes[i as int].content));
        }
        let content = old_note.content.merge(delta);
        let version = if old_note.version < u64::MAX { old_note.version + 1 } else { old_note.version };
        let note = Note {
            id: old_note.id,
            user_id: old_note.user_id,
            title: old_note.title.clone(),
            content,
            state_vector: copy_opt_bytes(&old_note.state_vector),
            starred: old_note.starred,
            created_at: old_note.created_at,
            updated_at: now,
            deleted_at: old_note.deleted_at,
            version,
        };
        let out = note.duplicate();
        proof {
            assert(note@ == f(self@.notes[i as int]));
        }
        self.replace_note(i, note, id, user_id, Ghost(f));
        Ok(out)
    }

    /// Moves the note `id` of `user_id` to the trash at time `now`: it stays
    /// in the store as a tombstone.
    pub fn soft_delete_note(&mut self, id: u128, user_id: u128, now: i64) -> (r: Result<Note, SyncError>)
        requires
            old(self).wf(),
        ensures
            final(self).wf(),
            !has_note(old(self)@, id, user_id) ==> r == Err::<Note, SyncError>(SyncError::NotFound) && final(self)@ == old(self)@,
            has_note(old(self)@, id, user_id) ==> {
                &&& final(self)@ == with_note(old(self)@, id, user_id, |n: NoteView| trashed(n, now))
                &&& match r {
                    Ok(n) => exists|i: int| 0 <= i < old(self)@.notes.len() && owned(#[trigger] old(self)@.notes[i], id, user_id) && n@ == trashed(old(self)@.notes[i], now),
                    Err(_) => false,
                }
            },
    {
        let ghost before = self@;
        let r = self.set_trashed(id, user_id, Some(now), now);
        proof {
            if has_note(before, id, user_id) {
                assert(self@.notes =~= with_note(before, id, user_id, |n: NoteView| trashed(n, now)).notes);
                assert(self@ =~= with_note(before, id, user_id, |n: NoteView| trashed(n, now)));
            }
        }
        r
    }

    /// Takes the note `id` of `user_id` out of the trash at time `now`.
    pub fn restore_note(&mut self, id: u128, user_id: u128, now: i64) -> (r: Result<Note, SyncError>)
        requires
            old(self).wf(),
        ensures
            final(self).wf(),
            !has_note(old(self)@, id, user_id) ==> r == Err::<Note, SyncError>(SyncError::NotFound) && final(self)@ == old(self)@,
            has_note(old(self)@, id, user_id) ==> {
                &&& final(self)@ == with_note(old(self)@, id, user_id, |n: NoteView| untrashed(n, now))
                &&& match r {
                    Ok(n) => exists|i: int| 0 <= i < old(self)@.notes.len() && owned(#[trigger] old(self)@.notes[i], id, user_id) && n@ == untrashed(old(self)@.notes[i], now),
                    Err(_) => false,
                }
            },
    {
        let ghost before = self@;
        let r = self.set_trashed(id, user_id, None, now);
        proof {
            if has_note(before, id, user_id) {
                assert(self@.notes =~= with_note(before, id, user_id, |n: NoteView| untrashed(n, now)).notes);
                assert(self@ =~= with_note(before, id, user_id, |n: NoteView| untrashed(n, now)));
            }
        }
        r
    }

    fn set_trashed(&mut self, id: u128, user_id: u128, deleted_at: Option<i64>, now: i64) -> (r: Result<Note, SyncError>)
        requires
            old(self).wf(),
        ensures
            final(self).wf(),
            !has_note(old(self)@, id, user_id) ==> r == Err::<Note, SyncError>(SyncError::NotFound) && final(self)@ == old(self)@,
            has_note(old(self)@, id, user_id) ==> {
                let f = |n: NoteView| NoteView { deleted_at, updated_at: now, version: bumped(n.version), ..n };
                &&& final(self)@ == with_note(old(self)@, id, user_id, f)
                &&& match r {
                    Ok(n) => exists|i: int| 0 <= i < old(self)@.notes.len() && owned(#[trigger] old(self)@.notes[i], id, user_id) && n@ == f(old(self)@.notes[i]),
                    Err(_) => false,
                }
            },
    {
        let i = match self.find(id, user_id) {
            Some(i) => i,
            None => {
                return Err(SyncError::NotFound);
            },
        };
        let ghost f = |n: NoteView| NoteView { deleted_at, updated_at: now, version: bumped(n.version), ..n };
        let old_note = &self.notes[i];
        let version = if old_note.version < u64::MAX { old_note.version + 1 } else { old_note.version };
        let note = Note {
            id: old_note.id,
            user_id: old_note.user_id,
            title: old_note.title.clone(),
            content: old_note.content.duplicate(),
            state_vector: copy_opt_bytes(&old_note.state_vector),
            starred: old_note.starred,
            created_at: old_note.created_at,
            updated_at: now,
            deleted_at,
            version,
        };
        let out = note.duplicate();
        proof {
            assert(note@ == f(self@.notes[i as int]));
        }
        self.replace_note(i, note, id, user_id, Ghost(f));
        Ok(out)
    }

    /// Appends `update_data` for note `note_id` to the log at time `now`, under
    /// the next sequence number, which it returns.
    pub fn store_sync_update(
        &mut self,
        note_id: u128,
        update_data: &[u8],
        client_id: Option<&str>,
        now: i64,
    ) -> (r: Result<u64, SyncError>)
        requires
            old(self).wf(),
        ensures
            final(self).wf(),
            !has_id(old(self)@, note_id) ==> r == Err::<u64, SyncError>(SyncError::NotFound) && final(self)@ == old(self)@,
            has_id(old(self)@, note_id) && old(self)@.next_update_id == u64::MAX ==> r == Err::<u64, SyncError>(SyncError::StorageFailure) && final(self)@ == old(self)@,
            has_id(old(self)@, note_id) && old(self)@.next_update_id < u64::MAX ==> {
                &&& r == Ok::<u64, SyncError>(old(self)@.next_update_id)
                &&& final(self)@ == appended(
                    old(self)@,
                    note_id,
                    update_data@,
                    match client_id { Some(c) => Some(c@), None => None },
                    now,
                )
            },
    {
        if self.find_id(note_id).is_none() {
            return Err(SyncError::NotFound);
        }
        if self.next_update_id == u64::MAX {
            return Err(SyncError::StorageFailure);
        }
        let ghost before = self@;
        let id = self.next_update_id;
        let client = match client_id {
            Some(c) => Some(c.to_owned()),
            None => None,
        };
        let entry = SyncUpdate { id, note_id, update_data: copy_bytes(update_data), client_id: client, created_at: now };
        let ghost e = entry@;
        self.updates.push(entry);
        self.next_update_id = id + 1;
        assert(self@.log =~= before.log.push(e));
        assert(self@ =~= appended(before, note_id, update_data@, match client_id { Some(c) => Some(c@), None => None }, now));
        Ok(id)
    }

    /// The deltas of note `note_id` received after `since`, in log order.
    pub fn get_sync_updates_since(&self, note_id: u128, since: i64) -> (r: Vec<(u64, Vec<u8>)>)
        ensures
            pair_views(r@) == updates_since(self@.log, note_id, since),
    {
        let mut r: Vec<(u64, Vec<u8>)> = Vec::new();
        let mut i: usize = 0;
        while i < self.updates.len()
            invariant
                i <= self.updates@.len(),
                self@.log.len() == self.updates@.len(),
                pair_views(r@) == updates_since(self@.log.take(i as int), note_id, since),
            decreases self.updates.len() - i,
        {
            let e = &self.updates[i];
            if e.note_id == note_id && e.created_at > since {
                r.push((e.id, copy_bytes(e.update_data.as_slice())));
            }
            assert(self@.log.take(i + 1).drop_last() =~= self@.log.take(i as int));
            assert(pair_views(r@) =~= updates_since(self@.log.take(i + 1), note_id, since));
            i = i + 1;
        }
        assert(self@.log.take(self@.log.len() as int) =~= self@.log);
        r
    }

    /// The log entries with a sequence number above `cursor`, in log order.
    pub fn updates_after(&self, cursor: u64) -> (r: Vec<SyncUpdate>)
        ensures
            update_views(r@) == self@.log.filter(|e: UpdateView| e.id > cursor),
    {
        let mut r: Vec<SyncUpdate> = Vec::new();
        let mut i: usize = 0;
        while i < self.updates.len()
            invariant
                i <= self.updates@.len(),
                self@.log.len() == self.updates@.len(),
                update_views(r@) == self@.log.take(i as int).filter(|e: UpdateView| e.id > cursor),
            decreases self.updates.len() - i,
        {
            if self.updates[i].id > cursor {
                r.push(self.updates[i].duplicate());
            }
            assert(self@.log.take(i + 1).drop_last() =~= self@.log.take(i as int));
            reveal(Seq::filter);
            assert(update_views(r@) =~= self@.log.take(i + 1).filter(|e: UpdateView| e.id > cursor));
            i = i + 1;
        }
        assert(self@.log.take(self@.log.len() as int) =~= self@.log);
        r
    }

    /// The notes of `user_id`, tombstones only when `include_deleted`, and only
    /// those changed after `since` when it is given; in store order.
    fn select_notes(&self, user_id: u128, include_deleted: bool, since: Option<i64>) -> (r: Vec<Note>)
        ensures
            note_views(r@) == self@.notes.filter(|n: NoteView| listed(n, user_id, include_deleted, since)),
    {
        let mut r: Vec<Note> = Vec::new();
        let mut i: usize = 0;
        while i < self.notes.len()
            invariant
                i <= self.notes@.len(),
                self@.notes.len() == self.notes@.len(),
                note_views(r@) == self@.notes.take(i as int).filter(|n: NoteView| listed(n, user_id, include_deleted, since)),
            decreases self.notes.len() - i,
        {
            let n = &self.notes[i];
            let recent = match since {
                Some(t) => n.updated_at > t,
                None => true,
            };
            if n.user_id == user_id && (include_deleted || n.deleted_at.is_none()) && recent {
                r.push(n.duplicate());
            }
            assert(self@.notes.take(i + 1).drop_last() =~= self@.notes.take(i as int));
            reveal(Seq::filter);
            assert(note_views(r@) =~= self@.notes.take(i + 1).filter(|n: NoteView| listed(n, user_id, include_deleted, since)));
            i = i + 1;
        }
        assert(self@.notes.take(self@.notes.len() as int) =~= self@.notes);
        r
    }

    /// The notes of `user_id`, tombstones only when `include_deleted`, and only
    /// those changed after `since` when it is given; the most recently changed
    /// first.
    pub fn list_notes(&self, user_id: u128, include_deleted: bool, since: Option<i64>) -> (r: Vec<Note>)
        ensures
            note_views(r@).to_multiset() == self@.notes.filter(|n: NoteView| listed(n, user_id, include_deleted, since)).to_multiset(),
            newest_first(note_views(r@)),
    {
        let picked = self.select_notes(user_id, include_deleted, since);
        let ghost all = note_views(picked@);
        let mut out: Vec<Note> = Vec::new();
        assert(note_views(out@) =~= all.take(0));
        let mut k: usize = 0;
        while k < picked.len()
            invariant
                k <= picked@.len(),
                all == note_views(picked@),
                note_views(out@).to_multiset() == all.take(k as int).to_multiset(),
                newest_first(note_views(out@)),
            decreases picked.len() - k,
        {
            let x = picked[k].duplicate();
            let t = x.updated_at;
            let mut p: usize = 0;
            while p < out.len() && out[p].updated_at >= t
                invariant
                    p <= out@.len(),
                    forall|q: int| 0 <= q < p ==> (#[trigger] out@[q]).updated_at >= t,
                decreases out.len() - p,
            {
                p = p + 1;
            }
            let ghost before = note_views(out@);
            proof {
                broadcast use vstd::seq_lib::to_multiset_insert, vstd::seq_lib::to_multiset_build;
                assert(all.take(k + 1) =~= all.take(k as int).push(all[k as int]));
                assert(before.insert(p as int, x@).to_multiset() == before.to_multiset().insert(x@));
            }
            out.insert(p, x);
            proof {
                assert(note_views(out@) =~= before.insert(p as int, x@));
                let s = note_views(out@);
                assert forall|a: int, b: int| 0 <= a < b < s.len() implies (#[trigger] s[a]).updated_at >= (#[trigger] s[b]).updated_at by {
                    if a < p && b > p {
                        assert(s[a] == before[a] && s[b] == before[b - 1]);
                    } else if a < p && b == p {
                        assert(s[a] == before[a]);
                    } else if a == p {
                        assert(s[b] == before[b - 1]);
                        if (p as int) < before.len() {
                            assert(before[p as int].updated_at < t);
                            assert(before[p as int].updated_at >= before[b - 1].updated_at || b - 1 == p);
                        }
                    } else if b < p {
                        assert(s[a] == before[a] && s[b] == before[b]);
                    } else {
                        assert(s[a] == before[a - 1] && s[b] == before[b - 1]);
                    }
                }
            }
            k = k + 1;
        }
        assert(all.take(picked@.len() as int) =~= all);
        out
    }

    /// The log entries that stay: those not of `dropped` and received at or
    /// after `before`.
    fn kept_updates(&self, dropped: Option<u128>, before: i64) -> (r: Vec<SyncUpdate>)
        requires
            self.wf(),
        ensures
            update_views(r@) == self@.log.filter(|e: UpdateView| kept(e, dropped, before)),
            forall|a: int, b: int| 0 <= a < b < r@.len() ==> (#[trigger] r@[a]).id < (#[trigger] r@[b]).id,
            forall|a: int| 0 <= a < r@.len() ==> (#[trigger] r@[a]).id < self@.next_update_id,
    {
        let mut r: Vec<SyncUpdate> = Vec::new();
        let mut i: usize = 0;
        while i < self.updates.len()
            invariant
                self.wf(),
                i <= self.updates@.len(),
                self@.log.len() == self.updates@.len(),
                update_views(r@) == self@.log.take(i as int).filter(|e: UpdateView| kept(e, dropped, before)),
                forall|a: int, b: int| 0 <= a < b < r@.len() ==> (#[trigger] r@[a]).id < (#[trigger] r@[b]).id,
                forall|a: int| 0 <= a < r@.len() ==> exists|j: int| 0 <= j < i && (#[trigger] r@[a]).id == #[trigger] self@.log[j].id,
            decreases self.updates.len() - i,
        {
            let e = &self.updates[i];
            let keep = match dropped {
                Some(id) => e.note_id != id,
                None => true,
            } && e.created_at >= before;
            let ghost prev = r@;
            if keep {
                r.push(e.duplicate());
                assert forall|a: int| 0 <= a < r@.len() implies exists|j: int| 0 <= j < i + 1 && (#[trigger] r@[a]).id == #[trigger] self@.log[j].id by {
                    if a < prev.len() {
                        assert(r@[a] == prev[a]);
                    } else {
                        assert(r@[a].id == self@.log[i as int].id);
                    }
                }
                assert forall|a: int, b: int| 0 <= a < b < r@.len() implies (#[trigger] r@[a]).id < (#[trigger] r@[b]).id by {
                    if b == prev.len() {
                        assert(r@[a] == prev[a]);
                        let j = choose|j: int| 0 <= j < i && prev[a].id == #[trigger] self@.log[j].id;
                        assert(self@.log[j].id < self@.log[i as int].id);
                    } else {
                        assert(r@[a] == prev[a] && r@[b] == prev[b]);
                    }
                }
            }
            assert(self@.log.take(i + 1).drop_last() =~= self@.log.take(i as int));
            reveal(Seq::filter);
            assert(update_views(r@) =~= self@.log.take(i + 1).filter(|e: UpdateView| kept(e, dropped, before)));
            i = i + 1;
        }
        assert(self@.log.take(self@.log.len() as int) =~= self@.log);
        assert forall|a: int| 0 <= a < r@.len() implies (#[trigger] r@[a]).id < self@.next_update_id by {
            let j = choose|j: int| 0 <= j < i && r@[a].id == #[trigger] self@.log[j].id;
        }
        r
    }

    /// Destroys the note `id` of `user_id` and every log entry of it. Returns
    /// how many notes were removed: 1, or 0 when there was none.
    pub fn permanent_delete_note(&mut self, id: u128, user_id: u128) -> (r: u64)
        requires
            old(self).wf(),
        ensures
            final(self).wf(),
            !has_note(old(self)@, id, user_id) ==> r == 0 && final(self)@ == old(self)@,
            has_note(old(self)@, id, user_id) ==> r == 1 && final(self)@ == (DbView {
                notes: old(self)@.notes.filter(|n: NoteView| n.id != id),
                log: old(self)@.log.filter(|e: UpdateView| kept(e, Some(id), i64::MIN)),
                ..old(self)@
            }),
    {
        let i = match self.find(id, user_id) {
            Some(i) => i,
            None => {
                return 0;
            },
        };
        let ghost before = self@;
        let kept_log = self.kept_updates(Some(id), i64::MIN);
        self.notes.remove(i);
        self.updates = kept_log;
        proof {
            lemma_remove_unique(before.notes, i as int, id);
            assert(self@.notes =~= before.notes.remove(i as int));
            assert forall|a: int, b: int| 0 <= a < b < self@.notes.len() implies (#[trigger] self@.notes[a]).id != (#[trigger] self@.notes[b]).id by {
                let a2 = if a < i { a } else { a + 1 };
                let b2 = if b < i { b } else { b + 1 };
                assert(self@.notes[a] == before.notes[a2] && self@.notes[b] == before.notes[b2]);
            }
            assert forall|a: int| 0 <= a < self@.notes.len() implies strictly_sorted((#[trigger] self@.notes[a]).content) by {
                let a2 = if a < i { a } else { a + 1 };
                assert(self@.notes[a] == before.notes[a2]);
            }
            assert forall|a: int| 0 <= a < self@.log.len() implies (#[trigger] self@.log[a]).id < self@.next_update_id by {
                assert(self@.log[a].id == self.updates@[a].id);
            }
            assert forall|a: int, b: int| 0 <= a < b < self@.log.len() implies (#[trigger] self@.log[a]).id < (#[trigger] self@.log[b]).id by {
                assert(self@.log[a].id == self.updates@[a].id);
                assert(self@.log[b].id == self.updates@[b].id);
            }
        }
        1
    }

    /// Drops the log entries received before `before`. A pull whose baseline
    /// is earlier than the latest such cut can no longer be served from the
    /// log.
    pub fn prune_updates_before(&mut self, before: i64)
        requires
            old(self).wf(),
        ensures
            final(self).wf(),
            final(self)@ == (DbView {
                log: old(self)@.log.filter(|e: UpdateView| kept(e, None, before)),
                retained_from: if before > old(self)@.retained_from { before } else { old(self)@.retained_from },
                ..old(self)@
            }),
    {
        let kept_log = self.kept_updates(None, before);
        self.updates = kept_log;
        if before > self.retained_from {
            self.retained_from = before;
        }
        proof {
            assert forall|a: int| 0 <= a < self@.log.len() implies (#[trigger] self@.log[a]).id < self@.next_update_id by {
                assert(self@.log[a].id == self.updates@[a].id);
            }
            assert forall|a: int, b: int| 0 <= a < b < self@.log.len() implies (#[trigger] self@.log[a]).id < (#[trigger] self@.log[b]).id by {
                assert(self@.log[a].id == self.updates@[a].id);
                assert(self@.log[b].id == self.updates@[b].id);
            }
        }
    }

    /// Where the first account that the lookup picks stands.
    fn find_user_by(&self, id: Option<u128>, email: Option<&str>, google_id: Option<&str>) -> (r: Option<usize>)
        ensures
            match r {
                Some(i) => i < self@.users.len() && user_matches(self@.users[i as int], id, email, google_id)
                    && forall|j: int| 0 <= j < i ==> !user_matches(#[trigger] self@.users[j], id, email, google_id),
                None => forall|j: int| 0 <= j < self@.users.len() ==> !user_matches(#[trigger] self@.users[j], id, email, google_id),
            },
    {
        let mut i: usize = 0;
        while i < self.users.len()
            invariant
                i <= self.users@.len(),
                self@.users.len() == self.users@.len(),
                forall|j: int| 0 <= j < i ==> !user_matches(#[trigger] self@.users[j], id, email, google_id),
            decreases self.users.len() - i,
        {
            let u = &self.users[i];
            let hit = match id {
                Some(x) => u.id == x,
                None => match email {
                    Some(e) => u.email == e.to_owned(),
                    None => match google_id {
                        Some(g) => match &u.google_id {
                            Some(ug) => *ug == g.to_owned(),
                            None => false,
                        },
                        None => false,
                    },
                },
            };
            if hit {
                return Some(i);
            }
            i = i + 1;
        }
        None
    }

    /// The account `id`, if there is one.
    pub fn get_user_by_id(&self, id: u128) -> (r: Option<User>)
        ensures
            first_user(self@.users, |u: UserView| u.id == id, opt_user_view(r)),
    {
        match self.find_user_by(Some(id), None, None) {
            Some(i) => Some(self.users[i].duplicate()),
            None => None,
        }
    }

    /// The first account with address `email`, if there is one.
    pub fn get_user_by_email(&self, email: &str) -> (r: Option<User>)
        ensures
            first_user(self@.users, |u: UserView| u.email == email@, opt_user_view(r)),
    {
        match self.find_user_by(None, Some(email), None) {
            Some(i) => Some(self.users[i].duplicate()),
            None => None,
        }
    }

    /// The first account linked to the Google account `google_id`, if any.
    pub fn get_user_by_google_id(&self, google_id: &str) -> (r: Option<User>)
        ensures
            first_user(self@.users, |u: UserView| u.google_id == Some(google_id@), opt_user_view(r)),
    {
        match self.find_user_by(None, None, Some(google_id)) {
            Some(i) => Some(self.users[i].duplicate()),
            None => None,
        }
    }

    /// Creates the account `id` at time `now`, with empty settings (`{}`). An
    /// identifier or an address already taken is a conflict.
    pub fn create_user(
        &mut self,
        id: u128,
        email: &str,
        name: Option<&str>,
        picture_url: Option<&str>,
        google_id: Option<&str>,
        now: i64,
    ) -> (r: Result<User, SyncError>)
        requires
            old(self).wf(),
        ensures
            final(self).wf(),
            has_user(old(self)@, id) || has_email(old(self)@, email@) ==> r == Err::<User, SyncError>(SyncError::Conflict) && final(self)@ == old(self)@,
            !has_user(old(self)@, id) && !has_email(old(self)@, email@) ==> {
                let created = UserView {
                    id,
                    email: email@,
                    name: opt_str_view(name),
                    picture_url: opt_str_view(picture_url),
                    google_id: opt_str_view(google_id),
                    settings: "{}"@,
                    created_at: now,
                    updated_at: now,
                };
                &&& r.is_ok() && r.unwrap()@ == created
                &&& final(self)@ == DbView { users: old(self)@.users.push(created), ..old(self)@ }
            },
    {
        let by_id = self.find_user_by(Some(id), None, None);
        let by_email = self.find_user_by(None, Some(email), None);
        if by_id.is_some() || by_email.is_some() {
            proof {
                match by_id {
                    Some(i) => {
                        assert(self@.users[i as int].id == id);
                    },
                    None => {
                        let i = by_email.unwrap();
                        assert(self@.users[i as int].email == email@);
                    },
                }
            }
            return Err(SyncError::Conflict);
        }
        proof {
            assert forall|j: int| 0 <= j < self@.users.len() implies (#[trigger] self@.users[j]).id != id by {
                assert(!user_matches(self@.users[j], Some(id), None, None));
            }
            assert forall|j: int| 0 <= j < self@.users.len() implies (#[trigger] self@.users[j]).email != email@ by {
                assert(!user_matches(self@.users[j], None, Some(email), None));
            }
        }
        let user = User {
            id,
            email: email.to_owned(),
            name: owned_opt(name),
            picture_url: owned_opt(picture_url),
            google_id: owned_opt(google_id),
            settings: "{}".to_owned(),
            created_at: now,
            updated_at: now,
        };
        let ghost before = self@;
        let out = user.duplicate();
        self.users.push(user);
        assert(self@.users =~= before.users.push(out@));
        assert(self@ =~= DbView { users: before.users.push(out@), ..before });
        Ok(out)
    }

    /// Replaces the account at `i`, which is the account `id`.
    fn replace_user(&mut self, i: usize, user: User, id: u128, Ghost(f): Ghost<spec_fn(UserView) -> UserView>)
        requires
            old(self).wf(),
            i < old(self)@.users.len(),
            old(self)@.users[i as int].id == id,
            user@ == f(old(self)@.users[i as int]),
            user.id == id,
        ensures
            final(self).wf(),
            final(self)@ == with_user(old(self)@, id, f),
    {
        let ghost before = self@;
        self.users.set(i, user);
        assert(self@.users =~= with_user(before, id, f).users) by {
            assert forall|k: int| 0 <= k < before.users.len() implies self@.users[k] == with_user(before, id, f).users[k] by {
                if k != i {
                    assert(before.users[k].id != before.users[i as int].id);
                }
            }
        }
        assert(self@ =~= with_user(before, id, f));
    }

    /// Sets the name and picture of the account `id` at time `now`, where
    /// given; the others keep their value.
    pub fn update_user(&mut self, id: u128, name: Option<&str>, picture_url: Option<&str>, now: i64) -> (r: Result<User, SyncError>)
        requires
            old(self).wf(),
        ensures
            final(self).wf(),
            !has_user(old(self)@, id) ==> r == Err::<User, SyncError>(SyncError::NotFound) && final(self)@ == old(self)@,
            has_user(old(self)@, id) ==> {
                let f = |u: UserView| UserView {
                    name: match opt_str_view(name) { Some(n) => Some(n), None => u.name },
                    picture_url: match opt_str_view(picture_url) { Some(p) => Some(p), None => u.picture_url },
                    updated_at: now,
                    ..u
                };
                &&& final(self)@ == with_user(old(self)@, id, f)
                &&& match r {
                    Ok(u) => exists|i: int| 0 <= i < old(self)@.users.len() && (#[trigger] old(self)@.users[i]).id == id && u@ == f(old(self)@.users[i]),
                    Err(_) => false,
                }
            },
    {
        let ghost f = |u: UserView| UserView {
            name: match opt_str_view(name) { Some(n) => Some(n), None => u.name },
            picture_url: match opt_str_view(picture_url) { Some(p) => Some(p), None => u.picture_url },
            updated_at: now,
            ..u
        };
        let i = match self.find_user_by(Some(id), None, None) {
            Some(i) => i,
            None => {
                proof {
                    assert forall|j: int| 0 <= j < self@.users.len() implies (#[trigger] self@.users[j]).id != id by {
                        assert(!user_matches(self@.users[j], Some(id), None, None));
                    }
                }
                return Err(SyncError::NotFound);
            },
        };
        let old_user = &self.users[i];
        let user = User {
            id: old_user.id,
            email: old_user.email.clone(),
            name: match name {
                Some(n) => Some(n.to_owned()),
                None => copy_opt_string(&old_user.name),
            },
            picture_url: match picture_url {
                Some(p) => Some(p.to_owned()),
                None => copy_opt_string(&old_user.picture_url),
            },
            google_id: copy_opt_string(&old_user.google_id),
            settings: old_user.settings.clone(),
            created_at: old_user.created_at,
            updated_at: now,
        };
        let out = user.duplicate();
        proof {
            assert(user@ == f(self@.users[i as int]));
        }
        self.replace_user(i, user, id, Ghost(f));
        Ok(out)
    }

    /// Sets the settings of the account `id` (JSON text) at time `now`.
    pub fn update_user_settings(&mut self, id: u128, settings: &str, now: i64) -> (r: Result<User, SyncError>)
        requires
            old(self).wf(),
        ensures
            final(self).wf(),
            !has_user(old(self)@, id) ==> r == Err::<User, SyncError>(SyncError::NotFound) && final(self)@ == old(self)@,
            has_user(old(self)@, id) ==> {
                let f = |u: UserView| UserView { settings: settings@, updated_at: now, ..u };
                &&& final(self)@ == with_user(old(self)@, id, f)
                &&& match r {
                    Ok(u) => exists|i: int| 0 <= i < old(self)@.users.len() && (#[trigger] old(self)@.users[i]).id == id && u@ == f(old(self)@.users[i]),
                    Err(_) => false,
                }
            },
    {
        let ghost f = |u: UserView| UserView { settings: settings@, updated_at: now, ..u };
        let i = match self.find_user_by(Some(id), None, None) {
            Some(i) => i,
            None => {
                proof {
                    assert forall|j: int| 0 <= j < self@.users.len() implies (#[trigger] self@.users[j]).id != id by {
                        assert(!user_matches(self@.users[j], Some(id), None, None));
                    }
                }
                return Err(SyncError::NotFound);
            },
        };
        let old_user = &self.users[i];
        let user = User {
            id: old_user.id,
            email: old_user.email.clone(),
            name: copy_opt_string(&old_user.name),
            picture_url: copy_opt_string(&old_user.picture_url),
            google_id: copy_opt_string(&old_user.google_id),
            settings: settings.to_owned(),
            created_at: old_user.created_at,
            updated_at: now,
        };
        let out = user.duplicate();
        proof {
            assert(user@ == f(self@.users[i as int]));
        }
        self.replace_user(i, user, id, Ghost(f));
        Ok(out)
    }

    /// Stores a refresh token of `user_id` by its digest, at time `now`.
    pub fn create_refresh_token(
        &mut self,
        id: u128,
        user_id: u128,
        token_hash: &str,
        device_info: Option<&str>,
        expires_at: i64,
        now: i64,
    ) -> (r: RefreshToken)
        requires
            old(self).wf(),
        ensures
            final(self).wf(),
            r@ == (TokenView {
                id,
                user_id,
                token_hash: token_hash@,
                device_info: opt_str_view(device_info),
                expires_at,
                created_at: now,
            }),
            final(self)@ == (DbView { tokens: old(self)@.tokens.push(r@), ..old(self)@ }),
    {
        let token = RefreshToken {
            id,
            user_id,
            token_hash: token_hash.to_owned(),
            device_info: owned_opt(device_info),
            expires_at,
            created_at: now,
        };
        let ghost before = self@;
        let out = token.duplicate();
        self.tokens.push(token);
        assert(self@.tokens =~= before.tokens.push(out@));
        assert(self@ =~= DbView { tokens: before.tokens.push(out@), ..before });
        out
    }

    /// The first stored token with digest `token_hash` that is still valid at
    /// time `now` (it expires after `now`).
    pub fn get_refresh_token(&self, token_hash: &str, now: i64) -> (r: Option<RefreshToken>)
        ensures
            match opt_token_view(r) {
                Some(t) => exists|i: int| 0 <= i < self@.tokens.len() && #[trigger] self@.tokens[i] == t && live_token(t, token_hash@, now)
                    && forall|j: int| 0 <= j < i ==> !live_token(#[trigger] self@.tokens[j], token_hash@, now),
                None => forall|j: int| 0 <= j < self@.tokens.len() ==> !live_token(#[trigger] self@.tokens[j], token_hash@, now),
            },
    {
        let wanted = token_hash.to_owned();
        let mut i: usize = 0;
        while i < self.tokens.len()
            invariant
                i <= self.tokens@.len(),
                self@.tokens.len() == self.tokens@.len(),
                wanted@ == token_hash@,
                forall|j: int| 0 <= j < i ==> !live_token(#[trigger] self@.tokens[j], token_hash@, now),
            decreases self.tokens.len() - i,
        {
            let t = &self.tokens[i];
            if t.token_hash == wanted && t.expires_at > now {
                let out = t.duplicate();
                assert(self@.tokens[i as int] == out@);
                return Some(out);
            }
            i = i + 1;
        }
        None
    }

    /// Removes the tokens that the digest, or else the account, picks; returns
    /// how many.
    fn drop_tokens(&mut self, hash: Option<&str>, user_id: Option<u128>) -> (r: u64)
        requires
            old(self).wf(),
        ensures
            final(self).wf(),
            final(self)@ == (DbView {
                tokens: old(self)@.tokens.filter(|t: TokenView| !token_matches(t, hash, user_id)),
                ..old(self)@
            }),
            r == old(self)@.tokens.len() - final(self)@.tokens.len(),
    {
        let ghost before = self@;
        let mut kept: Vec<RefreshToken> = Vec::new();
        let mut i: usize = 0;
        while i < self.tokens.len()
            invariant
                i <= self.tokens@.len(),
                self@ == before,
                before.tokens.len() == self.tokens@.len(),
                token_views(kept@) == before.tokens.take(i as int).filter(|t: TokenView| !token_matches(t, hash, user_id)),
                kept@.len() <= i,
            decreases self.tokens.len() - i,
        {
            let t = &self.tokens[i];
            let hit = match hash {
                Some(h) => t.token_hash == h.to_owned(),
                None => match user_id {
                    Some(u) => t.user_id == u,
                    None => false,
                },
            };
            if !hit {
                let c = t.duplicate();
                let ghost prev = kept@;
                kept.push(c);
                assert(token_views(kept@) =~= token_views(prev).push(c@));
            }
            proof {
                reveal(Seq::filter);
                assert(before.tokens.take(i + 1).drop_last() =~= before.tokens.take(i as int));
            }
            i = i + 1;
        }
        assert(before.tokens.take(i as int) =~= before.tokens);
        let removed = (self.tokens.len() - kept.len()) as u64;
        self.tokens = kept;
        assert(self@.tokens == token_views(kept@));
        assert(self@ =~= DbView {
            tokens: before.tokens.filter(|t: TokenView| !token_matches(t, hash, user_id)),
            ..before
        });
        removed
    }

    /// Removes every token with digest `token_hash`; returns how many.
    pub fn delete_refresh_token(&mut self, token_hash: &str) -> (r: u64)
        requires
            old(self).wf(),
        ensures
            final(self).wf(),
            final(self)@ == (DbView {
                tokens: old(self)@.tokens.filter(|t: TokenView| !token_matches(t, Some(token_hash), None)),
                ..old(self)@
            }),
            r == old(self)@.tokens.len() - final(self)@.tokens.len(),
    {
        self.drop_tokens(Some(token_hash), None)
    }

    /// Removes every token of the account `user_id`; returns how many.
    pub fn delete_user_refresh_tokens(&mut self, user_id: u128) -> (r: u64)
        requires
            old(self).wf(),
        ensures
            final(self).wf(),
            final(self)@ == (DbView {
                tokens: old(self)@.tokens.filter(|t: TokenView| !token_matches(t, None, Some(user_id))),
                ..old(self)@
            }),
            r == old(self)@.tokens.len() - final(self)@.tokens.len(),
    {
        self.drop_tokens(None, Some(user_id))
    }
}

/// Every note was changed no earlier than the ones after it.
pub open spec fn newest_first(s: Seq<NoteView>) -> bool {
    forall|a: int, b: int| 0 <= a < b < s.len() ==> (#[trigger] s[a]).updated_at >= (#[trigger] s[b]).updated_at
}

/// A log entry stays when it is not of `dropped` and was received at or after
/// `before`.
pub open spec fn kept(e: UpdateView, dropped: Option<u128>, before: i64) -> bool {
    &&& match dropped {
        Some(id) => e.note_id != id,
        None => true,
    }
    &&& e.created_at >= before
}

/// With unique identifiers, removing the one note `id` is keeping all the
/// others.
proof fn lemma_remove_unique(s: Seq<NoteView>, i: int, id: u128)
    requires
        0 <= i < s.len(),
        s[i].id == id,
        forall|a: int, b: int| 0 <= a < b < s.len() ==> (#[trigger] s[a]).id != (#[trigger] s[b]).id,
    ensures
        s.remove(i) == s.filter(|n: NoteView| n.id != id),
    decreases s.len(),
{
    let pred = |n: NoteView| n.id != id;
    reveal(Seq::filter);
    if i == s.len() - 1 {
        let t = s.drop_last();
        assert(t.filter(pred) =~= t) by {
            lemma_filter_all(t, pred);
        }
        assert(s.remove(i) =~= t);
    } else {
        let t = s.drop_last();
        lemma_remove_unique(t, i, id);
        assert(s.remove(i) =~= t.remove(i).push(s.last()));
        assert(s.last().id != id) by {
            assert(s[i].id != s[s.len() - 1].id);
        }
    }
}

/// Filtering by a predicate that every element meets keeps everything.
proof fn lemma_filter_all(s: Seq<NoteView>, pred: spec_fn(NoteView) -> bool)
    requires
        forall|k: int| 0 <= k < s.len() ==> pred(#[trigger] s[k]),
    ensures
        s.filter(pred) == s,
    decreases s.len(),
{
    reveal(Seq::filter);
    if s.len() > 0 {
        lemma_filter_all(s.drop_last(), pred);
        assert(s.drop_last().push(s.last()) =~= s);
    } else {
        assert(s.filter(pred) =~= s);
    }
}

} // verus!
