//! Plain request and response types of the service, and user settings.
use vstd::prelude::*;

verus! {

/// What an access token asserts: its user, when it expires, when it was
/// issued (seconds since the Unix epoch).
pub struct Claims {
    pub sub: String,
    pub exp: u64,
    pub iat: u64,
}

/// A sign-in with an authorization code.
pub struct GoogleAuthRequest {
    pub code: String,
    pub redirect_uri: String,
}

/// The public part of a user.
pub struct UserInfo {
    pub id: String,
    pub email: String,
    pub name: Option<String>,
    pub picture: Option<String>,
}

/// The tokens handed out on sign-in or refresh.
pub struct AuthResponse {
    pub access_token: String,
    pub refresh_token: String,
    pub expires_in: u64,
    pub user: UserInfo,
}

/// A refresh or sign-out with a refresh token.
pub struct RefreshRequest {
    pub refresh_token: String,
}

/// The filters of a note listing.
pub struct ListNotesQuery {
    pub include_deleted: bool,
    pub since: Option<i64>,
}

/// A note to create; its content is in base64.
pub struct CreateNoteRequest {
    pub id: u128,
    pub title: String,
    pub content: String,
    pub starred: bool,
}

/// The note created.
pub struct CreateNoteResponse {
    pub id: u128,
    pub created_at: i64,
}

/// A note as the service returns it; content and state vector in base64.
pub struct NoteResponse {
    pub id: u128,
    pub title: String,
    pub content: String,
    pub starred: bool,
    pub created_at: i64,
    pub updated_at: i64,
    pub state_vector: Option<String>,
}

/// Changes to a note; the fields given replace the note's, content and state
/// vector in base64.
pub struct UpdateNoteRequest {
    pub title: Option<String>,
    pub content: Option<String>,
    pub starred: Option<bool>,
    pub state_vector: Option<String>,
}

/// What the desktop application reports of itself.
pub struct AppInfo {
    pub version: String,
    pub data_dir: String,
    pub environment: String,
}

/// The editor settings of a user.
pub struct UserSettings {
    pub font_size: i32,
    pub sidebar_width: i32,
}

/// The font size of a user who has not chosen one.
pub fn default_font_size() -> (r: i32)
    ensures
        r == 16,
{
    16
}

/// The sidebar width of a user who has not chosen one.
pub fn default_sidebar_width() -> (r: i32)
    ensures
        r == 280,
{
    280
}

impl Default for UserSettings {
    fn default() -> (r: UserSettings)
        ensures
            r.font_size == 16,
            r.sidebar_width == 280,
    {
        UserSettings { font_size: default_font_size(), sidebar_width: default_sidebar_width() }
    }
}

} // verus!
