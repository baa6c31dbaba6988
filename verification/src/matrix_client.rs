//! The rules around the Matrix client: where sessions are kept, how a
//! homeserver address and a failed login or sync are read, how offers
//! are collected from a room's history and announced, how a file's type is
//! guessed, and what the sync loop does with each event.
use crate::codec::{sha256_hex, sha256_hex_string};
use crate::events::{FileOfferContent, FileRequestContent, EVENT_FILE_OFFER, EVENT_FILE_REQUEST};
use crate::paths::{
    extension_of, file_name_of, join_path, lemma_join_file_name, no_separator, path_extension,
    path_file_name, path_join,
};
use crate::state::{format_bytes, size_text, FileOfferData, PendingOffer, RoomSummary};
use crate::text::{
    all_ascii, ascii_lowercase, chars_of, contains_text, decimal, has_prefix, is_alphanumeric, owned, push_char, push_decimal,
    push_text, text_contains, text_starts_with, to_lowercase, unicode_alphanumeric,
    unicode_lowercase,
};
use vstd::prelude::*;

verus! {

// ---------------------------------------------------------------------
// Session files
// ---------------------------------------------------------------------

/// `c` stays as it is in a file name: alphanumeric, `-`, `_`, and `.`
/// where dots are kept.
pub open spec fn kept_in_name(c: char, keep_dot: bool) -> bool {
    unicode_alphanumeric(c) || c == '-' || c == '_' || (keep_dot && c == '.')
}

/// `s` with every character that is not kept replaced by `_`.
pub open spec fn sanitized(s: Seq<char>, keep_dot: bool) -> Seq<char> {
    Seq::new(s.len(), |i: int| if kept_in_name(s[i], keep_dot) { s[i] } else { '_' })
}

/// `s` with each leftmost, non-overlapping occurrence of `pattern`
/// (non-empty) replaced by `with`, as `str::replace` does.
pub open spec fn replaced(s: Seq<char>, pattern: Seq<char>, with: Seq<char>) -> Seq<char>
    decreases s.len(),
{
    if s.len() == 0 || pattern.len() == 0 {
        s
    } else if has_prefix(s, pattern) {
        with + replaced(s.skip(pattern.len() as int), pattern, with)
    } else {
        seq![s[0]] + replaced(s.skip(1), pattern, with)
    }
}

/// A name made safe for a file name keeps its length and each character
/// that is alphanumeric, `-` or `_` (or `.` where dots are kept), and has
/// `_` in place of every other.
pub proof fn lemma_sanitized_characters(s: Seq<char>, keep_dot: bool)
    ensures
        sanitized(s, keep_dot).len() == s.len(),
        forall|i: int|
            0 <= i < s.len() ==> #[trigger] sanitized(s, keep_dot)[i] == if unicode_alphanumeric(s[i])
                || s[i] == '-' || s[i] == '_' || (keep_dot && s[i] == '.') {
                s[i]
            } else {
                '_'
            },
{
}

/// A user name as it appears in file names.
pub open spec fn safe_username(username: Seq<char>) -> Seq<char> {
    sanitized(username, false)
}

/// A homeserver address as it appears in file names: `://` becomes `_`,
/// then every character that is not alphanumeric, `-`, `_` or `.` does.
pub open spec fn safe_host(homeserver_url: Seq<char>) -> Seq<char> {
    sanitized(replaced(homeserver_url, "://"@, "_"@), true)
}

/// The name of the session file of a user on a homeserver.
pub open spec fn session_file_name(username: Seq<char>, homeserver_url: Seq<char>) -> Seq<char> {
    "session_"@ + safe_username(username) + "_"@ + safe_host(homeserver_url) + ".json"@
}

/// The name of the store directory of a user on a homeserver.
pub open spec fn store_dir_name(username: Seq<char>, homeserver_url: Seq<char>) -> Seq<char> {
    safe_username(username) + "_"@ + safe_host(homeserver_url)
}

/// The application's data directory under the platform data directory
/// `base` (`.` where the platform has none).
pub open spec fn app_dir(base: Option<Seq<char>>) -> Seq<char> {
    path_join(
        match base {
            Some(b) => b,
            None => "."@,
        },
        "matrix-fileshare"@,
    )
}

/// Calls `dirs::data_dir`, which reads the environment; its path is handed
/// over as text. Nothing is stated of the result: it depends on the
/// platform and the environment.
#[verifier::external_body]
fn platform_data_dir() -> Option<String> {
    dirs::data_dir().map(|p| p.to_string_lossy().into_owned())
}

/// The character `c` as it appears in a file name, given whether it is
/// alphanumeric: kept where `kept_in_name` allows, else `_`.
pub fn name_char(c: char, alphanumeric: bool, keep_dot: bool) -> (r: char)
    ensures
        r == (if alphanumeric || c == '-' || c == '_' || (keep_dot && c == '.') {
            c
        } else {
            '_'
        }),
{
    if alphanumeric || c == '-' || c == '_' || (keep_dot && c == '.') {
        c
    } else {
        '_'
    }
}

/// `s` with each character that is not kept replaced by `_`.
fn sanitize(s: &str, keep_dot: bool) -> (r: String)
    ensures
        r@ == sanitized(s@, keep_dot),
        no_separator(r@),
{
    let cs = chars_of(s);
    let mut out = String::new();
    let n = cs.len();
    for i in 0..n
        invariant
            n == cs@.len(),
            cs@ == s@,
            out@ == sanitized(s@, keep_dot).take(i as int),
            no_separator(out@),
    {
        let c = cs[i];
        let d = name_char(c, is_alphanumeric(c), keep_dot);
        assert(d != '/' && d != '\\');
        push_char(&mut out, d);
        assert(sanitized(s@, keep_dot).take(i + 1) == sanitized(s@, keep_dot).take(i as int).push(
            d,
        ));
    }
    assert(sanitized(s@, keep_dot).take(n as int) == sanitized(s@, keep_dot));
    out
}

proof fn lemma_replaced_step(s: Seq<char>, pattern: Seq<char>, with: Seq<char>, i: int)
    requires
        0 <= i < s.len(),
        pattern.len() > 0,
    ensures
        has_prefix(s.skip(i), pattern) ==> replaced(s.skip(i), pattern, with) == with + replaced(
            s.skip(i + pattern.len()),
            pattern,
            with,
        ),
        !has_prefix(s.skip(i), pattern) ==> replaced(s.skip(i), pattern, with) == seq![s[i]]
            + replaced(s.skip(i + 1), pattern, with),
{
    if has_prefix(s.skip(i), pattern) {
        assert(s.skip(i).skip(pattern.len() as int) == s.skip(i + pattern.len()));
    } else {
        assert(s.skip(i).skip(1) == s.skip(i + 1));
    }
}

/// `s` with each leftmost, non-overlapping occurrence of `pattern`
/// replaced by `with`.
pub fn replace_text(s: &str, pattern: &str, with: &str) -> (r: String)
    requires
        pattern@.len() > 0,
    ensures
        r@ == replaced(s@, pattern@, with@),
{
    let cs = chars_of(s);
    let ps = chars_of(pattern);
    let mut out = String::new();
    let n = cs.len();
    let mut i: usize = 0;
    assert(s@.skip(0) == s@);
    while i < n
        invariant
            n == cs@.len(),
            cs@ == s@,
            ps@ == pattern@,
            pattern@.len() > 0,
            i <= n,
            out@ + replaced(s@.skip(i as int), pattern@, with@) == replaced(s@, pattern@, with@),
        decreases n - i,
    {
        proof {
            lemma_replaced_step(s@, pattern@, with@, i as int);
        }
        let ghost rest = s@.skip(i as int);
        if crate::text::matches_at(cs.as_slice(), ps.as_slice(), i) {
            assert(rest.subrange(0, pattern@.len() as int) == s@.subrange(
                i as int,
                i + pattern@.len(),
            ));
            push_text(&mut out, with);
            i = i + ps.len();
        } else {
            assert(!has_prefix(rest, pattern@)) by {
                if has_prefix(rest, pattern@) {
                    assert(rest.subrange(0, pattern@.len() as int) == s@.subrange(
                        i as int,
                        i + pattern@.len(),
                    ));
                }
            }
            push_char(&mut out, cs[i]);
            i = i + 1;
        }
    }
    assert(s@.skip(n as int) == Seq::<char>::empty());
    out
}

/// The name of the session file of `username` on `homeserver_url`.
pub fn session_file_name_of(username: &str, homeserver_url: &str) -> (r: String)
    ensures
        r@ == session_file_name(username@, homeserver_url@),
        no_separator(r@),
{
    proof {
        reveal_strlit("://");
        reveal_strlit("session_");
        reveal_strlit("_");
        reveal_strlit(".json");
    }
    let host = replace_text(homeserver_url, "://", "_");
    let mut out = owned("session_");
    let u = sanitize(username, false);
    push_text(&mut out, u.as_str());
    push_text(&mut out, "_");
    let h = sanitize(host.as_str(), true);
    push_text(&mut out, h.as_str());
    push_text(&mut out, ".json");
    out
}

/// The name of the store directory of `username` on `homeserver_url`.
pub fn store_dir_name_of(username: &str, homeserver_url: &str) -> (r: String)
    ensures
        r@ == store_dir_name(username@, homeserver_url@),
        no_separator(r@),
{
    proof {
        reveal_strlit("://");
        reveal_strlit("_");
    }
    let host = replace_text(homeserver_url, "://", "_");
    let mut out = sanitize(username, false);
    push_text(&mut out, "_");
    let h = sanitize(host.as_str(), true);
    push_text(&mut out, h.as_str());
    out
}

/// The application's data directory under the platform data directory
/// `base`.
/// `base`, on a platform whose path separator is `sep`.
pub fn app_dir_under(sep: char, base: Option<&str>) -> (r: String)
    ensures
        sep == '/' ==> r@ == app_dir(
            match base {
                Some(b) => Some(b@),
                None => None,
            },
        ),
{
    match base {
        Some(b) => join_path(sep, b, "matrix-fileshare"),
        None => join_path(sep, ".", "matrix-fileshare"),
    }
}

/// The application's data directory, under the platform's data directory,
/// on a platform whose path separator is `sep`.
pub fn data_dir(sep: char) -> (r: String)
    ensures
        sep == '/' ==> exists|base: Option<Seq<char>>| r@ == app_dir(base),
{
    let base = platform_data_dir();
    match &base {
        Some(b) => app_dir_under(sep, Some(b.as_str())),
        None => app_dir_under(sep, None),
    }
}

/// The session file of a user on a homeserver is named after the user's
/// store directory: `session_`, the store directory's name, `.json`.
pub proof fn lemma_session_named_after_store(username: Seq<char>, homeserver_url: Seq<char>)
    ensures
        session_file_name(username, homeserver_url) == "session_"@ + store_dir_name(
            username,
            homeserver_url,
        ) + ".json"@,
{
    assert(session_file_name(username, homeserver_url) =~= "session_"@ + store_dir_name(
        username,
        homeserver_url,
    ) + ".json"@);
}

/// Where the session of `username` on `homeserver_url` is saved, in the
/// data directory `dir`, on a platform whose path separator is `sep`: a
/// file of that directory, under the session file's name.
pub fn session_file_path_in(sep: char, dir: &str, username: &str, homeserver_url: &str) -> (r:
    String)
    ensures
        sep == '/' ==> r@ == path_join(dir@, session_file_name(username@, homeserver_url@)),
        sep == '/' ==> path_file_name(r@) == Some(session_file_name(username@, homeserver_url@)),
{
    let name = session_file_name_of(username, homeserver_url);
    proof {
        reveal_strlit("session_");
        assert(name@[0] == 's');
        lemma_join_file_name(dir@, name@);
    }
    join_path(sep, dir, name.as_str())
}

/// Where the encrypted store of `username` on `homeserver_url` lives, in
/// the data directory `dir`, on a platform whose path separator is `sep`:
/// an entry of that directory, under the store directory's name.
pub fn db_path_in(sep: char, dir: &str, username: &str, homeserver_url: &str) -> (r: String)
    ensures
        sep == '/' ==> r@ == path_join(dir@, store_dir_name(username@, homeserver_url@)),
        sep == '/' ==> path_file_name(r@) == Some(store_dir_name(username@, homeserver_url@)),
{
    let name = store_dir_name_of(username, homeserver_url);
    proof {
        reveal_strlit("_");
        let k = safe_username(username@).len() as int;
        assert(name@[k] == '_');
        assert(name@.len() == k + 1 + safe_host(homeserver_url@).len());
        assert(name@ != seq!['.']) by {
            if name@ == seq!['.'] {
                assert(seq!['.'][0] == '.');
            }
        }
        assert(name@ != seq!['.', '.']) by {
            if name@ == seq!['.', '.'] {
                assert(seq!['.', '.'][0] == '.');
                assert(seq!['.', '.'][1] == '.');
            }
        }
        lemma_join_file_name(dir@, name@);
    }
    join_path(sep, dir, name.as_str())
}

/// Where the session of `username` on `homeserver_url` is saved, on a
/// platform whose path separator is `sep`.
pub fn session_file_path(sep: char, username: &str, homeserver_url: &str) -> (r: String)
    ensures
        sep == '/' ==> exists|base: Option<Seq<char>>|
            r@ == path_join(app_dir(base), session_file_name(username@, homeserver_url@)),
{
    let dir = data_dir(sep);
    session_file_path_in(sep, dir.as_str(), username, homeserver_url)
}

/// Where the encrypted store of `username` on `homeserver_url` lives, on a
/// platform whose path separator is `sep`.
pub fn db_path_for(sep: char, username: &str, homeserver_url: &str) -> (r: String)
    ensures
        sep == '/' ==> exists|base: Option<Seq<char>>|
            r@ == path_join(app_dir(base), store_dir_name(username@, homeserver_url@)),
{
    let dir = data_dir(sep);
    db_path_in(sep, dir.as_str(), username, homeserver_url)
}

/// Where the session of `username` on `homeserver_url` is saved and where
/// its store lives, on a platform whose path separator is `sep`, from one
/// reading of the platform data directory: the session file and the store
/// directory are entries of the same directory, the session file named
/// after the store directory.
pub fn session_paths(sep: char, username: &str, homeserver_url: &str) -> (r: (String, String))
    ensures
        sep == '/' ==> exists|base: Option<Seq<char>>|
            {
                &&& r.0@ == path_join(
                    app_dir(base),
                    session_file_name(username@, homeserver_url@),
                )
                &&& r.1@ == path_join(app_dir(base), store_dir_name(username@, homeserver_url@))
            },
        sep == '/' ==> path_file_name(r.0@) == Some(session_file_name(username@, homeserver_url@)),
        sep == '/' ==> path_file_name(r.1@) == Some(store_dir_name(username@, homeserver_url@)),
{
    let dir = data_dir(sep);
    let session = session_file_path_in(sep, dir.as_str(), username, homeserver_url);
    let store = db_path_in(sep, dir.as_str(), username, homeserver_url);
    (session, store)
}

// ---------------------------------------------------------------------
// Logging in and syncing
// ---------------------------------------------------------------------

/// A homeserver address with a scheme: kept where it begins with `http`,
/// else given `https://`.
pub open spec fn homeserver_url(homeserver: Seq<char>) -> Seq<char> {
    if has_prefix(homeserver, "http"@) {
        homeserver
    } else {
        "https://"@ + homeserver
    }
}

/// The message for a login the server refused with `error`: rate limiting
/// where the error names status 429 or speaks of a rate or a limit.
pub open spec fn login_failure(error: Seq<char>) -> Seq<char> {
    if contains_text(error, "429"@) || contains_text(unicode_lowercase(error), "rate"@)
        || contains_text(unicode_lowercase(error), "limit"@) {
        "Rate limited by server. Please wait a minute and try again."@
    } else {
        "Login failed: "@ + error
    }
}

/// The message for a login that did not answer in time.
pub const LOGIN_TIMEOUT_MESSAGE: &'static str =
    "Login timed out. The server may be rate limiting you — wait a minute and try again.";

/// The message for an initial sync that failed because the saved session
/// is no longer valid.
pub const SESSION_EXPIRED_MESSAGE: &'static str =
    "Session expired. Saved session has been cleared — please run the command again to do a fresh login.";

/// The sync failed because the session's token is no longer valid.
pub open spec fn session_expired(error: Seq<char>) -> bool {
    contains_text(error, "401"@) || contains_text(error, "M_UNKNOWN_TOKEN"@)
}

/// How an initial sync failed.
pub struct SyncFailure {
    /// The saved session is to be cleared.
    pub session_expired: bool,
    pub message: String,
}

/// The address of `homeserver`, with `https://` where it has no scheme.
pub fn normalize_homeserver(homeserver: &str) -> (r: String)
    ensures
        r@ == homeserver_url(homeserver@),
{
    if text_starts_with(homeserver, "http") {
        owned(homeserver)
    } else {
        let mut out = owned("https://");
        push_text(&mut out, homeserver);
        out
    }
}

/// What came of the last step of logging in with a saved session.
#[derive(Clone, Copy, Debug, PartialEq, Eq, Structural)]
pub enum RestoreEvent {
    /// No session is saved for the user on the homeserver.
    NothingSaved,
    /// A session is saved.
    Found,
    /// No client could be built on the saved session's store.
    ClientFailed,
    /// A client was built on the saved session's store.
    ClientBuilt,
    /// The client refused the saved session.
    RestoreFailed,
    /// The saved session was restored.
    Restored,
    /// The server no longer accepts the session's token.
    TokenRejected,
    /// The server confirmed the session's token.
    TokenAccepted,
}

/// What to do next when logging in with a saved session.
#[derive(Clone, Copy, Debug, PartialEq, Eq, Structural)]
pub enum RestoreAction {
    /// Build a client on the saved session's store.
    BuildClient,
    /// Hand the saved session to the client.
    RestoreSession,
    /// Ask the server who the session belongs to.
    CheckToken,
    /// Log in with the restored session.
    UseSession,
    /// Log in with the password, after clearing the saved session and its
    /// store where `clear_saved` holds.
    PasswordLogin { clear_saved: bool },
}

/// The step after `event` when logging in with a saved session, where
/// `check_token` asks that the server confirm a restored session's token
/// before it is used. A saved session that fails at any step is cleared,
/// and the login falls back to the password.
pub open spec fn restore_action(event: RestoreEvent, check_token: bool) -> RestoreAction {
    match event {
        RestoreEvent::NothingSaved => RestoreAction::PasswordLogin { clear_saved: false },
        RestoreEvent::Found => RestoreAction::BuildClient,
        RestoreEvent::ClientBuilt => RestoreAction::RestoreSession,
        RestoreEvent::Restored => if check_token {
            RestoreAction::CheckToken
        } else {
            RestoreAction::UseSession
        },
        RestoreEvent::TokenAccepted => RestoreAction::UseSession,
        RestoreEvent::ClientFailed => RestoreAction::PasswordLogin { clear_saved: true },
        RestoreEvent::RestoreFailed => RestoreAction::PasswordLogin { clear_saved: true },
        RestoreEvent::TokenRejected => RestoreAction::PasswordLogin { clear_saved: true },
    }
}

/// The step after `event` when logging in with a saved session.
pub fn restore_next(event: RestoreEvent, check_token: bool) -> (r: RestoreAction)
    ensures
        r == restore_action(event, check_token),
{
    match event {
        RestoreEvent::NothingSaved => RestoreAction::PasswordLogin { clear_saved: false },
        RestoreEvent::Found => RestoreAction::BuildClient,
        RestoreEvent::ClientBuilt => RestoreAction::RestoreSession,
        RestoreEvent::Restored => if check_token {
            RestoreAction::CheckToken
        } else {
            RestoreAction::UseSession
        },
        RestoreEvent::TokenAccepted => RestoreAction::UseSession,
        RestoreEvent::ClientFailed => RestoreAction::PasswordLogin { clear_saved: true },
        RestoreEvent::RestoreFailed => RestoreAction::PasswordLogin { clear_saved: true },
        RestoreEvent::TokenRejected => RestoreAction::PasswordLogin { clear_saved: true },
    }
}

/// A saved session that is found is always tried: a client is built on
/// its store and the session handed to it, whether or not the token is to
/// be checked. The password login is reached only where nothing is saved
/// or after a step of the saved session failed, and every such failure
/// leads to it.
pub proof fn lemma_restore_tries_a_saved_session(event: RestoreEvent, check_token: bool)
    ensures
        restore_action(RestoreEvent::Found, check_token) == RestoreAction::BuildClient,
        restore_action(RestoreEvent::ClientBuilt, check_token) == RestoreAction::RestoreSession,
        restore_action(RestoreEvent::TokenAccepted, check_token) == RestoreAction::UseSession,
        restore_action(event, check_token) is PasswordLogin <==> {
            ||| event == RestoreEvent::NothingSaved
            ||| event == RestoreEvent::ClientFailed
            ||| event == RestoreEvent::RestoreFailed
            ||| event == RestoreEvent::TokenRejected
        },
        restore_action(event, check_token) == RestoreAction::CheckToken <==> (event
            == RestoreEvent::Restored && check_token),
{
}

/// A saved session is used only once it has been restored and, where the
/// token is to be checked, the server has confirmed it; every failure of a
/// saved session clears it before the password login.
pub proof fn lemma_restore_uses_only_a_confirmed_session(event: RestoreEvent, check_token: bool)
    ensures
        restore_action(event, check_token) == RestoreAction::UseSession ==> {
            ||| event == RestoreEvent::TokenAccepted
            ||| (event == RestoreEvent::Restored && !check_token)
        },
        restore_action(event, check_token) matches RestoreAction::PasswordLogin { clear_saved } ==> (
        clear_saved <==> event != RestoreEvent::NothingSaved),
{
}

/// The message for a refused login whose error reads `error`.
pub fn login_failure_message(error: &str) -> (r: String)
    ensures
        r@ == login_failure(error@),
        all_ascii(error@) ==> r@ == (if contains_text(error@, "429"@) || contains_text(
            ascii_lowercase(error@),
            "rate"@,
        ) || contains_text(ascii_lowercase(error@), "limit"@) {
            "Rate limited by server. Please wait a minute and try again."@
        } else {
            "Login failed: "@ + error@
        }),
{
    let lower = to_lowercase(error);
    login_failure_text(error, lower.as_str())
}

/// The message for a refused login whose error reads `error` and, in
/// lowercase, `lowered`.
pub fn login_failure_text(error: &str, lowered: &str) -> (r: String)
    ensures
        r@ == (if contains_text(error@, "429"@) || contains_text(lowered@, "rate"@)
            || contains_text(lowered@, "limit"@) {
            "Rate limited by server. Please wait a minute and try again."@
        } else {
            "Login failed: "@ + error@
        }),
{
    if text_contains(error, "429") || text_contains(lowered, "rate") || text_contains(
        lowered,
        "limit",
    ) {
        owned("Rate limited by server. Please wait a minute and try again.")
    } else {
        let mut out = owned("Login failed: ");
        push_text(&mut out, error);
        out
    }
}

/// How an initial sync that failed with `error` is reported.
pub fn sync_failure(error: &str) -> (r: SyncFailure)
    ensures
        r.session_expired == session_expired(error@),
        r.session_expired ==> r.message@ == SESSION_EXPIRED_MESSAGE@,
        !r.session_expired ==> r.message@ == "Initial sync failed: "@ + error@,
{
    if text_contains(error, "401") || text_contains(error, "M_UNKNOWN_TOKEN") {
        SyncFailure { session_expired: true, message: owned(SESSION_EXPIRED_MESSAGE) }
    } else {
        let mut out = owned("Initial sync failed: ");
        push_text(&mut out, error);
        SyncFailure { session_expired: false, message: out }
    }
}

// ---------------------------------------------------------------------
// Rooms and offers
// ---------------------------------------------------------------------

/// How a joined room is listed: its display name, else its identifier; its
/// joined member count, else its active member count.
pub fn room_summary(room_id: &str, display_name: Option<&str>, joined: u64, active: u64) -> (r:
    RoomSummary)
    ensures
        r.room_id@ == room_id@,
        r.name@ == match display_name {
            Some(n) => n@,
            None => room_id@,
        },
        r.member_count == if joined > 0 {
            joined
        } else {
            active
        },
{
    let name = match display_name {
        Some(n) => owned(n),
        None => owned(room_id),
    };
    RoomSummary {
        room_id: owned(room_id),
        name,
        member_count: if joined > 0 {
            joined
        } else {
            active
        },
    }
}

/// The views of an optional text.
pub open spec fn opt_view(o: Option<String>) -> Option<Seq<char>> {
    match o {
        Some(s) => Some(s@),
        None => None,
    }
}

/// A copy of an optional text.
pub fn copy_opt(o: &Option<String>) -> (r: Option<String>)
    ensures
        opt_view(r) == opt_view(*o),
{
    match o {
        Some(s) => Some(owned(s.as_str())),
        None => None,
    }
}

/// `a` and `b` hold the same offer.
pub open spec fn same_offer_content(a: FileOfferContent, b: FileOfferContent) -> bool {
    &&& a.offer_id@ == b.offer_id@
    &&& a.filename@ == b.filename@
    &&& a.size == b.size
    &&& a.mimetype@ == b.mimetype@
    &&& a.sha256@ == b.sha256@
    &&& opt_view(a.description) == opt_view(b.description)
    &&& opt_view(a.sender_device_id) == opt_view(b.sender_device_id)
    &&& opt_view(a.iroh_ticket) == opt_view(b.iroh_ticket)
    &&& opt_view(a.target_user) == opt_view(b.target_user)
}

/// A copy of an offer's content.
pub fn copy_offer_content(c: &FileOfferContent) -> (r: FileOfferContent)
    ensures
        same_offer_content(r, *c),
{
    FileOfferContent {
        offer_id: owned(c.offer_id.as_str()),
        filename: owned(c.filename.as_str()),
        size: c.size,
        mimetype: owned(c.mimetype.as_str()),
        sha256: owned(c.sha256.as_str()),
        description: copy_opt(&c.description),
        sender_device_id: copy_opt(&c.sender_device_id),
        iroh_ticket: copy_opt(&c.iroh_ticket),
        target_user: copy_opt(&c.target_user),
    }
}

/// `d` is the offer `c` seen from `sender` in `room_id`.
pub open spec fn offer_data_is(
    d: FileOfferData,
    c: FileOfferContent,
    sender: Seq<char>,
    room_id: Seq<char>,
) -> bool {
    &&& d.offer_id@ == c.offer_id@
    &&& d.filename@ == c.filename@
    &&& d.size == c.size
    &&& d.mimetype@ == c.mimetype@
    &&& d.sha256@ == c.sha256@
    &&& opt_view(d.description) == opt_view(c.description)
    &&& d.sender_user_id@ == sender
    &&& opt_view(d.sender_device_id) == opt_view(c.sender_device_id)
    &&& d.room_id@ == room_id
    &&& opt_view(d.iroh_ticket) == opt_view(c.iroh_ticket)
}

/// The offer `content` as seen from `sender` in `room_id`.
pub fn offer_data_from_content(content: FileOfferContent, sender: String, room_id: &str) -> (r:
    FileOfferData)
    ensures
        offer_data_is(r, content, sender@, room_id@),
{
    FileOfferData {
        offer_id: content.offer_id,
        filename: content.filename,
        size: content.size,
        mimetype: content.mimetype,
        sha256: content.sha256,
        description: content.description,
        sender_user_id: sender,
        sender_device_id: content.sender_device_id,
        room_id: owned(room_id),
        iroh_ticket: content.iroh_ticket,
    }
}

/// An event of a room's history as the offer scan reads it: its type and
/// sender where they are texts, and its content where that reads as a
/// file offer.
pub struct HistoryEvent {
    pub event_type: Option<String>,
    pub sender: Option<String>,
    pub offer: Option<FileOfferContent>,
}

/// One page of a room's history, newest first, and the token to read on.
pub struct HistoryPage {
    pub events: Vec<HistoryEvent>,
    pub end: Option<String>,
}

/// The most pages of history the scan reads.
pub const MAX_HISTORY_PAGES: u32 = 10;

/// The event is a file offer whose content could be read.
pub open spec fn is_offer_event(e: HistoryEvent) -> bool {
    &&& opt_view(e.event_type) == Some(EVENT_FILE_OFFER@)
    &&& e.offer is Some
}

/// The sender of an event, empty where it has none.
pub open spec fn sender_of(e: HistoryEvent) -> Seq<char> {
    match e.sender {
        Some(s) => s@,
        None => Seq::empty(),
    }
}

/// The offers found in `events`, in order.
pub open spec fn offers_in(events: Seq<HistoryEvent>) -> Seq<HistoryEvent>
    decreases events.len(),
{
    if events.len() == 0 {
        Seq::empty()
    } else if is_offer_event(events.last()) {
        offers_in(events.drop_last()).push(events.last())
    } else {
        offers_in(events.drop_last())
    }
}

/// Every event of a page whose type is `com.fileshare.offer` and whose
/// content reads as an offer is collected, in order, whatever its optional
/// fields hold (a ticket, a description, a target), and no other event is.
pub proof fn lemma_every_offer_event_is_collected(events: Seq<HistoryEvent>)
    ensures
        offers_in(events) == events.filter(
            |e: HistoryEvent| opt_view(e.event_type) == Some(EVENT_FILE_OFFER@) && e.offer is Some,
        ),
        forall|k: int|
            0 <= k < events.len() && opt_view(events[k].event_type) == Some(EVENT_FILE_OFFER@)
                && events[k].offer is Some ==> offers_in(events).contains(#[trigger] events[k]),
        forall|j: int|
            0 <= j < offers_in(events).len() ==> {
                &&& opt_view(#[trigger] offers_in(events)[j].event_type) == Some(EVENT_FILE_OFFER@)
                &&& offers_in(events)[j].offer is Some
                &&& events.contains(offers_in(events)[j])
            },
    decreases events.len(),
{
    let pred = |e: HistoryEvent| opt_view(e.event_type) == Some(EVENT_FILE_OFFER@) && e.offer is Some;
    if events.len() > 0 {
        lemma_every_offer_event_is_collected(events.drop_last());
        reveal(Seq::filter);
        assert(events.filter(pred) == {
            let sub = events.drop_last().filter(pred);
            if pred(events.last()) {
                sub.push(events.last())
            } else {
                sub
            }
        });
    } else {
        reveal(Seq::filter);
    }
    broadcast use vstd::seq_lib::group_filter_ensures;

    assert forall|j: int| 0 <= j < offers_in(events).len() implies events.contains(
        offers_in(events)[j],
    ) by {
        assert(events.filter(pred).contains(offers_in(events)[j]));
        events.lemma_filter_contains_rev(pred, offers_in(events)[j]);
    }
}

/// The offers of a room gathered page by page from its history, newest
/// first, over at most ten pages.
pub struct OfferScan {
    room_id: String,
    offers: Vec<FileOfferData>,
    from: Option<String>,
    pages: u32,
    done: bool,
}

impl OfferScan {
    /// The room scanned.
    pub closed spec fn room(&self) -> Seq<char> {
        self.room_id@
    }

    /// The offers found so far.
    pub closed spec fn found(&self) -> Seq<FileOfferData> {
        self.offers@
    }

    /// The token of the next page, `None` for the newest.
    pub closed spec fn next_from(&self) -> Option<Seq<char>> {
        opt_view(self.from)
    }

    /// Pages read so far.
    pub closed spec fn pages_read(&self) -> nat {
        self.pages as nat
    }

    /// No more pages are to be read.
    pub closed spec fn finished(&self) -> bool {
        self.done
    }

    /// A scan that is not over has read fewer than ten pages.
    pub closed spec fn wf(&self) -> bool {
        !self.done ==> self.pages < MAX_HISTORY_PAGES
    }

    /// A scan of `room_id` that has read nothing.
    pub fn new(room_id: &str) -> (r: Self)
        ensures
            r.wf(),
            r.room() == room_id@,
            r.found() == Seq::<FileOfferData>::empty(),
            r.next_from() is None,
            r.pages_read() == 0,
            !r.finished(),
    {
        OfferScan { room_id: owned(room_id), offers: Vec::new(), from: None, pages: 0, done: false }
    }

    /// The token to read the next page from, or `None` once the scan is
    /// over (the inner `None` asks for the newest page).
    pub fn next_request(&self) -> (r: Option<Option<String>>)
        ensures
            self.finished() ==> r is None,
            !self.finished() ==> (r matches Some(f) && opt_view(f) == self.next_from()),
    {
        if self.done {
            None
        } else {
            Some(copy_opt(&self.from))
        }
    }

    /// Takes in the next page. An empty page ends the scan; otherwise its
    /// offers are added in order, and the scan goes on from the page's end
    /// token unless there is none or ten pages have been read.
    pub fn take_page(&mut self, page: HistoryPage)
        requires
            old(self).wf(),
            !old(self).finished(),
        ensures
            final(self).wf(),
            final(self).room() == old(self).room(),
            page.events@.len() == 0 ==> {
                &&& final(self).finished()
                &&& final(self).found() == old(self).found()
                &&& final(self).pages_read() == old(self).pages_read()
                &&& final(self).next_from() == old(self).next_from()
            },
            page.events@.len() > 0 ==> {
                let new_offers = offers_in(page.events@);
                &&& final(self).found().len() == old(self).found().len() + new_offers.len()
                &&& final(self).found().take(old(self).found().len() as int) == old(self).found()
                &&& forall|k: int|
                    0 <= k < new_offers.len() ==> offer_data_is(
                        #[trigger] final(self).found()[old(self).found().len() + k],
                        new_offers[k].offer->Some_0,
                        sender_of(new_offers[k]),
                        old(self).room(),
                    )
                &&& final(self).pages_read() == old(self).pages_read() + 1
                &&& final(self).next_from() == match page.end {
                    Some(t) => Some(t@),
                    None => old(self).next_from(),
                }
                &&& final(self).finished() == (page.end is None || final(self).pages_read()
                    == MAX_HISTORY_PAGES)
                &&& final(self).found().len() == old(self).found().len() + page.events@.filter(
                    |e: HistoryEvent|
                        opt_view(e.event_type) == Some(EVENT_FILE_OFFER@) && e.offer is Some,
                ).len()
            },
            final(self).pages_read() <= MAX_HISTORY_PAGES,
    {
        let n = page.events.len();
        if n == 0 {
            self.done = true;
            return ;
        }
        let ghost start = self.offers@;
        let ghost events = page.events@;
        for k in 0..n
            invariant
                n == events.len(),
                events == page.events@,
                self.room_id@ == old(self).room(),
                self.pages == old(self).pages,
                self.done == old(self).done,
                self.from == old(self).from,
                self.offers@.take(start.len() as int) == start,
                self.offers@.len() == start.len() + offers_in(events.take(k as int)).len(),
                forall|j: int|
                    0 <= j < offers_in(events.take(k as int)).len() ==> offer_data_is(
                        #[trigger] self.offers@[start.len() + j],
                        offers_in(events.take(k as int))[j].offer->Some_0,
                        sender_of(offers_in(events.take(k as int))[j]),
                        old(self).room(),
                    ),
        {
            let e = &page.events[k];
            proof {
                assert(events.take(k + 1).drop_last() == events.take(k as int));
                assert(events.take(k + 1).last() == *e);
            }
            let is_offer = match &e.event_type {
                Some(t) => text_is(t, EVENT_FILE_OFFER),
                None => false,
            };
            if is_offer {
                match &e.offer {
                    Some(content) => {
                        let sender = match &e.sender {
                            Some(s) => owned(s.as_str()),
                            None => String::new(),
                        };
                        let d = offer_data_from_content(
                            copy_offer_content(content),
                            sender,
                            self.room_id.as_str(),
                        );
                        self.offers.push(d);
                        proof {
                            assert(self.offers@.take(start.len() as int) == start);
                        }
                    },
                    None => {},
                }
            }
        }
        assert(events.take(events.len() as int) == events);
        proof {
            lemma_every_offer_event_is_collected(events);
        }
        self.pages = self.pages + 1;
        match page.end {
            Some(t) => {
                self.from = Some(t);
            },
            None => {
                self.done = true;
            },
        }
        if self.pages >= MAX_HISTORY_PAGES {
            self.done = true;
        }
    }

    /// The offers found, in the order read.
    pub fn into_offers(self) -> (r: Vec<FileOfferData>)
        ensures
            r@ == self.found(),
    {
        self.offers
    }
}

/// The first offer with identifier `offer_id`.
pub fn find_offer<'a>(offers: &'a [FileOfferData], offer_id: &str) -> (r: Option<&'a FileOfferData>)
    ensures
        match r {
            Some(o) => exists|k: int|
                0 <= k < offers@.len() && offers@[k] == *o && o.offer_id@ == offer_id@ && forall|
                    j: int,
                | 0 <= j < k ==> offers@[j].offer_id@ != offer_id@,
            None => forall|j: int| 0 <= j < offers@.len() ==> offers@[j].offer_id@ != offer_id@,
        },
{
    let key = owned(offer_id);
    let n = offers.len();
    for i in 0..n
        invariant
            n == offers@.len(),
            key@ == offer_id@,
            forall|j: int| 0 <= j < i ==> offers@[j].offer_id@ != offer_id@,
    {
        if offers[i].offer_id == key {
            return Some(&offers[i]);
        }
    }
    None
}

// ---------------------------------------------------------------------
// File types
// ---------------------------------------------------------------------

/// The media type of a file whose extension, lowercased, is `ext`.
pub open spec fn mime_for(ext: Seq<char>) -> Seq<char> {
    if ext == "jpg"@ || ext == "jpeg"@ {
        "image/jpeg"@
    } else if ext == "png"@ {
        "image/png"@
    } else if ext == "gif"@ {
        "image/gif"@
    } else if ext == "webp"@ {
        "image/webp"@
    } else if ext == "svg"@ {
        "image/svg+xml"@
    } else if ext == "pdf"@ {
        "application/pdf"@
    } else if ext == "zip"@ {
        "application/zip"@
    } else if ext == "tar"@ {
        "application/x-tar"@
    } else if ext == "gz"@ {
        "application/gzip"@
    } else if ext == "mp4"@ {
        "video/mp4"@
    } else if ext == "webm"@ {
        "video/webm"@
    } else if ext == "mp3"@ {
        "audio/mpeg"@
    } else if ext == "wav"@ {
        "audio/wav"@
    } else if ext == "txt"@ {
        "text/plain"@
    } else if ext == "html"@ || ext == "htm"@ {
        "text/html"@
    } else if ext == "json"@ {
        "application/json"@
    } else if ext == "xml"@ {
        "application/xml"@
    } else {
        "application/octet-stream"@
    }
}

/// The media types by extension: each listed (lowercase) extension has
/// its type, and any other extension, the empty one included, is read as
/// plain bytes.
pub proof fn lemma_media_type_table(ext: Seq<char>)
    ensures
        mime_for("jpg"@) == "image/jpeg"@,
        mime_for("jpeg"@) == "image/jpeg"@,
        mime_for("png"@) == "image/png"@,
        mime_for("gif"@) == "image/gif"@,
        mime_for("webp"@) == "image/webp"@,
        mime_for("svg"@) == "image/svg+xml"@,
        mime_for("pdf"@) == "application/pdf"@,
        mime_for("zip"@) == "application/zip"@,
        mime_for("tar"@) == "application/x-tar"@,
        mime_for("gz"@) == "application/gzip"@,
        mime_for("mp4"@) == "video/mp4"@,
        mime_for("webm"@) == "video/webm"@,
        mime_for("mp3"@) == "audio/mpeg"@,
        mime_for("wav"@) == "audio/wav"@,
        mime_for("txt"@) == "text/plain"@,
        mime_for("html"@) == "text/html"@,
        mime_for("htm"@) == "text/html"@,
        mime_for("json"@) == "application/json"@,
        mime_for("xml"@) == "application/xml"@,
        (ext != "jpg"@ && ext != "jpeg"@ && ext != "png"@ && ext != "gif"@ && ext != "webp"@ && ext != "svg"@ && ext != "pdf"@ && ext != "zip"@ && ext != "tar"@ && ext != "gz"@ && ext != "mp4"@ && ext != "webm"@ && ext != "mp3"@ && ext != "wav"@ && ext != "txt"@ && ext != "html"@ && ext != "htm"@ && ext != "json"@ && ext != "xml"@) ==> mime_for(ext) == "application/octet-stream"@,
{
    reveal_strlit("jpg");
    assert("jpg"@.len() == 3 && "jpg"@[0] == 'j' && "jpg"@[1] == 'p' && "jpg"@[2] == 'g');
    reveal_strlit("jpeg");
    assert("jpeg"@.len() == 4 && "jpeg"@[0] == 'j' && "jpeg"@[1] == 'p' && "jpeg"@[2] == 'e' && "jpeg"@[3] == 'g');
    reveal_strlit("png");
    assert("png"@.len() == 3 && "png"@[0] == 'p' && "png"@[1] == 'n' && "png"@[2] == 'g');
    reveal_strlit("gif");
    assert("gif"@.len() == 3 && "gif"@[0] == 'g' && "gif"@[1] == 'i' && "gif"@[2] == 'f');
    reveal_strlit("webp");
    assert("webp"@.len() == 4 && "webp"@[0] == 'w' && "webp"@[1] == 'e' && "webp"@[2] == 'b' && "webp"@[3] == 'p');
    reveal_strlit("svg");
    assert("svg"@.len() == 3 && "svg"@[0] == 's' && "svg"@[1] == 'v' && "svg"@[2] == 'g');
    reveal_strlit("pdf");
    assert("pdf"@.len() == 3 && "pdf"@[0] == 'p' && "pdf"@[1] == 'd' && "pdf"@[2] == 'f');
    reveal_strlit("zip");
    assert("zip"@.len() == 3 && "zip"@[0] == 'z' && "zip"@[1] == 'i' && "zip"@[2] == 'p');
    reveal_strlit("tar");
    assert("tar"@.len() == 3 && "tar"@[0] == 't' && "tar"@[1] == 'a' && "tar"@[2] == 'r');
    reveal_strlit("gz");
    assert("gz"@.len() == 2 && "gz"@[0] == 'g' && "gz"@[1] == 'z');
    reveal_strlit("mp4");
    assert("mp4"@.len() == 3 && "mp4"@[0] == 'm' && "mp4"@[1] == 'p' && "mp4"@[2] == '4');
    reveal_strlit("webm");
    assert("webm"@.len() == 4 && "webm"@[0] == 'w' && "webm"@[1] == 'e' && "webm"@[2] == 'b' && "webm"@[3] == 'm');
    reveal_strlit("mp3");
    assert("mp3"@.len() == 3 && "mp3"@[0] == 'm' && "mp3"@[1] == 'p' && "mp3"@[2] == '3');
    reveal_strlit("wav");
    assert("wav"@.len() == 3 && "wav"@[0] == 'w' && "wav"@[1] == 'a' && "wav"@[2] == 'v');
    reveal_strlit("txt");
    assert("txt"@.len() == 3 && "txt"@[0] == 't' && "txt"@[1] == 'x' && "txt"@[2] == 't');
    reveal_strlit("html");
    assert("html"@.len() == 4 && "html"@[0] == 'h' && "html"@[1] == 't' && "html"@[2] == 'm' && "html"@[3] == 'l');
    reveal_strlit("htm");
    assert("htm"@.len() == 3 && "htm"@[0] == 'h' && "htm"@[1] == 't' && "htm"@[2] == 'm');
    reveal_strlit("json");
    assert("json"@.len() == 4 && "json"@[0] == 'j' && "json"@[1] == 's' && "json"@[2] == 'o' && "json"@[3] == 'n');
    reveal_strlit("xml");
    assert("xml"@.len() == 3 && "xml"@[0] == 'x' && "xml"@[1] == 'm' && "xml"@[2] == 'l');
}

/// The media type guessed for the file at `path`: by its extension,
/// lowercased, with none read as the empty one.
pub open spec fn mime_of_path(path: Seq<char>) -> Seq<char> {
    mime_for(
        unicode_lowercase(
            match path_extension(path) {
                Some(e) => e,
                None => Seq::empty(),
            },
        ),
    )
}

/// Whether the text `a` equals `b`.
fn text_is(a: &String, b: &str) -> (r: bool)
    ensures
        r == (a@ == b@),
{
    *a == owned(b)
}

/// The media type of a file whose lowercased extension is `ext`.
pub fn mime_for_extension(ext: &str) -> (r: String)
    ensures
        r@ == mime_for(ext@),
{
    let e = owned(ext);
    let m = if text_is(&e, "jpg") || text_is(&e, "jpeg") {
        "image/jpeg"
    } else if text_is(&e, "png") {
        "image/png"
    } else if text_is(&e, "gif") {
        "image/gif"
    } else if text_is(&e, "webp") {
        "image/webp"
    } else if text_is(&e, "svg") {
        "image/svg+xml"
    } else if text_is(&e, "pdf") {
        "application/pdf"
    } else if text_is(&e, "zip") {
        "application/zip"
    } else if text_is(&e, "tar") {
        "application/x-tar"
    } else if text_is(&e, "gz") {
        "application/gzip"
    } else if text_is(&e, "mp4") {
        "video/mp4"
    } else if text_is(&e, "webm") {
        "video/webm"
    } else if text_is(&e, "mp3") {
        "audio/mpeg"
    } else if text_is(&e, "wav") {
        "audio/wav"
    } else if text_is(&e, "txt") {
        "text/plain"
    } else if text_is(&e, "html") || text_is(&e, "htm") {
        "text/html"
    } else if text_is(&e, "json") {
        "application/json"
    } else if text_is(&e, "xml") {
        "application/xml"
    } else {
        "application/octet-stream"
    };
    owned(m)
}

/// Guesses the media type of the file at `path` from its extension, on a
/// platform whose path separator is `sep`.
pub fn mime_guess_from_path(sep: char, path: &str) -> (r: String)
    ensures
        sep == '/' ==> r@ == mime_of_path(path@),
        sep == '/' ==> match path_extension(path@) {
            Some(e) => all_ascii(e) ==> r@ == mime_for(ascii_lowercase(e)),
            None => r@ == mime_for(Seq::empty()),
        },
{
    let ext = extension_of(sep, path);
    let lower = match &ext {
        Some(e) => to_lowercase(e.as_str()),
        None => to_lowercase(""),
    };
    proof {
        assert(""@ == Seq::<char>::empty()) by {
            reveal_strlit("");
        }
        assert(ascii_lowercase(Seq::<char>::empty()) =~= Seq::<char>::empty());
    }
    mime_for_extension(lower.as_str())
}

// ---------------------------------------------------------------------
// Offering a file
// ---------------------------------------------------------------------

/// `c` is a lowercase hex digit.
pub open spec fn is_lower_hex(c: char) -> bool {
    ('0' <= c && c <= '9') || ('a' <= c && c <= 'f')
}

/// `s` is a random (version 4) UUID in hyphenated lowercase form.
pub open spec fn is_uuid_v4_text(s: Seq<char>) -> bool {
    &&& s.len() == 36
    &&& forall|i: int|
        0 <= i < 36 ==> if i == 8 || i == 13 || i == 18 || i == 23 {
            s[i] == '-'
        } else {
            is_lower_hex(#[trigger] s[i])
        }
    &&& s[14] == '4'
}

/// Calls `uuid::Uuid::new_v4` and renders it: a random version 4 UUID,
/// hyphenated, in lowercase hex. Which one is left to chance.
#[verifier::external_body]
fn new_offer_id() -> (r: String)
    ensures
        is_uuid_v4_text(r@),
{
    uuid::Uuid::new_v4().to_string()
}

/// The name a file is offered under: the last part of its path, or
/// `unknown` where the path has none.
pub open spec fn offered_name(path: Seq<char>) -> Seq<char> {
    match path_file_name(path) {
        Some(n) => n,
        None => "unknown"@,
    }
}

/// `c` announces the file at `file_path` under its name and media type, as
/// the Unix path grammar reads the path.
pub open spec fn offer_named(c: FileOfferContent, file_path: Seq<char>) -> bool {
    &&& c.filename@ == offered_name(file_path)
    &&& c.mimetype@ == mime_of_path(file_path)
}

/// `c` and `p` announce and keep the file `file_data` at `file_path` in
/// `room_id` under `offer_id` (the name and media type `c` gives the file
/// aside).
pub open spec fn offer_is(
    c: FileOfferContent,
    p: PendingOffer,
    offer_id: Seq<char>,
    file_path: Seq<char>,
    file_data: Seq<u8>,
    room_id: Seq<char>,
    description: Option<Seq<char>>,
    device_id: Option<Seq<char>>,
    iroh_ticket: Option<Seq<char>>,
) -> bool {
    &&& c.offer_id@ == offer_id
    &&& c.size == file_data.len()
    &&& c.sha256@ == sha256_hex(file_data)
    &&& opt_view(c.description) == description
    &&& opt_view(c.sender_device_id) == device_id
    &&& opt_view(c.iroh_ticket) == iroh_ticket
    &&& c.target_user is None
    &&& p.offer_id@ == offer_id
    &&& p.file_path@ == file_path
    &&& p.room_id@ == room_id
    &&& p.sha256@ == sha256_hex(file_data)
    &&& p.size == file_data.len()
}

/// The offer of the file `file_data` read from `file_path`, under
/// `offer_id`, on a platform whose path separator is `sep`: what is posted
/// to the room and what is kept to serve it.
pub fn offer_with_id(
    sep: char,
    offer_id: String,
    file_path: &str,
    file_data: &[u8],
    room_id: &str,
    description: Option<String>,
    device_id: Option<String>,
    iroh_ticket: Option<String>,
) -> (r: (FileOfferContent, PendingOffer))
    ensures
        offer_is(
            r.0,
            r.1,
            offer_id@,
            file_path@,
            file_data@,
            room_id@,
            opt_view(description),
            opt_view(device_id),
            opt_view(iroh_ticket),
        ),
        sep == '/' ==> offer_named(r.0, file_path@),
{
    let filename = match file_name_of(sep, file_path) {
        Some(n) => n,
        None => owned("unknown"),
    };

    let size = file_data.len() as u64;
    let sha256 = sha256_hex_string(file_data);
    let mimetype = mime_guess_from_path(sep, file_path);
    let pending = PendingOffer {
        offer_id: owned(offer_id.as_str()),
        file_path: owned(file_path),
        room_id: owned(room_id),
        sha256: owned(sha256.as_str()),
        size,
    };
    let content = FileOfferContent {
        offer_id,
        filename,
        size,
        mimetype,
        sha256,
        description,
        sender_device_id: device_id,
        iroh_ticket,
        target_user: None,
    };
    (content, pending)
}

/// The offer of the file `file_data` read from `file_path`, under a fresh
/// random identifier, on a platform whose path separator is `sep`.
pub fn new_offer(
    sep: char,
    file_path: &str,
    file_data: &[u8],
    room_id: &str,
    description: Option<String>,
    device_id: Option<String>,
    iroh_ticket: Option<String>,
) -> (r: (FileOfferContent, PendingOffer))
    ensures
        is_uuid_v4_text(r.0.offer_id@),
        offer_is(
            r.0,
            r.1,
            r.0.offer_id@,
            file_path@,
            file_data@,
            room_id@,
            opt_view(description),
            opt_view(device_id),
            opt_view(iroh_ticket),
        ),
        sep == '/' ==> offer_named(r.0, file_path@),
{
    let offer_id = new_offer_id();
    offer_with_id(sep, offer_id, file_path, file_data, room_id, description, device_id, iroh_ticket)
}

// ---------------------------------------------------------------------
// Progress on a terminal
// ---------------------------------------------------------------------

/// The percentage of `bytes` in `total` (0 for an empty total).
pub open spec fn percent(bytes: u64, total: u64) -> nat {
    if total > 0 {
        ((bytes * 100) / (total as int)) as nat
    } else {
        0
    }
}

/// What a terminal shows for a progress event, if anything.
pub open spec fn cli_progress_line(
    event: Seq<char>,
    bytes: Option<u64>,
    total: Option<u64>,
    status: Option<Seq<char>>,
    file_path: Option<Seq<char>>,
    error: Option<Seq<char>>,
) -> Option<Seq<char>> {
    if event == "transfer-progress"@ {
        match (bytes, total, status) {
            (Some(b), Some(t), Some(s)) => Some(
                "\r  "@ + s + " "@ + decimal(percent(b, t)) + "% ("@ + size_text(b as nat) + "/"@
                    + size_text(t as nat) + ")"@,
            ),
            _ => None,
        }
    } else if event == "transfer-complete"@ {
        match file_path {
            Some(p) => Some("\n  Transfer complete: "@ + p + "\n"@),
            None => Some("\n  Transfer complete.\n"@),
        }
    } else if event == "transfer-failed"@ {
        match error {
            Some(e) => Some("\n  Transfer failed: "@ + e + "\n"@),
            None => None,
        }
    } else {
        None
    }
}

/// The views of an optional text slice.
pub open spec fn opt_str_view(o: Option<&str>) -> Option<Seq<char>> {
    match o {
        Some(s) => Some(s@),
        None => None,
    }
}

/// What a terminal shows for the event `event` with the fields read from
/// its payload.
pub fn cli_progress_text(
    event: &str,
    bytes: Option<u64>,
    total: Option<u64>,
    status: Option<&str>,
    file_path: Option<&str>,
    error: Option<&str>,
) -> (r: Option<String>)
    requires
        bytes matches Some(b) ==> b <= u64::MAX / 100,
    ensures
        match r {
            Some(s) => cli_progress_line(
                event@,
                bytes,
                total,
                opt_str_view(status),
                opt_str_view(file_path),
                opt_str_view(error),
            ) == Some(s@),
            None => cli_progress_line(
                event@,
                bytes,
                total,
                opt_str_view(status),
                opt_str_view(file_path),
                opt_str_view(error),
            ) is None,
        },
{
    let e = owned(event);
    if text_is(&e, "transfer-progress") {
        match (bytes, total, status) {
            (Some(b), Some(t), Some(s)) => {
                let pct = if t > 0 {
                    (b * 100) / t
                } else {
                    0
                };
                let mut out = owned("\r  ");
                push_text(&mut out, s);
                push_text(&mut out, " ");
                push_decimal(&mut out, pct);
                push_text(&mut out, "% (");
                let bs = format_bytes(b);
                push_text(&mut out, bs.as_str());
                push_text(&mut out, "/");
                let ts = format_bytes(t);
                push_text(&mut out, ts.as_str());
                push_text(&mut out, ")");
                Some(out)
            },
            _ => None,
        }
    } else if text_is(&e, "transfer-complete") {
        match file_path {
            Some(p) => {
                let mut out = owned("\n  Transfer complete: ");
                push_text(&mut out, p);
                push_text(&mut out, "\n");
                Some(out)
            },
            None => Some(owned("\n  Transfer complete.\n")),
        }
    } else if text_is(&e, "transfer-failed") {
        match error {
            Some(m) => {
                let mut out = owned("\n  Transfer failed: ");
                push_text(&mut out, m);
                push_text(&mut out, "\n");
                Some(out)
            },
            None => None,
        }
    } else {
        None
    }
}

// ---------------------------------------------------------------------
// The sync loop
// ---------------------------------------------------------------------

/// A to-device event of type `event_type` carries a file chunk.
pub fn is_chunk_event(event_type: Option<&str>) -> (r: bool)
    ensures
        r == (opt_str_view(event_type) == Some(crate::events::EVENT_FILE_CHUNK@)),
{
    match event_type {
        Some(t) => text_is(&owned(t), crate::events::EVENT_FILE_CHUNK),
        None => false,
    }
}

/// What the sync loop does with a room event.
pub enum TimelineAction {
    /// Send the chunks of the offer to a device of a user.
    SendFile { offer_id: String, recipient: String, device: String },
    /// Show an offer that was just posted.
    ShowOffer(FileOfferData),
    /// Nothing.
    Ignore,
}

/// What the sync loop does with a room event of type `event_type` from
/// `sender`, whose content reads as `request` or as `offer` (where it
/// does): a request addressed to `our_user` is served by sending the file
/// to the requesting device; a new offer is shown; anything else is
/// passed over.
pub fn timeline_action(
    event_type: Option<&str>,
    sender: Option<&str>,
    request: Option<FileRequestContent>,
    offer: Option<FileOfferContent>,
    our_user: &str,
    room_id: &str,
) -> (r: TimelineAction)
    ensures
        opt_str_view(event_type) == Some(EVENT_FILE_REQUEST@) ==> match request {
            Some(q) => if q.target_user@ == our_user@ {
                r matches TimelineAction::SendFile { offer_id, recipient, device } && offer_id@
                    == q.offer_id@ && recipient@ == (match sender {
                    Some(s) => s@,
                    None => Seq::empty(),
                }) && device@ == q.requester_device_id@
            } else {
                r is Ignore
            },
            None => r is Ignore,
        },
        opt_str_view(event_type) == Some(EVENT_FILE_OFFER@) ==> match offer {
            Some(c) => r matches TimelineAction::ShowOffer(d) && offer_data_is(
                d,
                c,
                match sender {
                    Some(s) => s@,
                    None => Seq::empty(),
                },
                room_id@,
            ),
            None => r is Ignore,
        },
        opt_str_view(event_type) != Some(EVENT_FILE_REQUEST@) && opt_str_view(event_type) != Some(
            EVENT_FILE_OFFER@,
        ) ==> r is Ignore,
{
    let t = match event_type {
        Some(t) => owned(t),
        None => {
            return TimelineAction::Ignore;
        },
    };
    let who = match sender {
        Some(s) => owned(s),
        None => String::new(),
    };
    proof {
        reveal_strlit("com.fileshare.request");
        reveal_strlit("com.fileshare.offer");
        assert(EVENT_FILE_REQUEST@.len() != EVENT_FILE_OFFER@.len());
    }
    if text_is(&t, EVENT_FILE_REQUEST) {
        match request {
            Some(q) => {
                if text_is(&q.target_user, our_user) {
                    TimelineAction::SendFile {
                        offer_id: q.offer_id,
                        recipient: who,
                        device: q.requester_device_id,
                    }
                } else {
                    TimelineAction::Ignore
                }
            },
            None => TimelineAction::Ignore,
        }
    } else if text_is(&t, EVENT_FILE_OFFER) {
        match offer {
            Some(c) => TimelineAction::ShowOffer(offer_data_from_content(c, who, room_id)),
            None => TimelineAction::Ignore,
        }
    } else {
        TimelineAction::Ignore
    }
}

} // verus!

verus! {

/// Giving a homeserver address a scheme twice changes nothing more.
pub proof fn lemma_homeserver_url_idempotent(homeserver: Seq<char>)
    ensures
        homeserver_url(homeserver_url(homeserver)) == homeserver_url(homeserver),
{
    reveal_strlit("http");
    reveal_strlit("https://");
    if !has_prefix(homeserver, "http"@) {
        let u = "https://"@ + homeserver;
        assert(u.subrange(0, 4) =~= "http"@);
    }
}

/// A homeserver address always gets a scheme: one that begins with `http`
/// is kept as it is, and any other is the host under `https://`.
pub proof fn lemma_homeserver_url_has_scheme(homeserver: Seq<char>)
    ensures
        homeserver_url(homeserver).len() >= 4,
        homeserver_url(homeserver).take(4) == seq!['h', 't', 't', 'p'],
        has_prefix(homeserver, seq!['h', 't', 't', 'p']) ==> homeserver_url(homeserver)
            == homeserver,
        !has_prefix(homeserver, seq!['h', 't', 't', 'p']) ==> homeserver_url(homeserver) == seq![
            'h',
            't',
            't',
            'p',
            's',
            ':',
            '/',
            '/',
        ] + homeserver,
{
    reveal_strlit("http");
    reveal_strlit("https://");
    assert("http"@ =~= seq!['h', 't', 't', 'p']);
    assert("https://"@ =~= seq!['h', 't', 't', 'p', 's', ':', '/', '/']);
    if has_prefix(homeserver, "http"@) {
        assert(homeserver.take(4) =~= homeserver.subrange(0, 4));
    } else {
        assert(("https://"@ + homeserver).take(4) =~= "http"@);
    }
}

/// A refused login is reported as rate limiting exactly when its error
/// names status 429 or, in lowercase, speaks of a rate or a limit; any
/// other error is shown after `Login failed: `.
pub proof fn lemma_login_failure_cases(error: Seq<char>)
    ensures
        contains_text(error, "429"@) ==> login_failure(error)
            == "Rate limited by server. Please wait a minute and try again."@,
        contains_text(unicode_lowercase(error), "rate"@) ==> login_failure(error)
            == "Rate limited by server. Please wait a minute and try again."@,
        contains_text(unicode_lowercase(error), "limit"@) ==> login_failure(error)
            == "Rate limited by server. Please wait a minute and try again."@,
        !contains_text(error, "429"@) && !contains_text(unicode_lowercase(error), "rate"@)
            && !contains_text(unicode_lowercase(error), "limit"@) ==> login_failure(error)
            == "Login failed: "@ + error,
{
}

/// An offer seen in a room keeps every field of what was posted, and
/// gains the sender and the room it was seen in.
pub proof fn lemma_seen_offer_keeps_the_posted_fields(
    d: FileOfferData,
    c: FileOfferContent,
    sender: Seq<char>,
    room_id: Seq<char>,
)
    requires
        offer_data_is(d, c, sender, room_id),
    ensures
        d.offer_id@ == c.offer_id@,
        d.filename@ == c.filename@,
        d.size == c.size,
        d.mimetype@ == c.mimetype@,
        d.sha256@ == c.sha256@,
        opt_view(d.description) == opt_view(c.description),
        opt_view(d.sender_device_id) == opt_view(c.sender_device_id),
        opt_view(d.iroh_ticket) == opt_view(c.iroh_ticket),
        d.sender_user_id@ == sender,
        d.room_id@ == room_id,
{
}

/// The percentage a terminal shows is the whole percentage of the bytes
/// sent, rounded down (0 for an empty total).
pub proof fn lemma_percent_rounds_down(bytes: u64, total: u64)
    ensures
        total > 0 ==> percent(bytes, total) * total <= bytes * 100 < (percent(bytes, total) + 1)
            * total,
        total == 0 ==> percent(bytes, total) == 0,
{
    if total > 0 {
        let p = (bytes * 100) / (total as int);
        assert(p * total <= bytes * 100 < (p + 1) * total) by (nonlinear_arith)
            requires
                total > 0,
                p == (bytes * 100) / (total as int),
                bytes >= 0,
        ;
    }
}

/// What a terminal shows for each event: a progress line with the status,
/// the percentage and both sizes; a completion line with the path where
/// there is one; a failure line where there is an error; nothing for a
/// progress event short of a field, a failure without an error, or any
/// other event.
pub proof fn lemma_progress_lines(
    event: Seq<char>,
    bytes: Option<u64>,
    total: Option<u64>,
    status: Option<Seq<char>>,
    file_path: Option<Seq<char>>,
    error: Option<Seq<char>>,
)
    ensures
        event == "transfer-progress"@ ==> match (bytes, total, status) {
            (Some(b), Some(t), Some(s)) => cli_progress_line(
                event,
                bytes,
                total,
                status,
                file_path,
                error,
            ) == Some(
                "\r  "@ + s + " "@ + decimal(percent(b, t)) + "% ("@ + size_text(b as nat) + "/"@
                    + size_text(t as nat) + ")"@,
            ),
            _ => cli_progress_line(event, bytes, total, status, file_path, error) is None,
        },
        event == "transfer-complete"@ ==> cli_progress_line(
            event,
            bytes,
            total,
            status,
            file_path,
            error,
        ) == Some(
            match file_path {
                Some(p) => "\n  Transfer complete: "@ + p + "\n"@,
                None => "\n  Transfer complete.\n"@,
            },
        ),
        event == "transfer-failed"@ ==> cli_progress_line(
            event,
            bytes,
            total,
            status,
            file_path,
            error,
        ) == match error {
            Some(e) => Some("\n  Transfer failed: "@ + e + "\n"@),
            None => None,
        },
        event != "transfer-progress"@ && event != "transfer-complete"@ && event
            != "transfer-failed"@ ==> cli_progress_line(
            event,
            bytes,
            total,
            status,
            file_path,
            error,
        ) is None,
{
    reveal_strlit("transfer-progress");
    reveal_strlit("transfer-complete");
    reveal_strlit("transfer-failed");
    assert("transfer-progress"@[9] == 'p' && "transfer-complete"@[9] == 'c'
        && "transfer-failed"@[9] == 'f');
}

} // verus!
