//! What the server decides on each message of a browser's WebSocket
//! connection, and the small pieces of its HTTP routes that are logic rather
//! than transport.

use std::collections::HashSet;
use vstd::prelude::*;

use crate::ids::{Sid, Uid};
use crate::protocol::{
    NewShell, ServerMessage, TerminalInput, TerminalSize, WsClient, WsServer, WsWinsize,
};
use crate::session::{changed_user, error_text, Metadata, Session, SessionError, UserChange};

verus! {

broadcast use vstd::std_specs::hash::group_hash_axioms;

/// subtle's `ConstantTimeEq::ct_eq` on byte slices, turned into a `bool`:
/// true exactly when the slices have the same length and the same bytes.
#[verifier::external_body]
fn ct_eq_bytes(a: &[u8], b: &[u8]) -> (r: bool)
    ensures
        r == (a@ == b@),
{
    bool::from(subtle::ConstantTimeEq::ct_eq(a, b))
}

/// The outcome of the first message of a connection: `None` if the client
/// is turned away, otherwise whether it may write.
pub open spec fn auth_outcome(meta: Metadata, msg: Option<WsClient>) -> Option<bool> {
    match msg {
        Some(WsClient::Authenticate(key, password)) => {
            if key@ != meta.encrypted_zeros@ {
                None
            } else {
                match (password, meta.write_password_hash) {
                    (_, None) => Some(true),
                    (None, Some(_)) => Some(false),
                    (Some(given), Some(stored)) => if given@ == stored@ {
                        Some(true)
                    } else {
                        None
                    },
                }
            }
        },
        _ => None,
    }
}

/// Checks the first message of a connection against the session's keys,
/// comparing in constant time. A client that proves the encryption key may
/// write when the session has no write password; with a password it may
/// write only if it gives the right one, and only watch if it gives none.
pub fn authenticate(metadata: &Metadata, msg: Option<WsClient>) -> (r: Option<bool>)
    ensures
        r == auth_outcome(*metadata, msg),
{
    match msg {
        Some(WsClient::Authenticate(key, password)) => {
            if !ct_eq_bytes(key.as_slice(), metadata.encrypted_zeros.as_slice()) {
                return None;
            }
            match (password, &metadata.write_password_hash) {
                (_, None) => Some(true),
                (None, Some(_)) => Some(false),
                (Some(given), Some(stored)) => {
                    if !ct_eq_bytes(given.as_slice(), stored.as_slice()) {
                        None
                    } else {
                        Some(true)
                    }
                },
            }
        },
        _ => None,
    }
}

/// Only a client that proves the encryption key is admitted, and when the
/// session has a write password, only a client that gives it may write.
pub proof fn law_admission_needs_keys(meta: Metadata, msg: Option<WsClient>)
    ensures
        auth_outcome(meta, msg) is Some ==> (msg matches Some(WsClient::Authenticate(key, _))
            && key@ == meta.encrypted_zeros@),
        auth_outcome(meta, msg) == Some(true) && meta.write_password_hash is Some ==> (msg matches Some(
            WsClient::Authenticate(_, Some(given)),
        ) && given@ == meta.write_password_hash->0@),
{
}

/// One effect of a browser message.
#[derive(Debug)]
pub enum SocketAction {
    /// Send this message to the browser that sent the message.
    Send(WsServer),
    /// Send this message to every browser of the session.
    Broadcast(WsServer),
    /// Send this message to the terminal client.
    Backend(ServerMessage),
    /// Start streaming the output of this shell from this chunk on.
    Subscribe(Sid, u64),
    /// The shell list changed; publish it to the browsers.
    ShellsChanged,
    /// Ask for the session to be persisted now.
    SyncNow,
    /// Close the connection.
    Close,
}

/// Whether an action reports error `e` back to the browser.
pub open spec fn reports(a: SocketAction, e: SessionError) -> bool {
    match a {
        SocketAction::Send(WsServer::Error(text)) => text@ == error_text(e),
        _ => false,
    }
}

fn reply_error(e: SessionError) -> (a: SocketAction)
    ensures
        reports(a, e),
{
    SocketAction::Send(WsServer::Error(e.message()))
}

/// Handles one message from the browser of user `user_id`, after it has
/// authenticated. `subscribed` holds the shells this connection already
/// streams. An error ends the connection.
pub fn handle_message<L, U, D>(
    session: &mut Session<L, U, D>,
    user_id: Uid,
    subscribed: &mut HashSet<u32>,
    msg: WsClient,
) -> (r: Result<Vec<SocketAction>, SessionError>)
    requires
        old(session).wf(),
    ensures
        final(session).wf(),
        final(session).meta() == old(session).meta(),
        match msg {
            WsClient::SetName(name) => {
                &&& final(subscribed)@ == old(subscribed)@
                &&& name@.len() == 0 ==> r is Ok && r->Ok_0@.len() == 0
                &&& name@.len() == 0 ==> final(session).same_as(old(session))
                &&& name@.len() > 0 ==> user_change_effect(
                    old(session),
                    final(session),
                    user_id,
                    UserChange::SetName(name),
                    r,
                )
            },
            WsClient::SetCursor(cursor) => {
                &&& final(subscribed)@ == old(subscribed)@
                &&& user_change_effect(
                    old(session),
                    final(session),
                    user_id,
                    UserChange::SetCursor(cursor),
                    r,
                )
            },
            WsClient::SetFocus(focus) => {
                &&& final(subscribed)@ == old(subscribed)@
                &&& user_change_effect(
                    old(session),
                    final(session),
                    user_id,
                    UserChange::SetFocus(focus),
                    r,
                )
            },
            WsClient::Create(x, y) => {
                &&& final(subscribed)@ == old(subscribed)@
                &&& final(session).shells() == old(session).shells()
                &&& final(session).users() == old(session).users()
                &&& final(session).shell_list() == old(session).shell_list()
                &&& final(session).relays() == old(session).relays()
                &&& r is Ok
                &&& match old(session).write_error(user_id) {
                    Some(e) => {
                        &&& final(session).ids() == old(session).ids()
                        &&& r->Ok_0@.len() == 1
                        &&& reports(r->Ok_0@[0], e)
                    },
                    None => {
                        let id = old(session).ids().sid_value();
                        &&& final(session).ids().sid_value() == crate::ids::next_id(id)
                        &&& final(session).ids().uid_value() == old(session).ids().uid_value()
                        &&& r->Ok_0@ == seq![
                            SocketAction::SyncNow,
                            SocketAction::Backend(
                                ServerMessage::CreateShell(NewShell { id, x, y }),
                            ),
                        ]
                    },
                }
            },
            WsClient::Close(id) => {
                &&& final(subscribed)@ == old(subscribed)@
                &&& final(session).same_as(old(session))
                &&& r is Ok
                &&& match old(session).write_error(user_id) {
                    Some(e) => r->Ok_0@.len() == 1 && reports(r->Ok_0@[0], e),
                    None => r->Ok_0@ == seq![
                        SocketAction::Backend(ServerMessage::CloseShell(id.0)),
                    ],
                }
            },
            WsClient::Move(id, winsize) => {
                &&& final(subscribed)@ == old(subscribed)@
                &&& final(session).shells() == old(session).shells()
                &&& final(session).users() == old(session).users()
                &&& final(session).ids() == old(session).ids()
                &&& final(session).relays() == old(session).relays()
                &&& r is Ok
                &&& match old(session).write_error(user_id) {
                    Some(e) => {
                        &&& final(session).shell_list() == old(session).shell_list()
                        &&& r->Ok_0@.len() == 1
                        &&& reports(r->Ok_0@[0], e)
                    },
                    None => if !old(session).shells().contains_key(id.0) {
                        &&& final(session).shell_list() == old(session).shell_list()
                        &&& r->Ok_0@.len() == 1
                        &&& reports(r->Ok_0@[0], SessionError::UpdateMissing(id))
                    } else if old(session).shells()[id.0].closed {
                        &&& final(session).shell_list() == old(session).shell_list()
                        &&& r->Ok_0@.len() == 1
                        &&& reports(r->Ok_0@[0], SessionError::UpdateClosed(id))
                    } else {
                        let i = crate::session::shell_index(old(session).shell_list(), id);
                        let old_size = old(session).shell_list()[i].1;
                        &&& final(session).shell_list() == old(session).shell_list().remove(
                            i,
                        ).push(
                            (
                                id,
                                match winsize {
                                    Some(w) => w,
                                    None => old_size,
                                },
                            ),
                        )
                        &&& r->Ok_0@ == match winsize {
                            Some(w) => seq![
                                SocketAction::ShellsChanged,
                                SocketAction::Backend(
                                    ServerMessage::Resize(
                                        TerminalSize {
                                            id: id.0,
                                            rows: w.rows as u32,
                                            cols: w.cols as u32,
                                        },
                                    ),
                                ),
                            ],
                            None => seq![SocketAction::ShellsChanged],
                        }
                    },
                }
            },
            WsClient::Data(id, data, offset) => {
                &&& final(subscribed)@ == old(subscribed)@
                &&& final(session).same_as(old(session))
                &&& r is Ok
                &&& match old(session).write_error(user_id) {
                    Some(e) => r->Ok_0@.len() == 1 && reports(r->Ok_0@[0], e),
                    None => r->Ok_0@ == seq![
                        SocketAction::Backend(
                            ServerMessage::Input(TerminalInput { id: id.0, data, offset }),
                        ),
                    ],
                }
            },
            WsClient::Subscribe(id, chunknum) => {
                &&& final(session).same_as(old(session))
                &&& final(subscribed)@ == old(subscribed)@.insert(id.0)
                &&& r is Ok
                &&& old(subscribed)@.contains(id.0) ==> r->Ok_0@.len() == 0
                &&& !old(subscribed)@.contains(id.0) ==> r->Ok_0@ == seq![
                    SocketAction::Subscribe(id, chunknum),
                ]
            },
            WsClient::Chat(text) => {
                &&& final(subscribed)@ == old(subscribed)@
                &&& final(session).same_as(old(session))
                &&& !old(session).users().contains_key(user_id.0) ==> r == Err::<
                    Vec<SocketAction>,
                    SessionError,
                >(SessionError::UserNotFound(user_id))
                &&& old(session).users().contains_key(user_id.0) ==> r is Ok && r->Ok_0@.len()
                    == 1 && match r->Ok_0@[0] {
                    SocketAction::Broadcast(WsServer::Hear(uid, name, said)) => uid == user_id
                        && name == old(session).users()[user_id.0].name && said@ == text@,
                    _ => false,
                }
            },
            WsClient::Ping(ts) => {
                &&& final(subscribed)@ == old(subscribed)@
                &&& final(session).same_as(old(session))
                &&& r is Ok && r->Ok_0@ == seq![SocketAction::Send(WsServer::Pong(ts))]
            },
            WsClient::Kick(_) => {
                &&& final(subscribed)@ == old(subscribed)@
                &&& final(session).same_as(old(session))
                &&& r is Ok && r->Ok_0@.len() == 2 && r->Ok_0@[1] == SocketAction::Close
                    && match r->Ok_0@[0] {
                    SocketAction::Backend(ServerMessage::Kick(name)) => name
                        == old(session).meta().name,
                    _ => false,
                }
            },
            WsClient::Authenticate(_, _) => {
                &&& final(subscribed)@ == old(subscribed)@
                &&& final(session).same_as(old(session))
                &&& r is Ok && r->Ok_0@.len() == 0
            },
        },
{
    let mut actions: Vec<SocketAction> = Vec::new();
    match msg {
        WsClient::Authenticate(_, _) => {},
        WsClient::SetName(name) => {
            if !name.as_str().is_empty() {
                let diff = session.update_user(user_id, UserChange::SetName(name))?;
                actions.push(SocketAction::Broadcast(diff));
            }
        },
        WsClient::SetCursor(cursor) => {
            let diff = session.update_user(user_id, UserChange::SetCursor(cursor))?;
            actions.push(SocketAction::Broadcast(diff));
        },
        WsClient::SetFocus(focus) => {
            let diff = session.update_user(user_id, UserChange::SetFocus(focus))?;
            actions.push(SocketAction::Broadcast(diff));
        },
        WsClient::Create(x, y) => {
            if let Err(e) = session.check_write_permission(user_id) {
                actions.push(reply_error(e));
                return Ok(actions);
            }
            let id = session.next_sid();
            actions.push(SocketAction::SyncNow);
            actions.push(
                SocketAction::Backend(ServerMessage::CreateShell(NewShell { id: id.0, x, y })),
            );
        },
        WsClient::Close(id) => {
            if let Err(e) = session.check_write_permission(user_id) {
                actions.push(reply_error(e));
                return Ok(actions);
            }
            actions.push(SocketAction::Backend(ServerMessage::CloseShell(id.0)));
        },
        WsClient::Move(id, winsize) => {
            if let Err(e) = session.check_write_permission(user_id) {
                actions.push(reply_error(e));
                return Ok(actions);
            }
            if let Err(e) = session.move_shell(id, winsize) {
                actions.push(reply_error(e));
                return Ok(actions);
            }
            actions.push(SocketAction::ShellsChanged);
            if let Some(w) = winsize {
                actions.push(
                    SocketAction::Backend(
                        ServerMessage::Resize(
                            TerminalSize { id: id.0, rows: w.rows as u32, cols: w.cols as u32 },
                        ),
                    ),
                );
            }
        },
        WsClient::Data(id, data, offset) => {
            if let Err(e) = session.check_write_permission(user_id) {
                actions.push(reply_error(e));
                return Ok(actions);
            }
            actions.push(
                SocketAction::Backend(
                    ServerMessage::Input(TerminalInput { id: id.0, data, offset }),
                ),
            );
        },
        WsClient::Subscribe(id, chunknum) => {
            if !subscribed.contains(&id.0) {
                subscribed.insert(id.0);
                actions.push(SocketAction::Subscribe(id, chunknum));
            } else {
                assert(subscribed@.insert(id.0) =~= subscribed@);
            }
        },
        WsClient::Chat(text) => {
            let hear = session.send_chat(user_id, text.as_str())?;
            actions.push(SocketAction::Broadcast(hear));
        },
        WsClient::Ping(ts) => {
            actions.push(SocketAction::Send(WsServer::Pong(ts)));
        },
        WsClient::Kick(_) => {
            let name = session.metadata().name.clone();
            actions.push(SocketAction::Backend(ServerMessage::Kick(name)));
            actions.push(SocketAction::Close);
        },
    }
    Ok(actions)
}

/// Whether `c` is a digit of lowercase hexadecimal.
pub open spec fn is_lower_hex(c: char) -> bool {
    ('0' <= c && c <= '9') || ('a' <= c && c <= 'f')
}

/// Whether `s` is a random (version 4) UUID written in the hyphenated
/// lowercase form: 36 characters, hyphens at positions 8, 13, 18 and 23, hex
/// digits elsewhere, the version digit 4 at position 14 and one of 8, 9, a, b
/// (the variant) at position 19.
pub open spec fn is_uuid_text(s: Seq<char>) -> bool {
    &&& s.len() == 36
    &&& s[14] == '4'
    &&& (s[19] == '8' || s[19] == '9' || s[19] == 'a' || s[19] == 'b')
    &&& forall|i: int|
        0 <= i < 36 ==> if i == 8 || i == 13 || i == 18 || i == 23 {
            s[i] == '-'
        } else {
            is_lower_hex(#[trigger] s[i])
        }
}

/// uuid's `Uuid::new_v4()`, written with `to_string()`: a random UUID in
/// the hyphenated lowercase form. Which UUID comes out is left open.
#[verifier::external_body]
fn random_uuid_text() -> (s: String)
    ensures
        is_uuid_text(s@),
{
    uuid::Uuid::new_v4().to_string()
}

/// A request token: the session name, a bar, and a nonce.
pub fn join_token(session_name: &str, nonce: &str) -> (t: String)
    ensures
        t@ == session_name@ + "|"@ + nonce@,
{
    let mut t = String::from_str(session_name);
    t.append("|");
    t.append(nonce);
    t
}

/// A fresh token for a request relayed to the terminal client: the session
/// name, a bar, and a random UUID, so that the session name is everything
/// before the last bar.
pub fn request_token(session_name: &str) -> (t: String)
    ensures
        exists|nonce: Seq<char>| is_uuid_text(nonce) && t@ == session_name@ + "|"@ + nonce,
{
    let nonce = random_uuid_text();
    join_token(session_name, nonce.as_str())
}

/// The address of the same session on the server `host` that holds it.
pub fn upstream_url(host: &str, name: &str) -> (u: String)
    ensures
        u@ == "ws://"@ + host@ + "/api/s/"@ + name@,
{
    let mut u = String::from_str("ws://");
    u.append(host);
    u.append("/api/s/");
    u.append(name);
    u
}

/// Whether the list of session names may be shown: the `Authorization`
/// header must be nonempty and, read as text, equal the server's secret.
pub fn session_list_authorized(header_is_empty: bool, header_text: &str, secret: &str) -> (b: bool)
    ensures
        b == (!header_is_empty && header_text@ == secret@),
{
    if header_is_empty {
        return false;
    }
    let given = String::from_str(header_text);
    let expected = String::from_str(secret);
    given == expected
}

/// What a file route does with a request, given its `Session` header.
#[derive(Debug)]
pub enum FileRoute {
    /// Go on with the session that was found.
    Proceed,
    /// Answer with an empty list.
    EmptyList,
    /// Answer 400 with this text.
    BadRequest(String),
}

/// The directory-listing route: no `Session` header is a bad request, an
/// empty one gets an empty list, a session this server does not hold is a
/// bad request, and otherwise the listing goes ahead.
pub fn list_directory_route(header_present: bool, header_empty: bool, found: bool) -> (r: FileRoute)
    ensures
        !header_present ==> (r matches FileRoute::BadRequest(t) && t@ == "Session name is required"@),
        header_present && header_empty ==> r is EmptyList,
        header_present && !header_empty && !found ==> (r matches FileRoute::BadRequest(t) && t@
            == "Session not found"@),
        header_present && !header_empty && found ==> r is Proceed,
{
    if !header_present {
        FileRoute::BadRequest(String::from_str("Session name is required"))
    } else if header_empty {
        FileRoute::EmptyList
    } else if !found {
        FileRoute::BadRequest(String::from_str("Session not found"))
    } else {
        FileRoute::Proceed
    }
}

/// The upload route: no `Session` header, an empty session name, or a
/// session this server does not hold is a bad request; otherwise the upload
/// goes ahead.
pub fn upload_file_route(header_present: bool, name_empty: bool, found: bool) -> (r: FileRoute)
    ensures
        !header_present ==> (r matches FileRoute::BadRequest(t) && t@ == "Session name is required"@),
        header_present && name_empty ==> (r matches FileRoute::BadRequest(t) && t@
            == "Session name cannot be empty"@),
        header_present && !name_empty && !found ==> (r matches FileRoute::BadRequest(t) && t@
            == "Session not found"@),
        header_present && !name_empty && found ==> r is Proceed,
{
    if !header_present {
        FileRoute::BadRequest(String::from_str("Session name is required"))
    } else if name_empty {
        FileRoute::BadRequest(String::from_str("Session name cannot be empty"))
    } else if !found {
        FileRoute::BadRequest(String::from_str("Session not found"))
    } else {
        FileRoute::Proceed
    }
}

/// How a WebSocket connection is closed when it cannot be served.
#[derive(Debug)]
pub struct CloseFrame {
    pub code: u16,
    pub reason: String,
}

/// Close code sent when no server holds the requested session.
pub const CLOSE_NOT_FOUND: u16 = 4404;

/// Close code sent when connecting or proxying failed.
pub const CLOSE_ERROR: u16 = 4500;

/// The frame that tells a browser its session does not exist.
pub fn not_found_frame() -> (f: CloseFrame)
    ensures
        f.code == CLOSE_NOT_FOUND,
        f.reason@ == "could not find the requested session"@,
{
    CloseFrame { code: CLOSE_NOT_FOUND, reason: String::from_str("could not find the requested session") }
}

/// The frame that tells a browser that `stage` failed with `err`, as in
/// "session connect: ..." or "proxy redirect: ...".
pub fn error_frame(stage: &str, err: &str) -> (f: CloseFrame)
    ensures
        f.code == CLOSE_ERROR,
        f.reason@ == stage@ + ": "@ + err@,
{
    let mut reason = String::from_str(stage);
    reason.append(": ");
    reason.append(err);
    CloseFrame { code: CLOSE_ERROR, reason }
}

/// The effect of a user changing its own presence: the user is updated and
/// the update broadcast, or, if the user is gone, the connection ends.
pub open spec fn user_change_effect<L, U, D>(
    before: &Session<L, U, D>,
    after: &Session<L, U, D>,
    user_id: Uid,
    change: UserChange,
    r: Result<Vec<SocketAction>, SessionError>,
) -> bool {
    &&& after.shells() == before.shells()
    &&& after.shell_list() == before.shell_list()
    &&& after.ids() == before.ids()
    &&& after.relays() == before.relays()
    &&& !before.users().contains_key(user_id.0) ==> {
        &&& r == Err::<Vec<SocketAction>, SessionError>(SessionError::UserNotFound(user_id))
        &&& after.users() == before.users()
    }
    &&& before.users().contains_key(user_id.0) ==> {
        let user = changed_user(before.users()[user_id.0], change);
        &&& after.users() == before.users().insert(user_id.0, user)
        &&& r is Ok
        &&& r->Ok_0@ == seq![SocketAction::Broadcast(WsServer::UserDiff(user_id, Some(user)))]
    }
}

} // verus!
