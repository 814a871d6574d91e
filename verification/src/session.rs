//! The in-memory state of one sshx session on the server, independent of how
//! messages reach it: the shells with their output buffers, the ordered list
//! of open shells with their window positions, and the connected users.

use std::collections::HashMap;
use vstd::prelude::*;

use crate::ids::{IdCounter, Sid, Uid};
use crate::pending::{
    after_chunk_delivery, download_complete_notice, finish_wait, resolution, resolve_response,
    wait_answer, ChunkFollowUp, Pending, RequestError, WaitOutcome,
};
use crate::protocol::{
    FileUploadResponse, ListDirectoryResponse, SequenceNumbers, ServerMessage, WsServer, WsUser,
    WsWinsize,
};
use crate::shell::{
    is_run, lemma_close_grows, lemma_grows_to_reflexive, lemma_receive_grows, ShellState, ShellView,
};
use crate::text::{decimal, u32_to_decimal};

verus! {

broadcast use vstd::std_specs::hash::group_hash_axioms;

/// Static metadata of a session.
#[derive(Clone, Debug)]
pub struct Metadata {
    /// Lets the server check that a client holds the right encryption key.
    pub encrypted_zeros: Vec<u8>,
    /// Human-readable name of the session.
    pub name: String,
    /// Hash of the password that grants write access, if there is one.
    pub write_password_hash: Option<Vec<u8>>,
}

/// Why a session operation was refused.
#[derive(Clone, Copy, Debug, PartialEq, Eq, Structural)]
pub enum SessionError {
    /// A shell with this id was added before.
    ShellExists(Sid),
    /// No shell with this id exists to close.
    CloseMissing(Sid),
    /// No shell with this id exists to update.
    UpdateMissing(Sid),
    /// The shell to update has already terminated.
    UpdateClosed(Sid),
    /// A user with this id is already connected.
    UserExists(Uid),
    /// No connected user has this id.
    UserNotFound(Uid),
    /// The user may only watch.
    NoWritePermission(Uid),
}

/// The text of an error, as reported to clients.
pub open spec fn error_text(e: SessionError) -> Seq<char> {
    match e {
        SessionError::ShellExists(id) => "shell already exists with id="@ + decimal(id.0 as nat),
        SessionError::CloseMissing(id) => "cannot close shell with id="@ + decimal(id.0 as nat)
            + ", does not exist"@,
        SessionError::UpdateMissing(id) => "cannot update shell with id="@ + decimal(id.0 as nat)
            + ", does not exist"@,
        SessionError::UpdateClosed(id) => "cannot update shell with id="@ + decimal(id.0 as nat)
            + ", already closed"@,
        SessionError::UserExists(id) => "user already exists with id="@ + decimal(id.0 as nat),
        SessionError::UserNotFound(_) => "user not found"@,
        SessionError::NoWritePermission(_) => "No write permission"@,
    }
}

impl SessionError {
    /// The text of this error, as reported to clients.
    pub fn message(&self) -> (s: String)
        ensures
            s@ == error_text(*self),
    {
        match self {
            SessionError::ShellExists(id) => {
                let mut s = String::from_str("shell already exists with id=");
                s.append(u32_to_decimal(id.0).as_str());
                s
            },
            SessionError::CloseMissing(id) => {
                let mut s = String::from_str("cannot close shell with id=");
                s.append(u32_to_decimal(id.0).as_str());
                s.append(", does not exist");
                s
            },
            SessionError::UpdateMissing(id) => {
                let mut s = String::from_str("cannot update shell with id=");
                s.append(u32_to_decimal(id.0).as_str());
                s.append(", does not exist");
                s
            },
            SessionError::UpdateClosed(id) => {
                let mut s = String::from_str("cannot update shell with id=");
                s.append(u32_to_decimal(id.0).as_str());
                s.append(", already closed");
                s
            },
            SessionError::UserExists(id) => {
                let mut s = String::from_str("user already exists with id=");
                s.append(u32_to_decimal(id.0).as_str());
                s
            },
            SessionError::UserNotFound(_) => String::from_str("user not found"),
            SessionError::NoWritePermission(_) => String::from_str("No write permission"),
        }
    }
}

/// A change a user makes to its own presence.
#[derive(Clone, Debug)]
pub enum UserChange {
    SetName(String),
    SetCursor(Option<(i32, i32)>),
    SetFocus(Option<Sid>),
}

/// The user after a change.
pub open spec fn changed_user(user: WsUser, change: UserChange) -> WsUser {
    match change {
        UserChange::SetName(name) => WsUser { name, ..user },
        UserChange::SetCursor(cursor) => WsUser { cursor, ..user },
        UserChange::SetFocus(focus) => WsUser { focus, ..user },
    }
}

/// A change sets exactly the field it names, to exactly the value it
/// carries (clearing a cursor or focus included), and leaves the user's
/// other fields as they were.
pub proof fn law_user_change_sets_its_field(user: WsUser, change: UserChange)
    ensures
        ({
            let u = changed_user(user, change);
            &&& u.can_write == user.can_write
            &&& match change {
                UserChange::SetName(name) => u.name == name && u.cursor == user.cursor && u.focus
                    == user.focus,
                UserChange::SetCursor(cursor) => u.cursor == cursor && u.name == user.name
                    && u.focus == user.focus,
                UserChange::SetFocus(focus) => u.focus == focus && u.name == user.name && u.cursor
                    == user.cursor,
            }
        }),
{
}

/// Position in the shell list of the entry for `id`.
pub open spec fn shell_index(list: Seq<(Sid, WsWinsize)>, id: Sid) -> int {
    choose|i: int| 0 <= i < list.len() && list[i].0 == id
}

/// The shell list names each shell at most once.
pub open spec fn distinct_ids(list: Seq<(Sid, WsWinsize)>) -> bool {
    forall|i: int, j: int| 0 <= i < j < list.len() ==> list[i].0 != list[j].0
}

/// The name a new user starts with: "User " and its id in decimal.
pub open spec fn default_user_name(id: Uid) -> Seq<char> {
    "User "@ + decimal(id.0 as nat)
}

/// Whether the shell `k` exists and is still open.
pub open spec fn open_in(shells: Map<u32, ShellView>, k: u32) -> bool {
    shells.contains_key(k) && !shells[k].closed
}

/// The shell list names each open shell exactly once, and nothing else.
pub open spec fn list_matches(shells: Map<u32, ShellView>, list: Seq<(Sid, WsWinsize)>) -> bool {
    &&& distinct_ids(list)
    &&& forall|i: int| 0 <= i < list.len() ==> open_in(shells, #[trigger] list[i].0.val())
    &&& forall|k: u32|
        #[trigger] open_in(shells, k) ==> exists|i: int|
            0 <= i < list.len() && #[trigger] list[i].0.val() == k
}

proof fn lemma_index_unique(list: Seq<(Sid, WsWinsize)>, idx: int, id: Sid)
    requires
        distinct_ids(list),
        0 <= idx < list.len(),
        list[idx].0 == id,
    ensures
        shell_index(list, id) == idx,
{
    let j = shell_index(list, id);
    assert(0 <= j < list.len() && list[j].0 == id);
    if j < idx {
        assert(list[j].0 != list[idx].0);
    } else if idx < j {
        assert(list[idx].0 != list[j].0);
    }
}

proof fn lemma_list_add(
    shells: Map<u32, ShellView>,
    list: Seq<(Sid, WsWinsize)>,
    id: Sid,
    size: WsWinsize,
    v: ShellView,
)
    requires
        list_matches(shells, list),
        !shells.contains_key(id.0),
        !v.closed,
    ensures
        list_matches(shells.insert(id.0, v), list.push((id, size))),
{
    let s2 = shells.insert(id.0, v);
    let l2 = list.push((id, size));
    assert forall|i: int| 0 <= i < l2.len() implies open_in(s2, #[trigger] l2[i].0.val()) by {
        if i < list.len() {
            assert(open_in(shells, list[i].0.val()));
        }
    }
    assert forall|k: u32| #[trigger] open_in(s2, k) implies exists|i: int|
        0 <= i < l2.len() && #[trigger] l2[i].0.val() == k by {
        if k == id.0 {
            assert(l2[l2.len() - 1].0.val() == k);
        } else {
            assert(open_in(shells, k));
            let i = choose|i: int| 0 <= i < list.len() && #[trigger] list[i].0.val() == k;
            assert(l2[i].0.val() == k);
        }
    }
    assert forall|a: int, b: int| 0 <= a < b < l2.len() implies l2[a].0 != l2[b].0 by {
        if b == list.len() {
            assert(open_in(shells, list[a].0.val()));
        }
    }
}

proof fn lemma_list_close(
    shells: Map<u32, ShellView>,
    list: Seq<(Sid, WsWinsize)>,
    idx: int,
    v: ShellView,
)
    requires
        list_matches(shells, list),
        0 <= idx < list.len(),
        v.closed,
    ensures
        list_matches(shells.insert(list[idx].0.val(), v), list.remove(idx)),
{
    let id = list[idx].0;
    let s2 = shells.insert(id.0, v);
    let l2 = list.remove(idx);
    assert forall|i: int| 0 <= i < l2.len() implies open_in(s2, #[trigger] l2[i].0.val()) by {
        if i < idx {
            assert(l2[i] == list[i]);
            assert(open_in(shells, list[i].0.val()));
            assert(list[i].0 != list[idx].0);
        } else {
            assert(l2[i] == list[i + 1]);
            assert(open_in(shells, list[i + 1].0.val()));
            assert(list[idx].0 != list[i + 1].0);
        }
    }
    assert forall|k: u32| #[trigger] open_in(s2, k) implies exists|i: int|
        0 <= i < l2.len() && #[trigger] l2[i].0.val() == k by {
        assert(open_in(shells, k));
        let i = choose|i: int| 0 <= i < list.len() && #[trigger] list[i].0.val() == k;
        assert(i != idx);
        if i < idx {
            assert(l2[i].0.val() == k);
        } else {
            assert(l2[i - 1].0.val() == k);
        }
    }
    assert forall|a: int, b: int| 0 <= a < b < l2.len() implies l2[a].0 != l2[b].0 by {
        let a2 = if a < idx { a } else { a + 1 };
        let b2 = if b < idx { b } else { b + 1 };
        assert(l2[a] == list[a2]);
        assert(l2[b] == list[b2]);
    }
}

proof fn lemma_list_move(
    shells: Map<u32, ShellView>,
    list: Seq<(Sid, WsWinsize)>,
    idx: int,
    size: WsWinsize,
)
    requires
        list_matches(shells, list),
        0 <= idx < list.len(),
    ensures
        list_matches(shells, list.remove(idx).push((list[idx].0, size))),
{
    let l2 = list.remove(idx).push((list[idx].0, size));
    assert(l2.len() == list.len());
    assert forall|i: int| 0 <= i < l2.len() implies open_in(shells, #[trigger] l2[i].0.val()) by {
        if i < idx {
            assert(l2[i] == list[i]);
            assert(open_in(shells, list[i].0.val()));
        } else if i < l2.len() - 1 {
            assert(l2[i] == list[i + 1]);
            assert(open_in(shells, list[i + 1].0.val()));
        } else {
            assert(open_in(shells, list[idx].0.val()));
        }
    }
    assert forall|k: u32| #[trigger] open_in(shells, k) implies exists|i: int|
        0 <= i < l2.len() && #[trigger] l2[i].0.val() == k by {
        let i = choose|i: int| 0 <= i < list.len() && #[trigger] list[i].0.val() == k;
        if i < idx {
            assert(l2[i].0.val() == k);
        } else if i == idx {
            assert(l2[l2.len() - 1].0.val() == k);
        } else {
            assert(l2[i - 1].0.val() == k);
        }
    }
    assert forall|a: int, b: int| 0 <= a < b < l2.len() implies l2[a].0 != l2[b].0 by {
        if b == l2.len() - 1 {
            if a < idx {
                assert(l2[a] == list[a]);
            } else {
                assert(l2[a] == list[a + 1]);
            }
        } else {
            let a2 = if a < idx { a } else { a + 1 };
            let b2 = if b < idx { b } else { b + 1 };
            assert(l2[a] == list[a2]);
            assert(l2[b] == list[b2]);
        }
    }
}

/// Opening a shell and then closing it leaves the shell list as it was.
pub proof fn law_open_then_close_restores_list(
    list: Seq<(Sid, WsWinsize)>,
    id: Sid,
    size: WsWinsize,
)
    requires
        distinct_ids(list),
        forall|i: int| 0 <= i < list.len() ==> list[i].0 != id,
    ensures
        list.push((id, size)).remove(shell_index(list.push((id, size)), id)) == list,
{
    let l2 = list.push((id, size));
    assert(distinct_ids(l2)) by {
        assert forall|a: int, b: int| 0 <= a < b < l2.len() implies l2[a].0 != l2[b].0 by {
            if b == list.len() {
                assert(list[a].0 != id);
            }
        }
    }
    lemma_index_unique(l2, list.len() as int, id);
    assert(l2.remove(list.len() as int) =~= list);
}

/// Whether every shell of `before` is still present in `after`, in a state
/// it can reach: a shell's output is never rewritten or renumbered.
pub open spec fn shells_grow(before: Map<u32, ShellView>, after: Map<u32, ShellView>) -> bool {
    forall|k: u32| #[trigger]
        before.contains_key(k) ==> after.contains_key(k) && before[k].grows_to(after[k])
}

proof fn lemma_shells_grow_same(m: Map<u32, ShellView>)
    ensures
        shells_grow(m, m),
{
    assert forall|k: u32| #[trigger] m.contains_key(k) implies m[k].grows_to(m[k]) by {
        lemma_grows_to_reflexive(m[k]);
    }
}

proof fn lemma_shells_grow_insert(before: Map<u32, ShellView>, key: u32, v: ShellView)
    requires
        before.contains_key(key) ==> before[key].grows_to(v),
    ensures
        shells_grow(before, before.insert(key, v)),
{
    assert forall|k: u32| #[trigger] before.contains_key(k) implies before.insert(key, v).contains_key(
        k,
    ) && before[k].grows_to(before.insert(key, v)[k]) by {
        if k != key {
            lemma_grows_to_reflexive(before[k]);
        }
    }
}

/// The states one shell passes through while a session changes, each step
/// keeping the shells growing (as adding, closing and feeding shells do),
/// form a run of that shell: so a subscriber reading it between the steps
/// never receives a byte twice.
pub proof fn law_session_steps_form_shell_run<L, U, D>(sessions: Seq<Session<L, U, D>>, id: u32)
    requires
        sessions.len() > 0,
        forall|i: int| 0 <= i < sessions.len() ==> #[trigger] sessions[i].wf(),
        forall|i: int|
            0 <= i < sessions.len() - 1 ==> shells_grow(
                #[trigger] sessions[i].shells(),
                sessions[i + 1].shells(),
            ),
        sessions[0].shells().contains_key(id),
    ensures
        is_run(Seq::new(sessions.len(), |i: int| sessions[i].shells()[id])),
{
    let run = Seq::new(sessions.len(), |i: int| sessions[i].shells()[id]);
    assert forall|i: int| 0 <= i < sessions.len() implies sessions[i].shells().contains_key(id) by {
        lemma_shell_stays(sessions, id, i);
    }
    assert forall|i: int| 0 <= i < run.len() implies #[trigger] run[i].wf() by {
        sessions[i].law_shells_well_formed();
    }
    assert forall|i: int| 0 <= i < run.len() - 1 implies #[trigger] run[i].grows_to(run[i + 1]) by {
        assert(shells_grow(sessions[i].shells(), sessions[i + 1].shells()));
        assert(sessions[i].shells().contains_key(id));
    }
}

proof fn lemma_shell_stays<L, U, D>(sessions: Seq<Session<L, U, D>>, id: u32, i: int)
    requires
        0 <= i < sessions.len(),
        forall|j: int|
            0 <= j < sessions.len() - 1 ==> shells_grow(
                #[trigger] sessions[j].shells(),
                sessions[j + 1].shells(),
            ),
        sessions[0].shells().contains_key(id),
    ensures
        sessions[i].shells().contains_key(id),
    decreases i,
{
    if i > 0 {
        lemma_shell_stays(sessions, id, i - 1);
        assert(shells_grow(sessions[i - 1].shells(), sessions[i - 1 + 1].shells()));
    }
}

/// Whether the user list names the user `key`.
pub open spec fn lists_user(list: Seq<(Uid, WsUser)>, key: u32) -> bool {
    exists|i: int| 0 <= i < list.len() && #[trigger] list[i].0.val() == key
}

spec fn walked_key<'a>(walk: Seq<(&'a u32, &'a WsUser)>, n: int, key: u32) -> bool {
    exists|i: int| 0 <= i < n && *walk[i].0 == key
}

/// The state of one session. Requests relayed to the terminal client wait
/// in three registries, keyed by request id, each entry holding what the
/// reply is to be handed to: `L` for directory listings, `U` for uploads and
/// `D` for downloads.
pub struct Session<L, U, D> {
    metadata: Metadata,
    shells: HashMap<u32, ShellState>,
    users: HashMap<u32, WsUser>,
    counter: IdCounter,
    source: Vec<(Sid, WsWinsize)>,
    pending_list_directory: Pending<L>,
    pending_upload_file: Pending<U>,
    pending_download_file: Pending<D>,
}

impl<L, U, D> Session<L, U, D> {
    /// The relayed requests still waiting: listings, uploads, downloads.
    pub closed spec fn relays(&self) -> (Map<Seq<char>, L>, Map<Seq<char>, U>, Map<Seq<char>, D>) {
        (
            self.pending_list_directory.view(),
            self.pending_upload_file.view(),
            self.pending_download_file.view(),
        )
    }

    /// The shells, open or closed, by id.
    pub closed spec fn shells(&self) -> Map<u32, ShellView> {
        self.shells@.map_values(|s: ShellState| s@)
    }

    /// The connected users, by id.
    pub closed spec fn users(&self) -> Map<u32, WsUser> {
        self.users@
    }

    /// The open shells in the order they were opened or last moved, with
    /// their window positions.
    pub closed spec fn shell_list(&self) -> Seq<(Sid, WsWinsize)> {
        self.source@
    }

    pub closed spec fn meta(&self) -> Metadata {
        self.metadata
    }

    pub closed spec fn ids(&self) -> IdCounter {
        self.counter
    }

    /// Whether the shell `id` exists and is still open.
    pub open spec fn is_open(&self, id: u32) -> bool {
        open_in(self.shells(), id)
    }

    /// Why the user `user` may not write, if it may not.
    pub open spec fn write_error(&self, user: Uid) -> Option<SessionError> {
        if !self.users().contains_key(user.0) {
            Some(SessionError::UserNotFound(user))
        } else if !self.users()[user.0].can_write {
            Some(SessionError::NoWritePermission(user))
        } else {
            None
        }
    }

    /// Whether two sessions hold the same state.
    pub open spec fn same_as(&self, other: &Session<L, U, D>) -> bool {
        &&& self.shells() == other.shells()
        &&& self.users() == other.users()
        &&& self.shell_list() == other.shell_list()
        &&& self.meta() == other.meta()
        &&& self.ids() == other.ids()
        &&& self.relays() == other.relays()
    }

    pub closed spec fn wf(&self) -> bool {
        &&& forall|k: u32| #[trigger] self.shells@.contains_key(k) ==> self.shells@[k].wf()
        &&& list_matches(self.shells(), self.source@)
        &&& self.pending_list_directory.wf()
        &&& self.pending_upload_file.wf()
        &&& self.pending_download_file.wf()
    }

    /// The shell list of a well-formed session names every open shell exactly
    /// once and nothing else.
    pub proof fn law_shell_list_is_open_shells(&self)
        requires
            self.wf(),
        ensures
            distinct_ids(self.shell_list()),
            forall|i: int|
                0 <= i < self.shell_list().len() ==> self.is_open(
                    #[trigger] self.shell_list()[i].0.val(),
                ),
            forall|k: u32|
                #[trigger] self.is_open(k) ==> exists|i: int|
                    0 <= i < self.shell_list().len() && #[trigger] self.shell_list()[i].0.val() == k,
    {
    }

    /// Every shell of a well-formed session is well formed.
    pub proof fn law_shells_well_formed(&self)
        requires
            self.wf(),
        ensures
            forall|k: u32| #[trigger] self.shells().contains_key(k) ==> self.shells()[k].wf(),
    {
        assert forall|k: u32| #[trigger] self.shells().contains_key(k) implies self.shells()[k].wf() by {
            self.shells@[k].lemma_view_wf();
        }
    }

    /// A session with no shells and no users.
    pub fn new(metadata: Metadata) -> (s: Self)
        ensures
            s.wf(),
            s.meta() == metadata,
            s.shells() == Map::<u32, ShellView>::empty(),
            s.users() == Map::<u32, WsUser>::empty(),
            s.shell_list() == Seq::<(Sid, WsWinsize)>::empty(),
            s.ids().sid_value() == 1,
            s.ids().uid_value() == 1,
            s.relays() == (
                Map::<Seq<char>, L>::empty(),
                Map::<Seq<char>, U>::empty(),
                Map::<Seq<char>, D>::empty(),
            ),
    {
        let s = Session {
            metadata,
            shells: HashMap::new(),
            users: HashMap::new(),
            counter: IdCounter::new(),
            source: Vec::new(),
            pending_list_directory: Pending::new(),
            pending_upload_file: Pending::new(),
            pending_download_file: Pending::new(),
        };
        assert(s.shells() =~= Map::<u32, ShellView>::empty());
        s
    }

    /// The session's metadata.
    pub fn metadata(&self) -> (m: &Metadata)
        ensures
            *m == self.meta(),
    {
        &self.metadata
    }

    /// The id counter.
    pub fn counter(&self) -> (c: &IdCounter)
        ensures
            *c == self.ids(),
    {
        &self.counter
    }

    /// A fresh shell id.
    pub fn next_sid(&mut self) -> (id: Sid)
        requires
            old(self).wf(),
        ensures
            final(self).wf(),
            final(self).relays() == old(self).relays(),
            id.0 == old(self).ids().sid_value(),
            final(self).ids().sid_value() == crate::ids::next_id(old(self).ids().sid_value()),
            final(self).ids().uid_value() == old(self).ids().uid_value(),
            final(self).shells() == old(self).shells(),
            final(self).users() == old(self).users(),
            final(self).shell_list() == old(self).shell_list(),
            final(self).meta() == old(self).meta(),
    {
        self.counter.next_sid()
    }

    /// A fresh user id.
    pub fn next_uid(&mut self) -> (id: Uid)
        requires
            old(self).wf(),
        ensures
            final(self).wf(),
            final(self).relays() == old(self).relays(),
            id.0 == old(self).ids().uid_value(),
            final(self).ids().uid_value() == crate::ids::next_id(old(self).ids().uid_value()),
            final(self).ids().sid_value() == old(self).ids().sid_value(),
            final(self).shells() == old(self).shells(),
            final(self).users() == old(self).users(),
            final(self).shell_list() == old(self).shell_list(),
            final(self).meta() == old(self).meta(),
    {
        self.counter.next_uid()
    }

    /// The sequence number of every open shell.
    pub fn sequence_numbers(&self) -> (r: SequenceNumbers)
        requires
            self.wf(),
        ensures
            forall|k: u32| #[trigger] r.map@.contains_key(k) <==> self.is_open(k),
            forall|k: u32|
                #[trigger] r.map@.contains_key(k) ==> r.map@[k] == self.shells()[k].seqnum(),
    {
        let mut map: HashMap<u32, u64> = HashMap::new();
        for (k, v) in it: self.shells.iter()
            invariant
                self.wf(),
                forall|key: u32|
                    map@.contains_key(key) <==> exists|i: int|
                        0 <= i < it.index@ && *it.seq()[i].0 == key && self.is_open(key),
                forall|key: u32|
                    #[trigger] map@.contains_key(key) ==> map@[key] == self.shells()[key].seqnum(),
        {
            assert(self.shells@.contains_key(*k) && self.shells@[*k] == *v);
            if !v.is_closed() {
                map.insert(*k, v.seqnum());
            }
        }
        SequenceNumbers { map }
    }

    /// The position of the shell `id` in the shell list, if it is there.
    fn find_in_list(&self, id: Sid) -> (r: Option<usize>)
        ensures
            match r {
                Some(i) => i < self.shell_list().len() && self.shell_list()[i as int].0 == id,
                None => forall|i: int|
                    0 <= i < self.shell_list().len() ==> self.shell_list()[i].0 != id,
            },
    {
        let mut i: usize = 0;
        while i < self.source.len()
            invariant
                0 <= i <= self.source@.len(),
                forall|j: int| 0 <= j < i ==> self.source@[j].0 != id,
            decreases self.source@.len() - i,
        {
            if self.source[i].0 == id {
                return Some(i);
            }
            i = i + 1;
        }
        None
    }

    /// Adds a new shell with a default-sized window centered at `center`.
    /// Fails if a shell with this id was ever added.
    pub fn add_shell(&mut self, id: Sid, center: (i32, i32)) -> (r: Result<(), SessionError>)
        requires
            old(self).wf(),
        ensures
            final(self).wf(),
            final(self).relays() == old(self).relays(),
            final(self).users() == old(self).users(),
            final(self).meta() == old(self).meta(),
            final(self).ids() == old(self).ids(),
            shells_grow(old(self).shells(), final(self).shells()),
            r is Err <==> old(self).shells().contains_key(id.0),
            r is Err ==> r == Err::<(), SessionError>(SessionError::ShellExists(id)) && final(self).shells()
                == old(self).shells() && final(self).shell_list() == old(self).shell_list(),
            r is Ok ==> {
                &&& final(self).shells().contains_key(id.0)
                &&& final(self).is_open(id.0)
                &&& final(self).shells()[id.0].history == Seq::<u8>::empty()
                &&& final(self).shells()[id.0].chunk_offset == 0
                &&& final(self).shells()[id.0].byte_offset == 0
                &&& final(self).shells()[id.0].chunks == Seq::<Seq<u8>>::empty()
                &&& !final(self).shells()[id.0].closed
                &&& final(self).shells().remove(id.0) == old(self).shells()
                &&& final(self).shell_list() == old(self).shell_list().push(
                    (id, WsWinsize { x: center.0, y: center.1, rows: 24, cols: 80 }),
                )
            },
    {
        if self.shells.contains_key(&id.0) {
            proof {
                lemma_shells_grow_same(self.shells());
            }
            return Err(SessionError::ShellExists(id));
        }
        let ghost old_self = *self;
        let shell = ShellState::new();
        let ghost fresh = shell@;
        self.shells.insert(id.0, shell);
        self.source.push((id, WsWinsize::at(center.0, center.1)));
        proof {
            assert(self.shells() =~= old_self.shells().insert(id.0, fresh));
            assert(self.shells().remove(id.0) =~= old_self.shells());
            lemma_shells_grow_insert(old_self.shells(), id.0, fresh);
            lemma_list_add(
                old_self.shells(),
                old_self.source@,
                id,
                WsWinsize { x: center.0, y: center.1, rows: 24, cols: 80 },
                fresh,
            );
        }
        Ok(())
    }

    /// Terminates a shell. Returns whether it was open; closing a closed
    /// shell changes nothing, and a shell that does not exist is an error.
    pub fn close_shell(&mut self, id: Sid) -> (r: Result<bool, SessionError>)
        requires
            old(self).wf(),
        ensures
            final(self).wf(),
            final(self).relays() == old(self).relays(),
            final(self).users() == old(self).users(),
            final(self).meta() == old(self).meta(),
            final(self).ids() == old(self).ids(),
            shells_grow(old(self).shells(), final(self).shells()),
            !old(self).shells().contains_key(id.0) ==> r == Err::<bool, SessionError>(
                SessionError::CloseMissing(id),
            ),
            old(self).shells().contains_key(id.0) ==> r == Ok::<bool, SessionError>(
                old(self).is_open(id.0),
            ),
            !old(self).is_open(id.0) ==> final(self).shells() == old(self).shells()
                && final(self).shell_list() == old(self).shell_list(),
            old(self).is_open(id.0) ==> {
                &&& final(self).shells() == old(self).shells().insert(
                    id.0,
                    ShellView { closed: true, ..old(self).shells()[id.0] },
                )
                &&& final(self).shell_list() == old(self).shell_list().remove(
                    shell_index(old(self).shell_list(), id),
                )
            },
    {
        let ghost old_self = *self;
        let shell = self.shells.remove(&id.0);
        match shell {
            None => {
                assert(self.shells@ =~= old_self.shells@);
                proof {
                    lemma_shells_grow_same(self.shells());
                }
                return Err(SessionError::CloseMissing(id));
            },
            Some(mut shell) => {
                if shell.is_closed() {
                    self.shells.insert(id.0, shell);
                    assert(self.shells@ =~= old_self.shells@);
                    proof {
                        lemma_shells_grow_same(self.shells());
                    }
                    return Ok(false);
                }
                assert(old_self.shells@[id.0].wf());
                shell.close();
                self.shells.insert(id.0, shell);
            },
        }
        let pos = self.find_in_list(id);
        let ghost closed_view = ShellView { closed: true, ..old_self.shells()[id.0] };
        proof {
            assert(self.shells() =~= old_self.shells().insert(id.0, closed_view));
            lemma_close_grows(old_self.shells()[id.0]);
            lemma_shells_grow_insert(old_self.shells(), id.0, closed_view);
            assert(old_self.is_open(id.0));
            let i = choose|i: int|
                0 <= i < old_self.source@.len() && #[trigger] old_self.source@[i].0.val() == id.0;
            assert(self.shell_list()[i].0 == id);
        }
        let idx = pos.unwrap();
        self.source.remove(idx);
        proof {
            lemma_index_unique(old_self.source@, idx as int, id);
            lemma_list_close(old_self.shells(), old_self.source@, idx as int, closed_view);
        }
        Ok(true)
    }

    /// Checks that the shell `id` exists and is open.
    fn check_open(&self, id: Sid) -> (r: Result<(), SessionError>)
        ensures
            !self.shells().contains_key(id.0) ==> r == Err::<(), SessionError>(
                SessionError::UpdateMissing(id),
            ),
            self.shells().contains_key(id.0) && self.shells()[id.0].closed ==> r == Err::<
                (),
                SessionError,
            >(SessionError::UpdateClosed(id)),
            self.is_open(id.0) ==> r is Ok,
    {
        match self.shells.get(&id.0) {
            Some(shell) => {
                if shell.is_closed() {
                    Err(SessionError::UpdateClosed(id))
                } else {
                    Ok(())
                }
            },
            None => Err(SessionError::UpdateMissing(id)),
        }
    }

    /// Moves the shell `id` to the end of the shell list, giving it the new
    /// window if one is given and keeping its old one otherwise.
    pub fn move_shell(&mut self, id: Sid, winsize: Option<WsWinsize>) -> (r: Result<(), SessionError>)
        requires
            old(self).wf(),
        ensures
            final(self).wf(),
            final(self).relays() == old(self).relays(),
            final(self).shells() == old(self).shells(),
            final(self).users() == old(self).users(),
            final(self).meta() == old(self).meta(),
            final(self).ids() == old(self).ids(),
            !old(self).shells().contains_key(id.0) ==> r == Err::<(), SessionError>(
                SessionError::UpdateMissing(id),
            ),
            old(self).shells().contains_key(id.0) && old(self).shells()[id.0].closed ==> r == Err::<
                (),
                SessionError,
            >(SessionError::UpdateClosed(id)),
            r is Err ==> final(self).shell_list() == old(self).shell_list(),
            old(self).is_open(id.0) ==> r is Ok && {
                let i = shell_index(old(self).shell_list(), id);
                let old_size = old(self).shell_list()[i].1;
                final(self).shell_list() == old(self).shell_list().remove(i).push(
                    (
                        id,
                        match winsize {
                            Some(w) => w,
                            None => old_size,
                        },
                    ),
                )
            },
    {
        let ghost old_self = *self;
        if let Err(e) = self.check_open(id) {
            return Err(e);
        }
        let pos = self.find_in_list(id);
        proof {
            assert(old_self.is_open(id.0));
            let i = choose|i: int|
                0 <= i < old_self.source@.len() && #[trigger] old_self.source@[i].0.val() == id.0;
            assert(self.shell_list()[i].0 == id);
        }
        let idx = pos.unwrap();
        let (_, oldsize) = self.source.remove(idx);
        let size = match winsize {
            Some(w) => w,
            None => oldsize,
        };
        self.source.push((id, size));
        proof {
            lemma_index_unique(old_self.source@, idx as int, id);
            lemma_list_move(old_self.shells(), old_self.source@, idx as int, size);
        }
        Ok(())
    }

    /// Receives terminal output `data` for the shell `id`, starting at byte
    /// `seq` of its output. Returns whether anything new was stored.
    pub fn add_data(&mut self, id: Sid, data: &[u8], seq: u64) -> (r: Result<bool, SessionError>)
        requires
            old(self).wf(),
            seq + data@.len() <= u64::MAX,
        ensures
            final(self).wf(),
            final(self).relays() == old(self).relays(),
            final(self).users() == old(self).users(),
            final(self).shell_list() == old(self).shell_list(),
            final(self).meta() == old(self).meta(),
            final(self).ids() == old(self).ids(),
            shells_grow(old(self).shells(), final(self).shells()),
            !old(self).shells().contains_key(id.0) ==> r == Err::<bool, SessionError>(
                SessionError::UpdateMissing(id),
            ),
            old(self).shells().contains_key(id.0) && old(self).shells()[id.0].closed ==> r == Err::<
                bool,
                SessionError,
            >(SessionError::UpdateClosed(id)),
            r is Err ==> final(self).shells() == old(self).shells(),
            old(self).is_open(id.0) ==> {
                &&& r == Ok::<bool, SessionError>(
                    old(self).shells()[id.0].extends(data@, seq as nat),
                )
                &&& final(self).shells() == old(self).shells().insert(
                    id.0,
                    old(self).shells()[id.0].receive(data@, seq as nat),
                )
            },
    {
        let ghost old_self = *self;
        if let Err(e) = self.check_open(id) {
            proof {
                lemma_shells_grow_same(self.shells());
            }
            return Err(e);
        }
        let mut shell = self.shells.remove(&id.0).unwrap();
        assert(old_self.shells@[id.0].wf());
        let changed = shell.receive(data, seq);
        self.shells.insert(id.0, shell);
        proof {
            assert(self.shells() =~= old_self.shells().insert(
                id.0,
                old_self.shells()[id.0].receive(data@, seq as nat),
            ));
            assert forall|k: u32| #[trigger] open_in(self.shells(), k) == open_in(old_self.shells(), k) by {}
            assert(list_matches(self.shells(), self.source@));
            old_self.law_shells_well_formed();
            lemma_receive_grows(old_self.shells()[id.0], data@, seq as nat);
            lemma_shells_grow_insert(
                old_self.shells(),
                id.0,
                old_self.shells()[id.0].receive(data@, seq as nat),
            );
        }
        Ok(changed)
    }

    /// The chunks of shell `id` a subscriber at chunk number `chunknum` is
    /// due; `None` once the shell is closed or if it does not exist, which
    /// ends the subscription.
    pub fn chunks_since(&self, id: Sid, chunknum: u64) -> (r: Option<(u64, Vec<Vec<u8>>, u64)>)
        requires
            self.wf(),
        ensures
            !self.is_open(id.0) ==> r is None,
            self.is_open(id.0) ==> match r {
                Some((pos, chunks, next)) => {
                    let due = self.shells()[id.0].since(chunknum as nat);
                    &&& pos == due.0
                    &&& chunks@.map_values(|c: Vec<u8>| c@) == due.1
                    &&& next == due.2
                },
                None => false,
            },
    {
        match self.shells.get(&id.0) {
            Some(shell) => {
                if shell.is_closed() {
                    None
                } else {
                    Some(shell.chunks_since(chunknum))
                }
            },
            None => None,
        }
    }

    /// The open shells with their windows, in list order, as published to
    /// the browsers.
    pub fn list_shells(&self) -> (r: Vec<(Sid, WsWinsize)>)
        ensures
            r@ == self.shell_list(),
    {
        let mut out: Vec<(Sid, WsWinsize)> = Vec::new();
        let mut i: usize = 0;
        while i < self.source.len()
            invariant
                0 <= i <= self.source@.len(),
                out@ == self.source@.take(i as int),
            decreases self.source@.len() - i,
        {
            out.push(self.source[i]);
            i = i + 1;
            assert(out@ =~= self.source@.take(i as int));
        }
        assert(self.source@.take(i as int) =~= self.source@);
        out
    }

    /// All connected users, each once, in no particular order.
    pub fn list_users(&self) -> (r: Vec<(Uid, WsUser)>)
        requires
            self.wf(),
        ensures
            r@.len() == self.users().len(),
            forall|i: int, j: int| 0 <= i < j < r@.len() ==> r@[i].0 != r@[j].0,
            forall|i: int|
                0 <= i < r@.len() ==> self.users().contains_key(#[trigger] r@[i].0.val())
                    && self.users()[r@[i].0.val()] == r@[i].1,
            forall|k: u32| #[trigger] self.users().contains_key(k) ==> lists_user(r@, k),
    {
        let mut out: Vec<(Uid, WsUser)> = Vec::new();
        for (k, v) in it: self.users.iter()
            invariant
                out@.len() == it.index@,
                it.seq().no_duplicates(),
                forall|i: int| 0 <= i < it.index@ ==> #[trigger] out@[i].0.val() == *it.seq()[i].0,
                forall|i: int|
                    0 <= i < out@.len() ==> self.users@.contains_key(#[trigger] out@[i].0.val())
                        && self.users@[out@[i].0.val()] == out@[i].1,
                forall|i: int, j: int| 0 <= i < j < out@.len() ==> out@[i].0 != out@[j].0,
                forall|key: u32|
                    #[trigger] lists_user(out@, key) <==> walked_key(it.seq(), it.index@, key),
        {
            proof {
                let s = it.seq();
                let n = it.index@;
                assert forall|i: int| 0 <= i < n implies out@[i].0.val() != *k by {
                    assert(s.no_duplicates());
                    assert(out@[i].0.val() == *s[i].0);
                    if *s[i].0 == *k {
                        assert(*s[i].1 == self.users@[*k]);
                        assert(s[i] == s[n]);
                    }
                }
            }
            let ghost before = out@;
            out.push((Uid(*k), v.duplicate()));
            proof {
                let s = it.seq();
                assert forall|key: u32|
                    #[trigger] lists_user(out@, key) <==> walked_key(s, it.index@ + 1, key) by {
                    if walked_key(s, it.index@ + 1, key) {
                        let i = choose|i: int| 0 <= i < it.index@ + 1 && *s[i].0 == key;
                        assert(out@[i].0.val() == key);
                    }
                    if lists_user(out@, key) {
                        let i = choose|i: int| 0 <= i < out@.len() && #[trigger] out@[i].0.val() == key;
                        assert(*s[i].0 == key);
                        if i < it.index@ {
                            assert(lists_user(before, key));
                        }
                    }
                    if walked_key(s, it.index@, key) {
                        assert(lists_user(before, key));
                        let i = choose|i: int| 0 <= i < before.len() && #[trigger] before[i].0.val() == key;
                        assert(out@[i].0.val() == key);
                    }
                }
            }
        }
        proof {
            assert forall|key: u32| #[trigger] self.users().contains_key(key) implies lists_user(
                out@,
                key,
            ) by {}
            assert(out@.len() == self.users().len());
        }
        out
    }

    /// Applies a change to the user `id`; returns the update to broadcast.
    pub fn update_user(&mut self, id: Uid, change: UserChange) -> (r: Result<WsServer, SessionError>)
        requires
            old(self).wf(),
        ensures
            final(self).wf(),
            final(self).relays() == old(self).relays(),
            final(self).shells() == old(self).shells(),
            final(self).shell_list() == old(self).shell_list(),
            final(self).meta() == old(self).meta(),
            final(self).ids() == old(self).ids(),
            !old(self).users().contains_key(id.0) ==> r == Err::<WsServer, SessionError>(
                SessionError::UserNotFound(id),
            ) && final(self).users() == old(self).users(),
            old(self).users().contains_key(id.0) ==> {
                let user = changed_user(old(self).users()[id.0], change);
                &&& final(self).users() == old(self).users().insert(id.0, user)
                &&& r == Ok::<WsServer, SessionError>(WsServer::UserDiff(id, Some(user)))
            },
            old(self).users().contains_key(id.0) ==> {
                let before = old(self).users()[id.0];
                let after = final(self).users()[id.0];
                &&& final(self).users().dom() == old(self).users().dom()
                &&& after.can_write == before.can_write
                &&& match change {
                    UserChange::SetName(name) => after.name == name && after.cursor == before.cursor
                        && after.focus == before.focus,
                    UserChange::SetCursor(cursor) => after.cursor == cursor && after.name
                        == before.name && after.focus == before.focus,
                    UserChange::SetFocus(focus) => after.focus == focus && after.name == before.name
                        && after.cursor == before.cursor,
                }
                &&& r == Ok::<WsServer, SessionError>(WsServer::UserDiff(id, Some(after)))
            },
    {
        let ghost old_self = *self;
        match self.users.remove(&id.0) {
            None => Err(SessionError::UserNotFound(id)),
            Some(mut user) => {
                match change {
                    UserChange::SetName(name) => {
                        user.name = name;
                    },
                    UserChange::SetCursor(cursor) => {
                        user.cursor = cursor;
                    },
                    UserChange::SetFocus(focus) => {
                        user.focus = focus;
                    },
                }
                let updated = user.duplicate();
                self.users.insert(id.0, user);
                assert(self.users@ =~= old_self.users@.insert(id.0, updated));
                Ok(WsServer::UserDiff(id, Some(updated)))
            },
        }
    }

    /// Adds a new user named "User <id>", with no cursor or focus and the
    /// given write access; returns the update to broadcast.
    pub fn user_scope(&mut self, id: Uid, can_write: bool) -> (r: Result<WsServer, SessionError>)
        requires
            old(self).wf(),
        ensures
            final(self).wf(),
            final(self).relays() == old(self).relays(),
            final(self).shells() == old(self).shells(),
            final(self).shell_list() == old(self).shell_list(),
            final(self).meta() == old(self).meta(),
            final(self).ids() == old(self).ids(),
            old(self).users().contains_key(id.0) ==> r == Err::<WsServer, SessionError>(
                SessionError::UserExists(id),
            ) && final(self).users() == old(self).users(),
            !old(self).users().contains_key(id.0) ==> {
                let user = final(self).users()[id.0];
                &&& final(self).users() == old(self).users().insert(id.0, user)
                &&& user.name@ == default_user_name(id)
                &&& user.cursor is None
                &&& user.focus is None
                &&& user.can_write == can_write
                &&& r == Ok::<WsServer, SessionError>(WsServer::UserDiff(id, Some(user)))
            },
    {
        if self.users.contains_key(&id.0) {
            return Err(SessionError::UserExists(id));
        }
        let mut name = String::from_str("User ");
        let digits = u32_to_decimal(id.0);
        name.append(digits.as_str());
        let user = WsUser { name, cursor: None, focus: None, can_write };
        let copy = user.duplicate();
        self.users.insert(id.0, user);
        proof {
            reveal_strlit("User ");
        }
        Ok(WsServer::UserDiff(id, Some(copy)))
    }

    /// Removes a user; returns whether it was connected, and the update to
    /// broadcast, which is sent either way.
    pub fn remove_user(&mut self, id: Uid) -> (r: (bool, WsServer))
        requires
            old(self).wf(),
        ensures
            final(self).wf(),
            final(self).relays() == old(self).relays(),
            final(self).shells() == old(self).shells(),
            final(self).shell_list() == old(self).shell_list(),
            final(self).meta() == old(self).meta(),
            final(self).ids() == old(self).ids(),
            final(self).users() == old(self).users().remove(id.0),
            r.0 == old(self).users().contains_key(id.0),
            r.1 == WsServer::UserDiff(id, None),
    {
        let removed = self.users.remove(&id.0);
        (removed.is_some(), WsServer::UserDiff(id, None))
    }

    /// Checks that the user `user_id` is connected and may write.
    pub fn check_write_permission(&self, user_id: Uid) -> (r: Result<(), SessionError>)
        requires
            self.wf(),
        ensures
            !self.users().contains_key(user_id.0) ==> r == Err::<(), SessionError>(
                SessionError::UserNotFound(user_id),
            ),
            self.users().contains_key(user_id.0) && !self.users()[user_id.0].can_write ==> r
                == Err::<(), SessionError>(SessionError::NoWritePermission(user_id)),
            self.users().contains_key(user_id.0) && self.users()[user_id.0].can_write ==> r is Ok,
    {
        match self.users.get(&user_id.0) {
            None => Err(SessionError::UserNotFound(user_id)),
            Some(user) => {
                if !user.can_write {
                    Err(SessionError::NoWritePermission(user_id))
                } else {
                    Ok(())
                }
            },
        }
    }

    /// A chat message from the user `id`, stamped with its current name, to
    /// broadcast.
    pub fn send_chat(&self, id: Uid, msg: &str) -> (r: Result<WsServer, SessionError>)
        requires
            self.wf(),
        ensures
            !self.users().contains_key(id.0) ==> r == Err::<WsServer, SessionError>(
                SessionError::UserNotFound(id),
            ),
            self.users().contains_key(id.0) ==> r is Ok && match r {
                Ok(WsServer::Hear(uid, name, text)) => uid == id && name
                    == self.users()[id.0].name && text@ == msg@,
                _ => false,
            },
    {
        match self.users.get(&id.0) {
            None => Err(SessionError::UserNotFound(id)),
            Some(user) => Ok(WsServer::Hear(id, user.name.clone(), msg.to_string())),
        }
    }

    /// A latency measurement of the shells, to broadcast.
    pub fn send_latency_measurement(&self, latency: u64) -> (r: WsServer)
        ensures
            r == WsServer::ShellLatency(latency),
    {
        WsServer::ShellLatency(latency)
    }

    /// Registers a directory listing relayed to the terminal client; its
    /// reply is to be handed to `reply_to`.
    pub fn register_list_directory(&mut self, request_id: String, reply_to: L)
        requires
            old(self).wf(),
        ensures
            final(self).wf(),
            final(self).relays() == (
                old(self).relays().0.insert(request_id@, reply_to),
                old(self).relays().1,
                old(self).relays().2,
            ),
            final(self).shells() == old(self).shells(),
            final(self).users() == old(self).users(),
            final(self).shell_list() == old(self).shell_list(),
            final(self).meta() == old(self).meta(),
            final(self).ids() == old(self).ids(),
    {
        self.pending_list_directory.insert(request_id, reply_to);
    }

    /// Withdraws a directory listing, as when it could not be sent or its
    /// wait ended.
    pub fn withdraw_list_directory(&mut self, request_id: &String) -> (r: Option<L>)
        requires
            old(self).wf(),
        ensures
            final(self).wf(),
            final(self).relays() == (
                old(self).relays().0.remove(request_id@),
                old(self).relays().1,
                old(self).relays().2,
            ),
            match r {
                Some(v) => old(self).relays().0.contains_key(request_id@) && v == old(
                    self,
                ).relays().0[request_id@],
                None => !old(self).relays().0.contains_key(request_id@),
            },
            final(self).shells() == old(self).shells(),
            final(self).users() == old(self).users(),
            final(self).shell_list() == old(self).shell_list(),
            final(self).meta() == old(self).meta(),
            final(self).ids() == old(self).ids(),
    {
        self.pending_list_directory.remove(request_id)
    }

    /// The reply to directory listing `request_id` arrived: the request is
    /// withdrawn, and what waits for it is returned with the answer. A reply
    /// nobody waits for is dropped.
    pub fn handle_list_directory_result(
        &mut self,
        request_id: &String,
        error: Option<String>,
        response: Option<ListDirectoryResponse>,
    ) -> (r: Option<(L, Result<ListDirectoryResponse, RequestError>)>)
        requires
            old(self).wf(),
        ensures
            final(self).wf(),
            final(self).relays() == (
                old(self).relays().0.remove(request_id@),
                old(self).relays().1,
                old(self).relays().2,
            ),
            match r {
                Some((to, answer)) => {
                    &&& old(self).relays().0.contains_key(request_id@)
                    &&& to == old(self).relays().0[request_id@]
                    &&& answer == resolution(error, response)
                },
                None => !old(self).relays().0.contains_key(request_id@),
            },
            final(self).shells() == old(self).shells(),
            final(self).users() == old(self).users(),
            final(self).shell_list() == old(self).shell_list(),
            final(self).meta() == old(self).meta(),
            final(self).ids() == old(self).ids(),
    {
        match self.pending_list_directory.remove(request_id) {
            Some(to) => Some((to, resolve_response(error, response))),
            None => None,
        }
    }

    /// Registers an upload relayed to the terminal client; its final reply
    /// is to be handed to `reply_to`.
    pub fn register_upload_file(&mut self, request_id: String, reply_to: U)
        requires
            old(self).wf(),
        ensures
            final(self).wf(),
            final(self).relays() == (
                old(self).relays().0,
                old(self).relays().1.insert(request_id@, reply_to),
                old(self).relays().2,
            ),
            final(self).shells() == old(self).shells(),
            final(self).users() == old(self).users(),
            final(self).shell_list() == old(self).shell_list(),
            final(self).meta() == old(self).meta(),
            final(self).ids() == old(self).ids(),
    {
        self.pending_upload_file.insert(request_id, reply_to);
    }

    /// Withdraws an upload, as when it could not be sent or its wait ended.
    pub fn withdraw_upload_file(&mut self, request_id: &String) -> (r: Option<U>)
        requires
            old(self).wf(),
        ensures
            final(self).wf(),
            final(self).relays() == (
                old(self).relays().0,
                old(self).relays().1.remove(request_id@),
                old(self).relays().2,
            ),
            match r {
                Some(v) => old(self).relays().1.contains_key(request_id@) && v == old(
                    self,
                ).relays().1[request_id@],
                None => !old(self).relays().1.contains_key(request_id@),
            },
            final(self).shells() == old(self).shells(),
            final(self).users() == old(self).users(),
            final(self).shell_list() == old(self).shell_list(),
            final(self).meta() == old(self).meta(),
            final(self).ids() == old(self).ids(),
    {
        self.pending_upload_file.remove(request_id)
    }

    /// The final reply to upload `request_id` arrived: the request is
    /// withdrawn, and what waits for it is returned with the answer.
    pub fn handle_upload_file_result(
        &mut self,
        request_id: &String,
        error: Option<String>,
        response: Option<FileUploadResponse>,
    ) -> (r: Option<(U, Result<FileUploadResponse, RequestError>)>)
        requires
            old(self).wf(),
        ensures
            final(self).wf(),
            final(self).relays() == (
                old(self).relays().0,
                old(self).relays().1.remove(request_id@),
                old(self).relays().2,
            ),
            match r {
                Some((to, answer)) => {
                    &&& old(self).relays().1.contains_key(request_id@)
                    &&& to == old(self).relays().1[request_id@]
                    &&& answer == resolution(error, response)
                },
                None => !old(self).relays().1.contains_key(request_id@),
            },
            final(self).shells() == old(self).shells(),
            final(self).users() == old(self).users(),
            final(self).shell_list() == old(self).shell_list(),
            final(self).meta() == old(self).meta(),
            final(self).ids() == old(self).ids(),
    {
        match self.pending_upload_file.remove(request_id) {
            Some(to) => Some((to, resolve_response(error, response))),
            None => None,
        }
    }

    /// Registers a download relayed to the terminal client; its chunks are
    /// to be handed to `reader`.
    pub fn register_download_file(&mut self, request_id: String, reader: D)
        requires
            old(self).wf(),
        ensures
            final(self).wf(),
            final(self).relays() == (
                old(self).relays().0,
                old(self).relays().1,
                old(self).relays().2.insert(request_id@, reader),
            ),
            final(self).shells() == old(self).shells(),
            final(self).users() == old(self).users(),
            final(self).shell_list() == old(self).shell_list(),
            final(self).meta() == old(self).meta(),
            final(self).ids() == old(self).ids(),
    {
        self.pending_download_file.insert(request_id, reader);
    }

    /// Withdraws a download, as when it could not be sent.
    pub fn withdraw_download_file(&mut self, request_id: &String) -> (r: Option<D>)
        requires
            old(self).wf(),
        ensures
            final(self).wf(),
            final(self).relays() == (
                old(self).relays().0,
                old(self).relays().1,
                old(self).relays().2.remove(request_id@),
            ),
            match r {
                Some(v) => old(self).relays().2.contains_key(request_id@) && v == old(
                    self,
                ).relays().2[request_id@],
                None => !old(self).relays().2.contains_key(request_id@),
            },
            final(self).shells() == old(self).shells(),
            final(self).users() == old(self).users(),
            final(self).shell_list() == old(self).shell_list(),
            final(self).meta() == old(self).meta(),
            final(self).ids() == old(self).ids(),
    {
        self.pending_download_file.remove(request_id)
    }

    /// Where the chunks of download `request_id` go, if it is registered.
    pub fn download_reader(&self, request_id: &String) -> (r: Option<&D>)
        requires
            self.wf(),
        ensures
            match r {
                Some(v) => self.relays().2.contains_key(request_id@) && *v == self.relays().2[request_id@],
                None => !self.relays().2.contains_key(request_id@),
            },
    {
        self.pending_download_file.get(request_id)
    }

    /// A chunk of download `request_id` was handed to its reader, which took
    /// it or not (`delivered`). The download is withdrawn when the reader
    /// failed or the chunk was the last; after the last one, the message
    /// telling the terminal client that the download is complete is returned.
    /// A download that is not registered is left alone.
    pub fn handle_download_file_chunk(&mut self, request_id: &String, delivered: bool, is_last: bool) -> (r: Option<ServerMessage>)
        requires
            old(self).wf(),
        ensures
            final(self).wf(),
            final(self).relays().0 == old(self).relays().0,
            final(self).relays().1 == old(self).relays().1,
            !old(self).relays().2.contains_key(request_id@) ==> r is None && final(self).relays()
                == old(self).relays(),
            old(self).relays().2.contains_key(request_id@) ==> {
                &&& delivered && !is_last ==> r is None && final(self).relays() == old(self).relays()
                &&& !delivered ==> r is None && final(self).relays().2 == old(self).relays().2.remove(
                    request_id@,
                )
                &&& delivered && is_last ==> final(self).relays().2 == old(self).relays().2.remove(
                    request_id@,
                ) && (r matches Some(ServerMessage::DownloadFile(req)) && req.path@.len() == 0
                    && req.token@ == request_id@)
            },
            final(self).shells() == old(self).shells(),
            final(self).users() == old(self).users(),
            final(self).shell_list() == old(self).shell_list(),
            final(self).meta() == old(self).meta(),
            final(self).ids() == old(self).ids(),
    {
        if !self.pending_download_file.contains_key(request_id) {
            return None;
        }
        match after_chunk_delivery(delivered, is_last) {
            ChunkFollowUp::Wait => None,
            ChunkFollowUp::Finish => {
                self.pending_download_file.remove(request_id);
                Some(download_complete_notice(request_id.clone()))
            },
            ChunkFollowUp::Abandon => {
                self.pending_download_file.remove(request_id);
                None
            },
        }
    }

    /// Ends the wait for directory listing `request_id`, however it ended:
    /// the request is withdrawn and the caller gets the reply or why none came.
    pub fn conclude_list_directory(&mut self, request_id: &String, outcome: WaitOutcome<ListDirectoryResponse>) -> (r: Result<ListDirectoryResponse, RequestError>)
        requires
            old(self).wf(),
        ensures
            final(self).wf(),
            final(self).relays() == (
                old(self).relays().0.remove(request_id@),
                old(self).relays().1,
                old(self).relays().2,
            ),
            r == wait_answer(outcome),
            final(self).shells() == old(self).shells(),
            final(self).users() == old(self).users(),
            final(self).shell_list() == old(self).shell_list(),
            final(self).meta() == old(self).meta(),
            final(self).ids() == old(self).ids(),
    {
        self.pending_list_directory.remove(request_id);
        finish_wait(outcome)
    }

    /// Directory listing `request_id` could not be queued for the terminal
    /// client: it is withdrawn and the caller is told why.
    pub fn list_directory_send_failed(&mut self, request_id: &String, err: String) -> (r: RequestError)
        requires
            old(self).wf(),
        ensures
            final(self).wf(),
            final(self).relays() == (
                old(self).relays().0.remove(request_id@),
                old(self).relays().1,
                old(self).relays().2,
            ),
            r == RequestError::SendFailed(err),
            final(self).shells() == old(self).shells(),
            final(self).users() == old(self).users(),
            final(self).shell_list() == old(self).shell_list(),
            final(self).meta() == old(self).meta(),
            final(self).ids() == old(self).ids(),
    {
        self.pending_list_directory.remove(request_id);
        RequestError::SendFailed(err)
    }

    /// Ends the wait for upload `request_id`, however it ended: the request is
    /// withdrawn and the caller gets the reply or why none came.
    pub fn conclude_upload_file(&mut self, request_id: &String, outcome: WaitOutcome<FileUploadResponse>) -> (r: Result<FileUploadResponse, RequestError>)
        requires
            old(self).wf(),
        ensures
            final(self).wf(),
            final(self).relays() == (
                old(self).relays().0,
                old(self).relays().1.remove(request_id@),
                old(self).relays().2,
            ),
            r == wait_answer(outcome),
            final(self).shells() == old(self).shells(),
            final(self).users() == old(self).users(),
            final(self).shell_list() == old(self).shell_list(),
            final(self).meta() == old(self).meta(),
            final(self).ids() == old(self).ids(),
    {
        self.pending_upload_file.remove(request_id);
        finish_wait(outcome)
    }

    /// Upload `request_id` could not be queued for the terminal client: it is
    /// withdrawn and the caller is told why.
    pub fn upload_file_send_failed(&mut self, request_id: &String, err: String) -> (r: RequestError)
        requires
            old(self).wf(),
        ensures
            final(self).wf(),
            final(self).relays() == (
                old(self).relays().0,
                old(self).relays().1.remove(request_id@),
                old(self).relays().2,
            ),
            r == RequestError::SendFailed(err),
            final(self).shells() == old(self).shells(),
            final(self).users() == old(self).users(),
            final(self).shell_list() == old(self).shell_list(),
            final(self).meta() == old(self).meta(),
            final(self).ids() == old(self).ids(),
    {
        self.pending_upload_file.remove(request_id);
        RequestError::SendFailed(err)
    }

    /// Download `request_id` could not be queued for the terminal client: it
    /// is withdrawn and the caller is told why.
    pub fn download_file_send_failed(&mut self, request_id: &String, err: String) -> (r: RequestError)
        requires
            old(self).wf(),
        ensures
            final(self).wf(),
            final(self).relays() == (
                old(self).relays().0,
                old(self).relays().1,
                old(self).relays().2.remove(request_id@),
            ),
            r == RequestError::SendFailed(err),
            final(self).shells() == old(self).shells(),
            final(self).users() == old(self).users(),
            final(self).shell_list() == old(self).shell_list(),
            final(self).meta() == old(self).meta(),
            final(self).ids() == old(self).ids(),
    {
        self.pending_download_file.remove(request_id);
        RequestError::SendFailed(err)
    }

    /// The session token.
    pub fn token(&self) -> (t: String)
        ensures
            t@ == "token"@,
    {
        String::from_str("token")
    }
}

} // verus!
