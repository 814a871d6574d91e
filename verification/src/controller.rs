//! The terminal-hosting client's side of a session: what it does with each
//! message from the server, how it backs off between reconnections, and the
//! replies it sends about files.

use std::collections::HashMap;
use vstd::prelude::*;

use crate::ids::Sid;
use crate::pending::Pending;
use crate::shell::{concat, lemma_concat_push, lemma_concat_single};
use crate::protocol::{
    ClientMessage, DownloadFileResult, FileDownloadRequest, FileDownloadResponse,
    FileUploadRequest, FileUploadResponse, ListDirectoryRequest, ListDirectoryResponse,
    ListDirectoryResult, NewShell, ServerMessage, TerminalInput, TerminalSize, UploadFileResult,
};

verus! {

broadcast use vstd::std_specs::hash::group_hash_axioms;

/// Stream number under which the input of a shell is encrypted.
pub const INPUT_STREAM: u64 = 0x200000000;

/// The encryption key of every session this client opens.
pub const ENCRYPTION_KEY: &'static str = "view";

/// What a shell task is handed.
#[derive(Debug)]
pub enum ShellInput {
    /// Encrypted keystrokes at byte `offset` of the input stream.
    Data { offset: u64, data: Vec<u8> },
    /// The server holds this many output bytes of the shell.
    Sync(u64),
    /// New number of rows and columns.
    Size(u32, u32),
}

/// One effect of a server message on the client.
#[derive(Debug)]
pub enum ControllerAction {
    /// Hand this to the task of shell `Sid`.
    ToShell(Sid, ShellInput),
    /// Send this to the server.
    Send(ClientMessage),
    /// Start a shell task at this position and register it.
    Spawn(Sid, (i32, i32)),
    /// Close the session at the server and exit.
    Kick,
    /// List a directory and reply.
    ListDirectory(ListDirectoryRequest),
    /// Store a chunk of an uploaded file and reply when it is the last.
    Upload(FileUploadRequest),
    /// Send a file back in chunks.
    Download(FileDownloadRequest),
}

/// The effect of a server message other than `Sync`, given the ids of the
/// running shell tasks.
pub open spec fn planned_actions(shells: Set<u32>, msg: ServerMessage) -> Seq<ControllerAction> {
    match msg {
        ServerMessage::Input(input) => if shells.contains(input.id) {
            seq![
                ControllerAction::ToShell(
                    Sid(input.id),
                    ShellInput::Data { offset: input.offset, data: input.data },
                ),
            ]
        } else {
            seq![]
        },
        ServerMessage::CreateShell(new_shell) => if shells.contains(new_shell.id) {
            seq![]
        } else {
            seq![ControllerAction::Spawn(Sid(new_shell.id), (new_shell.x, new_shell.y))]
        },
        ServerMessage::CloseShell(id) => seq![ControllerAction::Send(ClientMessage::ClosedShell(id))],
        ServerMessage::Resize(size) => if shells.contains(size.id) {
            seq![ControllerAction::ToShell(Sid(size.id), ShellInput::Size(size.rows, size.cols))]
        } else {
            seq![]
        },
        ServerMessage::Ping(ts) => seq![ControllerAction::Send(ClientMessage::Pong(ts))],
        ServerMessage::Kick(_) => seq![ControllerAction::Kick],
        ServerMessage::ListDirectory(req) => seq![ControllerAction::ListDirectory(req)],
        ServerMessage::UploadFile(req) => seq![ControllerAction::Upload(req)],
        ServerMessage::DownloadFile(req) => if req.path@.len() == 0 {
            seq![]
        } else {
            seq![ControllerAction::Download(req)]
        },
        _ => seq![],
    }
}

/// Every file request from the server is served, whoever sent it and
/// whatever shells run: a directory listing is always listed and answered,
/// every upload chunk is stored (last or not), and a download of a named
/// file is always sent back.
pub proof fn law_file_requests_are_served(
    shells: Set<u32>,
    listing: ListDirectoryRequest,
    upload: FileUploadRequest,
    download: FileDownloadRequest,
)
    ensures
        planned_actions(shells, ServerMessage::ListDirectory(listing)) == seq![
            ControllerAction::ListDirectory(listing),
        ],
        planned_actions(shells, ServerMessage::UploadFile(upload)) == seq![
            ControllerAction::Upload(upload),
        ],
        download.path@.len() > 0 ==> planned_actions(shells, ServerMessage::DownloadFile(download))
            == seq![ControllerAction::Download(download)],
{
}

/// Shell messages reach exactly the shell they name: input and resizes go
/// to its task when it runs and are dropped otherwise, a new shell is
/// spawned once (never over a running one), a close is always reported
/// back, a ping is answered with the same timestamp, and a kick ends the
/// session.
pub proof fn law_shell_messages_reach_their_shell(
    shells: Set<u32>,
    input: TerminalInput,
    new_shell: NewShell,
    size: TerminalSize,
    closed: u32,
    ts: u64,
    reason: String,
)
    ensures
        shells.contains(input.id) ==> planned_actions(shells, ServerMessage::Input(input)) == seq![
            ControllerAction::ToShell(
                Sid(input.id),
                ShellInput::Data { offset: input.offset, data: input.data },
            ),
        ],
        !shells.contains(input.id) ==> planned_actions(shells, ServerMessage::Input(input)).len()
            == 0,
        shells.contains(size.id) ==> planned_actions(shells, ServerMessage::Resize(size)) == seq![
            ControllerAction::ToShell(Sid(size.id), ShellInput::Size(size.rows, size.cols)),
        ],
        !shells.contains(size.id) ==> planned_actions(shells, ServerMessage::Resize(size)).len()
            == 0,
        !shells.contains(new_shell.id) ==> planned_actions(
            shells,
            ServerMessage::CreateShell(new_shell),
        ) == seq![ControllerAction::Spawn(Sid(new_shell.id), (new_shell.x, new_shell.y))],
        shells.contains(new_shell.id) ==> planned_actions(
            shells,
            ServerMessage::CreateShell(new_shell),
        ).len() == 0,
        planned_actions(shells, ServerMessage::CloseShell(closed)) == seq![
            ControllerAction::Send(ClientMessage::ClosedShell(closed)),
        ],
        planned_actions(shells, ServerMessage::Ping(ts)) == seq![
            ControllerAction::Send(ClientMessage::Pong(ts)),
        ],
        planned_actions(shells, ServerMessage::Kick(reason)) == seq![ControllerAction::Kick],
{
}

/// The effect of a sequence number reported by the server for shell `id`:
/// handed to its task if it runs, else the server is told it is closed.
pub open spec fn sync_action(shells: Set<u32>, id: u32, seq: u64) -> ControllerAction {
    if shells.contains(id) {
        ControllerAction::ToShell(Sid(id), ShellInput::Sync(seq))
    } else {
        ControllerAction::Send(ClientMessage::ClosedShell(id))
    }
}

/// Seconds of quiet after which the back-off starts over.
pub const RETRY_RESET_SECS: u64 = 10;

/// Two to the power `e`.
pub open spec fn power_of_two(e: nat) -> nat
    decreases e,
{
    if e == 0 {
        1
    } else {
        2 * power_of_two((e - 1) as nat)
    }
}

/// Seconds to wait after the failure that follows `retries` failures in
/// a row: 1, 2, 4, 8, then 16 from then on.
pub open spec fn backoff_secs(retries: u32) -> nat {
    power_of_two(if retries < 4 { retries as nat } else { 4 })
}

/// What to do after the connection to the server failed.
#[derive(Clone, Copy, Debug, PartialEq, Eq, Structural)]
pub enum RetryDecision {
    /// Reconnection is off: stop the program.
    Exit,
    /// Wait this many seconds, then reconnect.
    Sleep(u64),
}

/// Counts failed connections in a row, to space out reconnections.
pub struct Backoff {
    retries: u32,
}

impl Backoff {
    pub closed spec fn retries(&self) -> u32 {
        self.retries
    }

    pub fn new() -> (b: Self)
        ensures
            b.retries() == 0,
    {
        Backoff { retries: 0 }
    }

    /// Failed connections in a row so far.
    pub fn failures(&self) -> (n: u32)
        ensures
            n == self.retries(),
    {
        self.retries
    }

    /// Decides after a failed connection. Without reconnection the program
    /// stops. Otherwise the count starts over if the last attempt was at
    /// least `RETRY_RESET_SECS` ago, the wait is `backoff_secs` of the count,
    /// and the count goes up by one.
    pub fn after_failure(&mut self, enable_reconnect: bool, long_since_last: bool) -> (d: RetryDecision)
        requires
            enable_reconnect && !long_since_last ==> old(self).retries() < u32::MAX,
        ensures
            !enable_reconnect ==> d == RetryDecision::Exit && final(self).retries() == old(
                self,
            ).retries(),
            enable_reconnect ==> {
                let count = if long_since_last { 0 } else { old(self).retries() };
                &&& d == RetryDecision::Sleep(backoff_secs(count) as u64)
                &&& final(self).retries() == count + 1
            },
    {
        if !enable_reconnect {
            return RetryDecision::Exit;
        }
        if long_since_last {
            self.retries = 0;
        }
        let exponent: u32 = if self.retries < 4 { self.retries } else { 4 };
        let mut secs: u64 = 1;
        let mut i: u32 = 0;
        while i < exponent
            invariant
                0 <= i <= exponent <= 4,
                secs == power_of_two(i as nat),
                secs <= 16,
            decreases exponent - i,
        {
            secs = secs * 2;
            i = i + 1;
            assert(power_of_two(i as nat) == 2 * power_of_two((i - 1) as nat));
            assert(secs <= 16) by {
                lemma_power_of_two_bound(i as nat);
            }
        }
        self.retries = self.retries + 1;
        RetryDecision::Sleep(secs)
    }
}

proof fn lemma_power_of_two_bound(e: nat)
    requires
        e <= 4,
    ensures
        power_of_two(e) <= 16,
{
    reveal_with_fuel(power_of_two, 5);
}

/// Waits never shrink as failures pile up, and never exceed 16 seconds.
pub proof fn law_backoff_grows_to_cap(retries: u32)
    ensures
        1 <= backoff_secs(retries) <= 16,
        retries < u32::MAX ==> backoff_secs(retries) <= backoff_secs((retries + 1) as u32),
        retries >= 4 ==> backoff_secs(retries) == 16,
{
    reveal_with_fuel(power_of_two, 5);
}

/// Whether a failed connection means the server no longer knows the
/// session, in which case it is opened afresh.
pub fn is_session_missing(code_is_not_found: bool, message: &str) -> (b: bool)
    ensures
        b == (code_is_not_found && message@ == "session not found"@),
{
    code_is_not_found && String::from_str(message) == String::from_str("session not found")
}

/// `prefix` followed by `detail`.
fn joined(prefix: &str, detail: &str) -> (s: String)
    ensures
        s@ == prefix@ + detail@,
{
    let mut s = String::from_str(prefix);
    s.append(detail);
    s
}

/// The reply to a listing request: the entries, or why the directory could
/// not be read.
pub fn listing_reply(token: String, listing: Result<Vec<crate::protocol::FileInfo>, String>) -> (m: ClientMessage)
    ensures
        m matches ClientMessage::ListDirectoryResult(res) && res.request_id == token && match listing {
            Ok(files) => res.error is None && res.response == Some(ListDirectoryResponse { files }),
            Err(e) => res.response is None && (res.error matches Some(text) && text@ == "无法读取目录: "@
                + e@),
        },
{
    match listing {
        Ok(files) => ClientMessage::ListDirectoryResult(
            ListDirectoryResult {
                request_id: token,
                error: None,
                response: Some(ListDirectoryResponse { files }),
            },
        ),
        Err(e) => ClientMessage::ListDirectoryResult(
            ListDirectoryResult {
                request_id: token,
                error: Some(joined("无法读取目录: ", e.as_str())),
                response: None,
            },
        ),
    }
}

/// The reply once the last chunk of an upload has been stored.
pub fn upload_done_reply(token: String) -> (m: ClientMessage)
    ensures
        m matches ClientMessage::UploadFileResult(res) && res.request_id == token && res.error is None
            && (res.response matches Some(r) && r.success && r.message@ == "文件上传成功"@),
{
    ClientMessage::UploadFileResult(
        UploadFileResult {
            request_id: token,
            error: None,
            response: Some(
                FileUploadResponse { success: true, message: String::from_str("文件上传成功") },
            ),
        },
    )
}

/// The reply when storing a chunk of an upload failed.
pub fn upload_failed_reply(token: String, err: &str) -> (m: ClientMessage)
    ensures
        m matches ClientMessage::UploadFileResult(res) && res.request_id == token && res.response is None
            && (res.error matches Some(text) && text@ == "文件上传失败: "@ + err@),
{
    ClientMessage::UploadFileResult(
        UploadFileResult {
            request_id: token,
            error: Some(joined("文件上传失败: ", err)),
            response: None,
        },
    )
}

/// Why a download could not be served.
#[derive(Debug)]
pub enum DownloadFailure {
    /// No file at this path.
    Missing(String),
    /// The file could not be opened.
    OpenFailed(String),
    /// Reading the file failed.
    ReadFailed(String),
    /// Serving the download failed otherwise.
    Failed(String),
}

/// The text of a download failure.
pub open spec fn download_failure_text(f: DownloadFailure) -> Seq<char> {
    match f {
        DownloadFailure::Missing(path) => "文件不存在: "@ + path@,
        DownloadFailure::OpenFailed(e) => "无法打开文件: "@ + e@,
        DownloadFailure::ReadFailed(e) => "读取文件失败: "@ + e@,
        DownloadFailure::Failed(e) => "文件下载失败: "@ + e@,
    }
}

/// The reply that reports a failed download.
pub fn download_failed_reply(token: String, failure: DownloadFailure) -> (m: ClientMessage)
    ensures
        m matches ClientMessage::DownloadFileResult(res) && res.request_id == token && res.response
            is None && (res.error matches Some(text) && text@ == download_failure_text(failure)),
{
    let text = match &failure {
        DownloadFailure::Missing(path) => joined("文件不存在: ", path.as_str()),
        DownloadFailure::OpenFailed(e) => joined("无法打开文件: ", e.as_str()),
        DownloadFailure::ReadFailed(e) => joined("读取文件失败: ", e.as_str()),
        DownloadFailure::Failed(e) => joined("文件下载失败: ", e.as_str()),
    };
    ClientMessage::DownloadFileResult(
        DownloadFileResult { request_id: token, error: Some(text), response: None },
    )
}

/// The reply after one read of a file being downloaded, and whether the
/// download is over: bytes read go out as a chunk; reading nothing ends the
/// file with an empty last chunk; a read error is reported and ends it.
pub fn download_read_reply(token: String, read: Result<Vec<u8>, String>) -> (r: (ClientMessage, bool))
    ensures
        r.0 matches ClientMessage::DownloadFileResult(res) && res.request_id == token && match read {
            Ok(bytes) => if bytes@.len() > 0 {
                &&& res.error is None
                &&& res.response == Some(FileDownloadResponse { chunk: bytes, is_last: false })
                &&& !r.1
            } else {
                &&& res.error is None
                &&& res.response matches Some(resp) && resp.chunk@.len() == 0 && resp.is_last
                &&& r.1
            },
            Err(e) => {
                &&& res.response is None
                &&& res.error matches Some(text) && text@ == "读取文件失败: "@ + e@
                &&& r.1
            },
        },
{
    match read {
        Ok(bytes) => {
            if bytes.len() > 0 {
                (
                    ClientMessage::DownloadFileResult(
                        DownloadFileResult {
                            request_id: token,
                            error: None,
                            response: Some(FileDownloadResponse { chunk: bytes, is_last: false }),
                        },
                    ),
                    false,
                )
            } else {
                (
                    ClientMessage::DownloadFileResult(
                        DownloadFileResult {
                            request_id: token,
                            error: None,
                            response: Some(FileDownloadResponse { chunk: Vec::new(), is_last: true }),
                        },
                    ),
                    true,
                )
            }
        },
        Err(e) => (
            ClientMessage::DownloadFileResult(
                DownloadFileResult {
                    request_id: token,
                    error: Some(joined("读取文件失败: ", e.as_str())),
                    response: None,
                },
            ),
            true,
        ),
    }
}

/// A download request with an empty path, which is how the server says a
/// download is complete, never starts a download or anything else.
pub proof fn law_completion_notice_ignored(shells: Set<u32>, req: FileDownloadRequest)
    requires
        req.path@.len() == 0,
    ensures
        planned_actions(shells, ServerMessage::DownloadFile(req)) == Seq::<ControllerAction>::empty(),
{
}

/// What the target file of an upload holds after a chunk is stored: the
/// chunk alone when the file is replaced, else the file followed by it.
pub open spec fn stored_after(file: Seq<u8>, replace: bool, chunk: Seq<u8>) -> Seq<u8> {
    if replace {
        chunk
    } else {
        file + chunk
    }
}

/// The bytes of a run of upload chunks, each given with its `is_last` flag.
pub open spec fn chunk_bytes(chunks: Seq<(Seq<u8>, bool)>) -> Seq<Seq<u8>> {
    chunks.map_values(|c: (Seq<u8>, bool)| c.0)
}

/// The uploads in progress and the target file after chunks of upload
/// `token` are stored in turn, each as the client does it: the chunk
/// replaces the file when `begin_upload_chunk` reports a new upload and is
/// appended otherwise, and a last chunk ends the upload (`finish_upload`).
pub open spec fn upload_run(
    uploads: Set<Seq<char>>,
    file: Seq<u8>,
    token: Seq<char>,
    chunks: Seq<(Seq<u8>, bool)>,
) -> (Set<Seq<char>>, Seq<u8>)
    decreases chunks.len(),
{
    if chunks.len() == 0 {
        (uploads, file)
    } else {
        let before = upload_run(uploads, file, token, chunks.drop_last());
        let (chunk, is_last) = chunks.last();
        let stored = stored_after(before.1, !before.0.contains(token), chunk);
        let started = before.0.insert(token);
        (if is_last { started.remove(token) } else { started }, stored)
    }
}

proof fn lemma_upload_prefix(
    uploads: Set<Seq<char>>,
    file: Seq<u8>,
    token: Seq<char>,
    chunks: Seq<(Seq<u8>, bool)>,
    j: int,
)
    requires
        1 <= j <= chunks.len(),
        !uploads.contains(token),
        forall|i: int| 0 <= i < j ==> !(#[trigger] chunks[i]).1,
    ensures
        upload_run(uploads, file, token, chunks.take(j)) == (
            uploads.insert(token),
            concat(chunk_bytes(chunks.take(j))),
        ),
    decreases j,
{
    let p = chunks.take(j);
    assert(p.last() == chunks[j - 1]);
    if j == 1 {
        assert(p.drop_last() =~= Seq::<(Seq<u8>, bool)>::empty());
        assert(upload_run(uploads, file, token, p.drop_last()) == (uploads, file));
        assert(chunk_bytes(p) =~= seq![chunks[0].0]);
        lemma_concat_single(chunks[0].0);
    } else {
        lemma_upload_prefix(uploads, file, token, chunks, j - 1);
        assert(p.drop_last() =~= chunks.take(j - 1));
        assert(chunk_bytes(p) =~= chunk_bytes(chunks.take(j - 1)).push(chunks[j - 1].0));
        lemma_concat_push(chunk_bytes(chunks.take(j - 1)), chunks[j - 1].0);
        assert(uploads.insert(token).insert(token) =~= uploads.insert(token));
    }
}

/// An upload sent as a run of chunks, of which only the last is marked last,
/// leaves exactly the chunks' bytes in the target file, whatever it held
/// before, and is no longer in progress afterwards; while the run lasts the
/// upload stays in progress, so every chunk after the first is appended.
pub proof fn law_upload_run_stores_file(
    uploads: Set<Seq<char>>,
    file: Seq<u8>,
    token: Seq<char>,
    chunks: Seq<(Seq<u8>, bool)>,
)
    requires
        !uploads.contains(token),
        chunks.len() > 0,
        chunks.last().1,
        forall|i: int| 0 <= i < chunks.len() - 1 ==> !(#[trigger] chunks[i]).1,
    ensures
        upload_run(uploads, file, token, chunks) == (uploads, concat(chunk_bytes(chunks))),
        forall|j: int|
            1 <= j < chunks.len() ==> #[trigger] upload_run(uploads, file, token, chunks.take(j)).0
                == uploads.insert(token),
{
    let k = chunks.len() as int;
    let c = chunks[k - 1].0;
    assert(chunks.take(k) =~= chunks);
    assert forall|j: int| 1 <= j < chunks.len() implies #[trigger] upload_run(
        uploads,
        file,
        token,
        chunks.take(j),
    ).0 == uploads.insert(token) by {
        lemma_upload_prefix(uploads, file, token, chunks, j);
    }
    if k == 1 {
        assert(chunks.drop_last() =~= Seq::<(Seq<u8>, bool)>::empty());
        assert(upload_run(uploads, file, token, chunks.drop_last()) == (uploads, file));
        assert(chunk_bytes(chunks) =~= seq![c]);
        lemma_concat_single(c);
    } else {
        lemma_upload_prefix(uploads, file, token, chunks, k - 1);
        assert(chunks.drop_last() =~= chunks.take(k - 1));
        assert(chunk_bytes(chunks) =~= chunk_bytes(chunks.take(k - 1)).push(c));
        lemma_concat_push(chunk_bytes(chunks.take(k - 1)), c);
    }
    assert(uploads.insert(token).insert(token).remove(token) =~= uploads);
    assert(uploads.insert(token).remove(token) =~= uploads);
}

spec fn walked_id<'a>(walk: Seq<(&'a u32, &'a u64)>, n: int, key: u32) -> bool {
    exists|i: int| 0 <= i < n && *walk[i].0 == key
}

/// The client's session: what it was opened as, and its running shells, each
/// with the handle `S` through which its task is fed.
pub struct Controller<S> {
    enable_reconnect: bool,
    origin: String,
    encryption_key: String,
    name: String,
    password: String,
    token: String,
    url: String,
    write_url: Option<String>,
    shells: HashMap<u32, S>,
    uploading: Pending<()>,
}

impl<S> Controller<S> {
    /// The running shells, by id.
    pub closed spec fn shells(&self) -> Map<u32, S> {
        self.shells@
    }

    /// The upload tokens of files being written.
    pub closed spec fn uploads(&self) -> Set<Seq<char>> {
        self.uploading.view().dom()
    }

    pub closed spec fn name_text(&self) -> Seq<char> {
        self.name@
    }

    pub closed spec fn token_text(&self) -> Seq<char> {
        self.token@
    }

    pub closed spec fn url_text(&self) -> Seq<char> {
        self.url@
    }

    pub closed spec fn write_url_text(&self) -> Option<Seq<char>> {
        match self.write_url {
            Some(u) => Some(u@),
            None => None,
        }
    }

    pub closed spec fn key_text(&self) -> Seq<char> {
        self.encryption_key@
    }

    pub closed spec fn origin_text(&self) -> Seq<char> {
        self.origin@
    }

    pub closed spec fn password_text(&self) -> Seq<char> {
        self.password@
    }

    pub closed spec fn reconnects(&self) -> bool {
        self.enable_reconnect
    }

    pub closed spec fn wf(&self) -> bool {
        self.uploading.wf()
    }

    /// What the session was opened as: name, token, address for viewers,
    /// address for writers, encryption key, origin, password, and whether
    /// the client reconnects.
    pub open spec fn identity(&self) -> (
        Seq<char>,
        Seq<char>,
        Seq<char>,
        Option<Seq<char>>,
        Seq<char>,
        Seq<char>,
        Seq<char>,
        bool,
    ) {
        (
            self.name_text(),
            self.token_text(),
            self.url_text(),
            self.write_url_text(),
            self.key_text(),
            self.origin_text(),
            self.password_text(),
            self.reconnects(),
        )
    }

    /// A session opened at `origin` that the server named `opened_name`,
    /// with token `token` and address `base_url`. The address handed to
    /// viewers carries the encryption key after a `#`; with a nonempty
    /// password, the address for writers adds it after a comma.
    pub fn new(
        origin: &str,
        password: &str,
        enable_reconnect: bool,
        opened_name: String,
        token: String,
        base_url: &str,
    ) -> (c: Self)
        ensures
            c.wf(),
            c.shells() == Map::<u32, S>::empty(),
            c.uploads() == Set::<Seq<char>>::empty(),
            c.name_text() == opened_name@,
            c.token_text() == token@,
            c.origin_text() == origin@,
            c.password_text() == password@,
            c.reconnects() == enable_reconnect,
            c.key_text() == ENCRYPTION_KEY@,
            c.url_text() == base_url@ + "#"@ + ENCRYPTION_KEY@,
            password@.len() == 0 ==> c.write_url_text() is None,
            password@.len() > 0 ==> c.write_url_text() == Some(
                base_url@ + "#"@ + ENCRYPTION_KEY@ + ","@ + password@,
            ),
    {
        let encryption_key = String::from_str(ENCRYPTION_KEY);
        let mut url = String::from_str(base_url);
        url.append("#");
        url.append(encryption_key.as_str());
        let write_url = if !password.is_empty() {
            let mut w = url.clone();
            w.append(",");
            w.append(password);
            Some(w)
        } else {
            None
        };
        let c = Controller {
            enable_reconnect,
            origin: String::from_str(origin),
            encryption_key,
            name: opened_name,
            password: String::from_str(password),
            token,
            url,
            write_url,
            shells: HashMap::new(),
            uploading: Pending::new(),
        };
        assert(c.uploads() =~= Set::<Seq<char>>::empty());
        c
    }

    /// The name of the session.
    pub fn name(&self) -> (s: &str)
        ensures
            s@ == self.name_text(),
    {
        self.name.as_str()
    }

    /// The address of the session for viewers.
    pub fn url(&self) -> (s: &str)
        ensures
            s@ == self.url_text(),
    {
        self.url.as_str()
    }

    /// The address of the session for writers, if it has a password.
    pub fn write_url(&self) -> (s: Option<&str>)
        ensures
            match s {
                Some(t) => self.write_url_text() == Some(t@),
                None => self.write_url_text() is None,
            },
    {
        match &self.write_url {
            Some(u) => Some(u.as_str()),
            None => None,
        }
    }

    /// The encryption key, which the server never sees.
    pub fn encryption_key(&self) -> (s: &str)
        ensures
            s@ == self.key_text(),
    {
        self.encryption_key.as_str()
    }

    /// The server the session lives on.
    pub fn origin(&self) -> (s: &str)
        ensures
            s@ == self.origin_text(),
    {
        self.origin.as_str()
    }

    /// The write password, possibly empty.
    pub fn password(&self) -> (s: &str)
        ensures
            s@ == self.password_text(),
    {
        self.password.as_str()
    }

    /// The session token.
    pub fn token(&self) -> (s: &str)
        ensures
            s@ == self.token_text(),
    {
        self.token.as_str()
    }

    /// Whether the client reconnects after losing the server.
    pub fn enable_reconnect(&self) -> (b: bool)
        ensures
            b == self.reconnects(),
    {
        self.enable_reconnect
    }

    /// The first message on a new connection: "name,token".
    pub fn hello(&self) -> (m: ClientMessage)
        ensures
            m matches ClientMessage::Hello(text) && text@ == self.name_text() + ","@
                + self.token_text(),
    {
        let mut text = self.name.clone();
        text.append(",");
        text.append(self.token.as_str());
        ClientMessage::Hello(text)
    }

    /// Notes that a chunk of upload `token` is about to be stored; returns
    /// whether it is the first chunk seen of that upload, in which case the
    /// target file is replaced rather than appended to.
    pub fn begin_upload_chunk(&mut self, token: &String) -> (is_new: bool)
        requires
            old(self).wf(),
        ensures
            final(self).wf(),
            final(self).identity() == old(self).identity(),
            is_new == !old(self).uploads().contains(token@),
            final(self).uploads() == old(self).uploads().insert(token@),
            final(self).shells() == old(self).shells(),
    {
        let is_new = !self.uploading.contains_key(token);
        self.uploading.insert(token.clone(), ());
        assert(self.uploading.view().dom() =~= old(self).uploading.view().dom().insert(token@));
        is_new
    }

    /// Notes that the last chunk of upload `token` has been stored.
    pub fn finish_upload(&mut self, token: &String)
        requires
            old(self).wf(),
        ensures
            final(self).wf(),
            final(self).identity() == old(self).identity(),
            final(self).uploads() == old(self).uploads().remove(token@),
            final(self).shells() == old(self).shells(),
    {
        self.uploading.remove(token);
        assert(self.uploading.view().dom() =~= old(self).uploading.view().dom().remove(token@));
    }

    /// The task handle of shell `id`, if it runs.
    pub fn shell(&self, id: Sid) -> (r: Option<&S>)
        ensures
            match r {
                Some(s) => self.shells().contains_key(id.0) && *s == self.shells()[id.0],
                None => !self.shells().contains_key(id.0),
            },
    {
        self.shells.get(&id.0)
    }

    /// Registers the task of a newly spawned shell.
    pub fn register_shell(&mut self, id: Sid, handle: S) -> (replaced: bool)
        requires
            old(self).wf(),
        ensures
            final(self).wf(),
            final(self).identity() == old(self).identity(),
            final(self).shells() == old(self).shells().insert(id.0, handle),
            replaced == old(self).shells().contains_key(id.0),
            final(self).uploads() == old(self).uploads(),
    {
        self.shells.insert(id.0, handle).is_some()
    }

    /// Decides what to do with a message from the server. Shells are
    /// forgotten here when the server closes them; new ones are registered
    /// with `register_shell` once spawned.
    pub fn handle_server_message(&mut self, msg: ServerMessage) -> (r: Vec<ControllerAction>)
        requires
            old(self).wf(),
        ensures
            final(self).wf(),
            final(self).identity() == old(self).identity(),
            final(self).uploads() == old(self).uploads(),
            msg matches ServerMessage::CloseShell(id) ==> final(self).shells() == old(self).shells().remove(id),
            !(msg is CloseShell) ==> final(self).shells() == old(self).shells(),
            !(msg is Sync) ==> r@ == planned_actions(old(self).shells().dom(), msg),
            msg matches ServerMessage::ListDirectory(req) ==> r@ == seq![
                ControllerAction::ListDirectory(req),
            ],
            msg matches ServerMessage::UploadFile(req) ==> r@ == seq![ControllerAction::Upload(req)],
            msg matches ServerMessage::DownloadFile(req) ==> (req.path@.len() > 0 ==> r@ == seq![
                ControllerAction::Download(req),
            ]),
            msg matches ServerMessage::Sync(seqnums) ==> exists|order: Seq<u32>|
                {
                    &&& order.no_duplicates()
                    &&& order.to_set() == seqnums.map@.dom()
                    &&& r@.len() == order.len()
                    &&& forall|i: int|
                        0 <= i < order.len() ==> #[trigger] r@[i] == sync_action(
                            old(self).shells().dom(),
                            order[i],
                            seqnums.map@[order[i]],
                        )
                },
    {
        let mut actions: Vec<ControllerAction> = Vec::new();
        match msg {
            ServerMessage::Input(input) => {
                if self.shells.contains_key(&input.id) {
                    actions.push(
                        ControllerAction::ToShell(
                            Sid(input.id),
                            ShellInput::Data { offset: input.offset, data: input.data },
                        ),
                    );
                }
            },
            ServerMessage::CreateShell(new_shell) => {
                if !self.shells.contains_key(&new_shell.id) {
                    actions.push(
                        ControllerAction::Spawn(Sid(new_shell.id), (new_shell.x, new_shell.y)),
                    );
                }
            },
            ServerMessage::CloseShell(id) => {
                self.shells.remove(&id);
                actions.push(ControllerAction::Send(ClientMessage::ClosedShell(id)));
            },
            ServerMessage::Sync(seqnums) => {
                let ghost shells = self.shells@.dom();
                let ghost map = seqnums.map@;
                let ghost mut order: Seq<u32> = Seq::empty();
                for (id, seq) in it: seqnums.map.iter()
                    invariant
                        self.shells@.dom() == shells,
                        seqnums.map@ == map,
                        it.seq().no_duplicates(),
                        order.len() == it.index@,
                        actions@.len() == it.index@,
                        forall|i: int| 0 <= i < it.index@ ==> order[i] == *it.seq()[i].0,
                        forall|i: int| 0 <= i < order.len() ==> map.contains_key(#[trigger] order[i]),
                        order.no_duplicates(),
                        forall|key: u32|
                            #[trigger] order.contains(key) <==> walked_id(it.seq(), it.index@, key),
                        forall|i: int|
                            0 <= i < it.index@ ==> #[trigger] actions@[i] == sync_action(
                                shells,
                                order[i],
                                map[order[i]],
                            ),
                {
                    proof {
                        let w = it.seq();
                        let n = it.index@;
                        assert(map.contains_key(*id) && map[*id] == *seq);
                        assert forall|i: int| 0 <= i < order.len() implies order[i] != *id by {
                            if order[i] == *id {
                                assert(*w[i].0 == *id);
                                assert(*w[i].1 == map[*id]);
                                assert(w[i] == w[n]);
                            }
                        }
                        let before = order;
                        order = order.push(*id);
                        assert forall|key: u32| #[trigger] order.contains(key) <==> walked_id(w, n + 1, key) by {
                            if order.contains(key) {
                                let i = choose|i: int| 0 <= i < order.len() && order[i] == key;
                                assert(*w[i].0 == key);
                            }
                            if walked_id(w, n + 1, key) {
                                let i = choose|i: int| 0 <= i < n + 1 && *w[i].0 == key;
                                assert(order[i] == key);
                            }
                        }
                    }
                    if self.shells.contains_key(id) {
                        actions.push(ControllerAction::ToShell(Sid(*id), ShellInput::Sync(*seq)));
                    } else {
                        actions.push(ControllerAction::Send(ClientMessage::ClosedShell(*id)));
                    }
                }
                proof {
                    assert(order.to_set() =~= map.dom()) by {
                        assert forall|key: u32| map.contains_key(key) implies order.to_set().contains(key) by {
                            assert(order.contains(key));
                        }
                    }
                }
            },
            ServerMessage::Resize(size) => {
                if self.shells.contains_key(&size.id) {
                    actions.push(
                        ControllerAction::ToShell(Sid(size.id), ShellInput::Size(size.rows, size.cols)),
                    );
                }
            },
            ServerMessage::Ping(ts) => {
                actions.push(ControllerAction::Send(ClientMessage::Pong(ts)));
            },
            ServerMessage::Error(_) => {},
            ServerMessage::Kick(_) => {
                actions.push(ControllerAction::Kick);
            },
            ServerMessage::ListDirectory(req) => {
                actions.push(ControllerAction::ListDirectory(req));
            },
            ServerMessage::UploadFile(req) => {
                actions.push(ControllerAction::Upload(req));
            },
            ServerMessage::DownloadFile(req) => {
                if !req.path.as_str().is_empty() {
                    actions.push(ControllerAction::Download(req));
                }
            },
            ServerMessage::DeleteFile(_) => {},
            ServerMessage::CreateDirectory(_) => {},
        }
        actions
    }
}

} // verus!
