//! Requests the server relays to the terminal client and waits on: the
//! registry of those still waiting, keyed by request id, and how a reply, a
//! failure or a timeout becomes the answer to the caller that made the request.

use vstd::prelude::*;

use crate::protocol::{FileDownloadRequest, ServerMessage};

verus! {

/// Seconds to wait for a directory listing.
pub const LIST_DIRECTORY_TIMEOUT_SECS: u64 = 10;

/// Seconds to wait for the end of an upload.
pub const UPLOAD_TIMEOUT_SECS: u64 = 30;

/// Capacity of the channel that carries the chunks of a download.
pub const DOWNLOAD_CHANNEL_CAPACITY: usize = 128;

/// The keys of a list of entries.
pub open spec fn keys_of<T>(entries: Seq<(String, T)>) -> Seq<Seq<char>> {
    entries.map_values(|e: (String, T)| e.0@)
}

/// The map a list of entries with distinct keys stands for.
pub open spec fn entries_map<T>(entries: Seq<(String, T)>) -> Map<Seq<char>, T> {
    Map::new(
        |k: Seq<char>| exists|i: int| 0 <= i < entries.len() && entries[i].0@ == k,
        |k: Seq<char>|
            entries[choose|i: int| 0 <= i < entries.len() && entries[i].0@ == k].1,
    )
}

/// The requests still waiting for a reply, each with what the reply is to be
/// handed to.
pub struct Pending<T> {
    entries: Vec<(String, T)>,
}

impl<T> Pending<T> {
    pub closed spec fn view(&self) -> Map<Seq<char>, T> {
        entries_map(self.entries@)
    }

    pub closed spec fn wf(&self) -> bool {
        forall|i: int, j: int|
            0 <= i < j < self.entries@.len() ==> self.entries@[i].0@ != self.entries@[j].0@
    }

    /// No request waits.
    pub fn new() -> (p: Self)
        ensures
            p.wf(),
            p.view() == Map::<Seq<char>, T>::empty(),
    {
        let p = Pending { entries: Vec::new() };
        assert(p.view() =~= Map::<Seq<char>, T>::empty());
        p
    }

    /// Number of waiting requests.
    pub fn len(&self) -> (n: usize)
        requires
            self.wf(),
        ensures
            n == self.view().len(),
    {
        proof {
            self.lemma_len();
        }
        self.entries.len()
    }

    proof fn lemma_len(&self)
        requires
            self.wf(),
        ensures
            self.view().dom() == keys_of(self.entries@).to_set(),
            self.view().len() == self.entries@.len(),
    {
        let ks = keys_of(self.entries@);
        assert(self.view().dom() =~= ks.to_set()) by {
            assert forall|k: Seq<char>| self.view().dom().contains(k) implies ks.to_set().contains(k) by {
                let i = choose|i: int| 0 <= i < self.entries@.len() && self.entries@[i].0@ == k;
                assert(ks[i] == k);
            }
            assert forall|k: Seq<char>| ks.to_set().contains(k) implies self.view().dom().contains(k) by {
                let i = choose|i: int| 0 <= i < ks.len() && ks[i] == k;
                assert(self.entries@[i].0@ == k);
            }
        }
        assert(ks.no_duplicates()) by {
            assert forall|i: int, j: int| 0 <= i < ks.len() && 0 <= j < ks.len() && i != j implies ks[i] != ks[j] by {
                if i < j {
                    assert(self.entries@[i].0@ != self.entries@[j].0@);
                } else {
                    assert(self.entries@[j].0@ != self.entries@[i].0@);
                }
            }
        }
        ks.unique_seq_to_set();
    }

    fn position(&self, id: &String) -> (r: Option<usize>)
        requires
            self.wf(),
        ensures
            match r {
                Some(i) => i < self.entries@.len() && self.entries@[i as int].0@ == id@,
                None => !self.view().contains_key(id@),
            },
    {
        let mut i: usize = 0;
        while i < self.entries.len()
            invariant
                0 <= i <= self.entries@.len(),
                forall|j: int| 0 <= j < i ==> self.entries@[j].0@ != id@,
            decreases self.entries@.len() - i,
        {
            if self.entries[i].0 == *id {
                return Some(i);
            }
            i = i + 1;
        }
        None
    }

    proof fn lemma_entry_is_value(&self, i: int)
        requires
            self.wf(),
            0 <= i < self.entries@.len(),
        ensures
            self.view().contains_key(self.entries@[i].0@),
            self.view()[self.entries@[i].0@] == self.entries@[i].1,
    {
        let k = self.entries@[i].0@;
        let j = choose|j: int| 0 <= j < self.entries@.len() && self.entries@[j].0@ == k;
        if j != i {
            if j < i {
                assert(self.entries@[j].0@ != self.entries@[i].0@);
            } else {
                assert(self.entries@[i].0@ != self.entries@[j].0@);
            }
        }
    }

    /// Whether a request with this id waits.
    pub fn contains_key(&self, id: &String) -> (b: bool)
        requires
            self.wf(),
        ensures
            b == self.view().contains_key(id@),
    {
        let r = self.position(id);
        proof {
            if let Some(i) = r {
                self.lemma_entry_is_value(i as int);
            }
        }
        r.is_some()
    }

    /// What the reply to request `id` is to be handed to.
    pub fn get(&self, id: &String) -> (r: Option<&T>)
        requires
            self.wf(),
        ensures
            match r {
                Some(v) => self.view().contains_key(id@) && *v == self.view()[id@],
                None => !self.view().contains_key(id@),
            },
    {
        match self.position(id) {
            Some(i) => {
                proof {
                    self.lemma_entry_is_value(i as int);
                }
                Some(&self.entries[i].1)
            },
            None => None,
        }
    }

    /// Registers request `id`, replacing a request with the same id.
    pub fn insert(&mut self, id: String, value: T)
        requires
            old(self).wf(),
        ensures
            final(self).wf(),
            final(self).view() == old(self).view().insert(id@, value),
    {
        let ghost k = id@;
        self.remove(&id);
        let ghost before = *self;
        self.entries.push((id, value));
        proof {
            let n = before.entries@.len();
            assert forall|i: int, j: int| 0 <= i < j < self.entries@.len() implies self.entries@[i].0@
                != self.entries@[j].0@ by {
                if j == n {
                    assert(self.entries@[i] == before.entries@[i]);
                    before.lemma_entry_is_value(i);
                }
            }
            assert(self.view() =~= before.view().insert(k, value)) by {
                assert forall|key: Seq<char>| self.view().contains_key(key) <==> before.view().insert(k, value).contains_key(key) by {
                    if before.view().contains_key(key) {
                        let j = choose|j: int| 0 <= j < n && before.entries@[j].0@ == key;
                        assert(self.entries@[j].0@ == key);
                    }
                    if key == k {
                        assert(self.entries@[n as int].0@ == key);
                    }
                    if self.view().contains_key(key) {
                        let j = choose|j: int| 0 <= j < self.entries@.len() && self.entries@[j].0@ == key;
                        if j < n {
                            assert(before.entries@[j].0@ == key);
                        }
                    }
                }
                assert forall|key: Seq<char>| self.view().contains_key(key) implies self.view()[key] == before.view().insert(k, value)[key] by {
                    let j = choose|j: int| 0 <= j < self.entries@.len() && self.entries@[j].0@ == key;
                    self.lemma_entry_is_value(j);
                    if j < n {
                        assert(self.entries@[j] == before.entries@[j]);
                        before.lemma_entry_is_value(j);
                    }
                }
            }
        }
    }

    /// Withdraws request `id`, returning what its reply was to be handed to.
    pub fn remove(&mut self, id: &String) -> (r: Option<T>)
        requires
            old(self).wf(),
        ensures
            final(self).wf(),
            final(self).view() == old(self).view().remove(id@),
            match r {
                Some(v) => old(self).view().contains_key(id@) && v == old(self).view()[id@],
                None => !old(self).view().contains_key(id@),
            },
    {
        match self.position(id) {
            None => {
                assert(self.view() =~= old(self).view().remove(id@));
                None
            },
            Some(i) => {
                proof {
                    old(self).lemma_entry_is_value(i as int);
                }
                let (_, v) = self.entries.remove(i);
                proof {
                    let k = id@;
                    let old_entries = old(self).entries@;
                    assert forall|a: int, b: int| 0 <= a < b < self.entries@.len() implies self.entries@[a].0@
                        != self.entries@[b].0@ by {
                        let a2 = if a < i { a } else { a + 1 };
                        let b2 = if b < i { b } else { b + 1 };
                        assert(self.entries@[a] == old_entries[a2]);
                        assert(self.entries@[b] == old_entries[b2]);
                    }
                    assert(self.view() =~= old(self).view().remove(k)) by {
                        assert forall|key: Seq<char>| self.view().contains_key(key) <==> old(self).view().remove(k).contains_key(key) by {
                            if self.view().contains_key(key) {
                                let j = choose|j: int| 0 <= j < self.entries@.len() && self.entries@[j].0@ == key;
                                let j2 = if j < i { j } else { j + 1 };
                                assert(old_entries[j2].0@ == key);
                                if key == k {
                                    if j2 < i {
                                        assert(old_entries[j2].0@ != old_entries[i as int].0@);
                                    } else {
                                        assert(old_entries[i as int].0@ != old_entries[j2].0@);
                                    }
                                }
                            }
                            if old(self).view().remove(k).contains_key(key) {
                                let j = choose|j: int| 0 <= j < old_entries.len() && old_entries[j].0@ == key;
                                assert(j != i);
                                if j < i {
                                    assert(self.entries@[j].0@ == key);
                                } else {
                                    assert(self.entries@[j - 1].0@ == key);
                                }
                            }
                        }
                        assert forall|key: Seq<char>| self.view().contains_key(key) implies self.view()[key] == old(self).view().remove(k)[key] by {
                            let j = choose|j: int| 0 <= j < self.entries@.len() && self.entries@[j].0@ == key;
                            self.lemma_entry_is_value(j);
                            let j2 = if j < i { j } else { j + 1 };
                            assert(self.entries@[j] == old_entries[j2]);
                            old(self).lemma_entry_is_value(j2);
                        }
                    }
                }
                Some(v)
            },
        }
    }
}

/// Registering a request and then withdrawing it leaves the registry as it
/// was, provided no request with that id was waiting before.
pub proof fn law_register_then_withdraw<T>(waiting: Map<Seq<char>, T>, id: Seq<char>, value: T)
    requires
        !waiting.contains_key(id),
    ensures
        waiting.insert(id, value).remove(id) == waiting,
        waiting.insert(id, value)[id] == value,
{
    assert(waiting.insert(id, value).remove(id) =~= waiting);
}

/// Why a relayed request failed.
#[derive(Clone, Debug, PartialEq, Eq)]
pub enum RequestError {
    /// The request could not be queued for the terminal client.
    SendFailed(String),
    /// A chunk of an upload could not be queued for the terminal client.
    ChunkSendFailed(String),
    /// The terminal client reported this error.
    Remote(String),
    /// The terminal client replied with neither an error nor a result.
    EmptyResponse,
    /// The reply channel closed before a reply came.
    ReceiveFailed(String),
    /// No reply came in time.
    TimedOut,
}

/// The text of a request error, as reported to the caller.
pub open spec fn request_error_text(e: RequestError) -> Seq<char> {
    match e {
        RequestError::SendFailed(m) => "发送请求失败: "@ + m@,
        RequestError::ChunkSendFailed(m) => "发送文件块失败: "@ + m@,
        RequestError::Remote(m) => m@,
        RequestError::EmptyResponse => "无效的响应: 既没有错误也没有结果"@,
        RequestError::ReceiveFailed(m) => "接收响应失败: "@ + m@,
        RequestError::TimedOut => "请求超时"@,
    }
}

impl RequestError {
    /// The text of this error, as reported to the caller.
    pub fn message(&self) -> (s: String)
        ensures
            s@ == request_error_text(*self),
    {
        match self {
            RequestError::SendFailed(m) => {
                let mut s = String::from_str("发送请求失败: ");
                s.append(m.as_str());
                s
            },
            RequestError::ChunkSendFailed(m) => {
                let mut s = String::from_str("发送文件块失败: ");
                s.append(m.as_str());
                s
            },
            RequestError::Remote(m) => m.clone(),
            RequestError::EmptyResponse => String::from_str("无效的响应: 既没有错误也没有结果"),
            RequestError::ReceiveFailed(m) => {
                let mut s = String::from_str("接收响应失败: ");
                s.append(m.as_str());
                s
            },
            RequestError::TimedOut => String::from_str("请求超时"),
        }
    }
}

/// The answer a reply from the terminal client stands for: its error if it
/// reports one, else its result, else a complaint that it holds neither.
pub open spec fn resolution<T>(error: Option<String>, response: Option<T>) -> Result<T, RequestError> {
    match (error, response) {
        (Some(e), _) => Err(RequestError::Remote(e)),
        (None, Some(v)) => Ok(v),
        (None, None) => Err(RequestError::EmptyResponse),
    }
}

/// Turns a reply from the terminal client into the answer it stands for.
pub fn resolve_response<T>(error: Option<String>, response: Option<T>) -> (r: Result<T, RequestError>)
    ensures
        r == resolution(error, response),
{
    match (error, response) {
        (Some(e), _) => Err(RequestError::Remote(e)),
        (None, Some(v)) => Ok(v),
        (None, None) => Err(RequestError::EmptyResponse),
    }
}

/// How the wait for a reply ended.
#[derive(Debug)]
pub enum WaitOutcome<T> {
    /// The reply came.
    Replied(Result<T, RequestError>),
    /// The reply channel closed, for this reason.
    Dropped(String),
    /// The time ran out.
    TimedOut,
}

/// The answer to the caller once the wait for a reply has ended: the reply,
/// or why none came.
pub open spec fn wait_answer<T>(outcome: WaitOutcome<T>) -> Result<T, RequestError> {
    match outcome {
        WaitOutcome::Replied(reply) => reply,
        WaitOutcome::Dropped(e) => Err(RequestError::ReceiveFailed(e)),
        WaitOutcome::TimedOut => Err(RequestError::TimedOut),
    }
}

/// Turns the end of a wait into the answer to the caller.
pub fn finish_wait<T>(outcome: WaitOutcome<T>) -> (r: Result<T, RequestError>)
    ensures
        r == wait_answer(outcome),
{
    match outcome {
        WaitOutcome::Replied(reply) => reply,
        WaitOutcome::Dropped(e) => Err(RequestError::ReceiveFailed(e)),
        WaitOutcome::TimedOut => Err(RequestError::TimedOut),
    }
}

/// What follows the hand-over of one download chunk to the waiting reader.
#[derive(Clone, Copy, Debug, PartialEq, Eq, Structural)]
pub enum ChunkFollowUp {
    /// More chunks are to come; keep the download registered.
    Wait,
    /// That was the last chunk: withdraw the download and tell the terminal
    /// client it is complete.
    Finish,
    /// The reader is gone or full: withdraw the download.
    Abandon,
}

/// The follow-up to handing a download chunk over, given whether the reader
/// took it and whether it was the last one.
pub fn after_chunk_delivery(delivered: bool, is_last: bool) -> (f: ChunkFollowUp)
    ensures
        f == (if !delivered {
            ChunkFollowUp::Abandon
        } else if is_last {
            ChunkFollowUp::Finish
        } else {
            ChunkFollowUp::Wait
        }),
{
    if !delivered {
        ChunkFollowUp::Abandon
    } else if is_last {
        ChunkFollowUp::Finish
    } else {
        ChunkFollowUp::Wait
    }
}

/// The message telling the terminal client that download `request_id` is
/// complete: a download request with an empty path.
pub fn download_complete_notice(request_id: String) -> (m: ServerMessage)
    ensures
        m matches ServerMessage::DownloadFile(req) && req.path@.len() == 0 && req.token
            == request_id,
{
    ServerMessage::DownloadFile(FileDownloadRequest { path: String::new(), token: request_id })
}

} // verus!
