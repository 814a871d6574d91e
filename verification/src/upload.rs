//! Relaying a file uploaded over HTTP to the terminal client: the multipart
//! fields are read one by one, the file's bytes are gathered into chunks of at
//! least `CHUNK_SIZE` bytes, and each chunk is handed to the session in turn.

use vstd::prelude::*;

use crate::protocol::FileUploadRequest;
use crate::shell::{concat, lemma_concat_push};

verus! {

/// Bytes gathered before a chunk is handed on (4 MiB).
pub const CHUNK_SIZE: usize = 4194304;

/// Whether `c` has the Unicode White_Space property.
pub open spec fn is_white_space(c: char) -> bool {
    ||| ('\u{9}' <= c && c <= '\u{d}')
    ||| c == ' '
    ||| c == '\u{85}'
    ||| c == '\u{a0}'
    ||| c == '\u{1680}'
    ||| ('\u{2000}' <= c && c <= '\u{200a}')
    ||| c == '\u{2028}'
    ||| c == '\u{2029}'
    ||| c == '\u{202f}'
    ||| c == '\u{205f}'
    ||| c == '\u{3000}'
}

/// Whether a text consists of white space only (the empty text included).
pub open spec fn is_blank(s: Seq<char>) -> bool {
    forall|i: int| 0 <= i < s.len() ==> is_white_space(#[trigger] s[i])
}

/// Whether `r` is `s` with its leading and trailing white space removed: a
/// slice of `s` with only white space before and after it, that neither
/// starts nor ends with white space.
pub open spec fn trims_to(s: Seq<char>, r: Seq<char>) -> bool {
    exists|lo: int, hi: int|
        {
            &&& 0 <= lo <= hi <= s.len()
            &&& r == s.subrange(lo, hi)
            &&& forall|i: int| 0 <= i < lo ==> is_white_space(#[trigger] s[i])
            &&& forall|i: int| hi <= i < s.len() ==> is_white_space(#[trigger] s[i])
            &&& lo < hi ==> !is_white_space(s[lo]) && !is_white_space(s[hi - 1])
        }
}

/// std's `str::trim`, which its documentation describes as the text with
/// leading and trailing White_Space characters removed: a slice of the text
/// with only white space before and after it, that neither starts nor ends
/// with white space.
#[verifier::external_body]
fn trim(s: &str) -> (r: &str)
    ensures
        trims_to(s@, r@),
{
    s.trim()
}

/// Whether a path is blank: trimming its white space leaves nothing.
fn path_is_blank(path: &str) -> (b: bool)
    ensures
        b == is_blank(path@),
{
    let t = trim(path);
    let b = t.is_empty();
    proof {
        let (lo, hi) = choose|lo: int, hi: int|
            {
                &&& 0 <= lo <= hi <= path@.len()
                &&& t@ == path@.subrange(lo, hi)
                &&& forall|i: int| 0 <= i < lo ==> is_white_space(#[trigger] path@[i])
                &&& forall|i: int| hi <= i < path@.len() ==> is_white_space(#[trigger] path@[i])
                &&& lo < hi ==> !is_white_space(path@[lo]) && !is_white_space(path@[hi - 1])
            };
        if b {
            assert forall|i: int| 0 <= i < path@.len() implies is_white_space(#[trigger] path@[i]) by {
                if i < lo {
                } else {
                    assert(hi <= i);
                }
            }
        } else {
            assert(lo < hi);
            assert(!is_white_space(path@[lo]));
        }
    }
    b
}

/// One thing read from the multipart request.
#[derive(Debug)]
pub enum UploadEvent {
    /// The text of a field named "path", or why it could not be read.
    PathField(Result<String, String>),
    /// A field named "file" begins.
    FileStart,
    /// A piece of the "file" field.
    FileData(Vec<u8>),
    /// The "file" field has no more pieces.
    FileEnd,
    /// A field with another name, which is skipped.
    OtherField,
    /// Whether the chunk last handed on reached the session.
    Sent(Result<(), String>),
    /// The request has no more fields.
    Finished,
}

/// The answer to the upload request.
#[derive(Debug, PartialEq, Eq)]
pub enum UploadResponse {
    /// 400: the target path is blank.
    EmptyPath,
    /// 400: the target path could not be read.
    PathReadFailed(String),
    /// 400: the file came before any target path.
    PathRequired,
    /// 500: a chunk could not be handed on.
    SendFailed(String),
    /// 200: this many bytes were relayed.
    Uploaded(usize),
    /// 400: no file bytes arrived.
    NoData,
}

/// What to do after an event.
#[derive(Debug)]
pub enum UploadStep {
    /// Read the next event.
    Continue,
    /// Hand this chunk to the session, then report how that went.
    Send(FileUploadRequest),
    /// Answer the request; the upload is over.
    Respond(UploadResponse),
}

/// Where the reading of the request stands.
#[derive(Clone, Copy, Debug, PartialEq, Eq, Structural)]
pub enum UploadPhase {
    /// Between fields.
    Fields,
    /// Inside the "file" field.
    InFile,
    /// A chunk has been handed on; `is_last` if it ends the file.
    Sending { is_last: bool },
    /// The request has been answered.
    Done,
}

/// Whether `event` can come next in `phase`.
pub open spec fn accepts(phase: UploadPhase, event: UploadEvent) -> bool {
    match phase {
        UploadPhase::Fields => match event {
            UploadEvent::PathField(_) | UploadEvent::FileStart | UploadEvent::OtherField
            | UploadEvent::Finished => true,
            _ => false,
        },
        UploadPhase::InFile => event is FileData || event is FileEnd,
        UploadPhase::Sending { .. } => event is Sent,
        UploadPhase::Done => false,
    }
}

/// The state of one upload.
pub struct UploadAssembler {
    token: String,
    target_path: String,
    got_path: bool,
    total_size: usize,
    buffer: Vec<u8>,
    phase: UploadPhase,
    received: Ghost<Seq<u8>>,
    delivered: Ghost<Seq<Seq<u8>>>,
}

impl UploadAssembler {
    /// Every file byte read so far, in order.
    pub closed spec fn received(&self) -> Seq<u8> {
        self.received@
    }

    /// The chunks that reached the session, in order.
    pub closed spec fn delivered(&self) -> Seq<Seq<u8>> {
        self.delivered@
    }

    /// File bytes read but not yet handed on.
    pub closed spec fn pending(&self) -> Seq<u8> {
        self.buffer@
    }

    pub closed spec fn phase(&self) -> UploadPhase {
        self.phase
    }

    pub closed spec fn token_text(&self) -> Seq<char> {
        self.token@
    }

    /// Whether `other` holds the same path and file bytes as this one.
    pub open spec fn holds_same(&self, other: &UploadAssembler) -> bool {
        &&& self.target() == other.target()
        &&& self.received() == other.received()
        &&& self.delivered() == other.delivered()
        &&& self.pending() == other.pending()
    }

    pub closed spec fn target(&self) -> Option<Seq<char>> {
        if self.got_path {
            Some(self.target_path@)
        } else {
            None
        }
    }

    pub closed spec fn wf(&self) -> bool {
        &&& self.total_size == self.received@.len()
        &&& concat(self.delivered@) + self.buffer@ == self.received@
        &&& forall|i: int|
            0 <= i < self.delivered@.len() ==> #[trigger] self.delivered@[i].len() > 0
        &&& forall|i: int|
            0 <= i < self.delivered@.len() - 1 ==> #[trigger] self.delivered@[i].len()
                >= CHUNK_SIZE
        &&& !(self.phase is Done) ==> forall|i: int|
            0 <= i < self.delivered@.len() ==> #[trigger] self.delivered@[i].len() >= CHUNK_SIZE
        &&& match self.phase {
            UploadPhase::Fields => self.buffer@.len() == 0,
            UploadPhase::InFile => self.buffer@.len() < CHUNK_SIZE,
            UploadPhase::Sending { is_last } => self.buffer@.len() > 0 && (!is_last
                ==> self.buffer@.len() >= CHUNK_SIZE),
            UploadPhase::Done => true,
        }
        &&& self.got_path ==> !is_blank(self.target_path@)
        &&& self.phase is InFile || self.phase is Sending ==> self.got_path
        &&& self.delivered@.len() > 0 ==> self.got_path
    }

    /// A new upload whose chunks carry `token`.
    pub fn new(token: String) -> (u: Self)
        ensures
            u.wf(),
            u.phase() == UploadPhase::Fields,
            u.token_text() == token@,
            u.target() is None,
            u.received() == Seq::<u8>::empty(),
            u.delivered() == Seq::<Seq<u8>>::empty(),
    {
        let u = UploadAssembler {
            token,
            target_path: String::new(),
            got_path: false,
            total_size: 0,
            buffer: Vec::new(),
            phase: UploadPhase::Fields,
            received: Ghost(Seq::empty()),
            delivered: Ghost(Seq::empty()),
        };
        assert(concat(Seq::<Seq<u8>>::empty()) + Seq::<u8>::empty() =~= Seq::<u8>::empty());
        u
    }

    /// Where the upload stands.
    pub fn current_phase(&self) -> (p: UploadPhase)
        ensures
            p == self.phase(),
    {
        self.phase
    }

    /// Bytes of the file read so far.
    pub fn total_size(&self) -> (n: usize)
        requires
            self.wf(),
        ensures
            n == self.received().len(),
    {
        self.total_size
    }

    fn chunk_request(&self, is_last: bool) -> (r: FileUploadRequest)
        ensures
            r.path@ == self.target_path@,
            r.chunk@ == self.buffer@,
            r.token@ == self.token@,
            r.is_last == is_last,
    {
        let chunk = self.buffer.clone();
        assert(chunk@ =~= self.buffer@);
        FileUploadRequest {
            path: self.target_path.clone(),
            chunk,
            token: self.token.clone(),
            is_last,
        }
    }

    /// Takes the next event and says what to do.
    ///
    /// A blank or unreadable path, or a file before any path, answers 400.
    /// File bytes are gathered and handed on whenever `CHUNK_SIZE` of them
    /// are waiting; when the file field ends, what is left goes as the last
    /// chunk and, once it has arrived, the request is answered with the number
    /// of bytes. A chunk that does not arrive answers 500. At the end of the
    /// request, the answer is 400 if no file bytes came, else the count.
    pub fn step(&mut self, event: UploadEvent) -> (s: UploadStep)
        requires
            old(self).wf(),
            accepts(old(self).phase(), event),
            event matches UploadEvent::FileData(d) ==> old(self).received().len() + d@.len()
                <= usize::MAX,
        ensures
            final(self).wf(),
            final(self).token_text() == old(self).token_text(),
            match event {
                UploadEvent::PathField(Ok(path)) => if is_blank(path@) {
                    &&& s == UploadStep::Respond(UploadResponse::EmptyPath)
                    &&& final(self).phase() == UploadPhase::Done
                    &&& final(self).holds_same(old(self))
                } else {
                    &&& s == UploadStep::Continue
                    &&& final(self).phase() == UploadPhase::Fields
                    &&& final(self).target() == Some(path@)
                    &&& final(self).received() == old(self).received()
                    &&& final(self).delivered() == old(self).delivered()
                },
                UploadEvent::PathField(Err(e)) => {
                    &&& s == UploadStep::Respond(UploadResponse::PathReadFailed(e))
                    &&& final(self).phase() == UploadPhase::Done
                    &&& final(self).holds_same(old(self))
                },
                UploadEvent::OtherField => {
                    &&& s == UploadStep::Continue
                    &&& final(self).phase() == UploadPhase::Fields
                    &&& final(self).target() == old(self).target()
                    &&& final(self).received() == old(self).received()
                    &&& final(self).delivered() == old(self).delivered()
                },
                UploadEvent::FileStart => if old(self).target() is None {
                    &&& s == UploadStep::Respond(UploadResponse::PathRequired)
                    &&& final(self).phase() == UploadPhase::Done
                    &&& final(self).holds_same(old(self))
                } else {
                    &&& s == UploadStep::Continue
                    &&& final(self).phase() == UploadPhase::InFile
                    &&& final(self).target() == old(self).target()
                    &&& final(self).received() == old(self).received()
                    &&& final(self).delivered() == old(self).delivered()
                },
                UploadEvent::FileData(d) => {
                    &&& final(self).received() == old(self).received() + d@
                    &&& final(self).pending() == old(self).pending() + d@
                    &&& final(self).delivered() == old(self).delivered()
                    &&& final(self).target() == old(self).target()
                    &&& if final(self).pending().len() >= CHUNK_SIZE {
                        &&& final(self).phase() == (UploadPhase::Sending { is_last: false })
                        &&& s matches UploadStep::Send(req) && req.chunk@ == final(self).pending()
                            && !req.is_last && req.token@ == old(self).token_text() && Some(
                            req.path@,
                        ) == old(self).target()
                    } else {
                        &&& s == UploadStep::Continue
                        &&& final(self).phase() == UploadPhase::InFile
                    }
                },
                UploadEvent::FileEnd => {
                    &&& final(self).received() == old(self).received()
                    &&& final(self).delivered() == old(self).delivered()
                    &&& final(self).target() == old(self).target()
                    &&& if old(self).pending().len() > 0 {
                        &&& final(self).phase() == (UploadPhase::Sending { is_last: true })
                        &&& s matches UploadStep::Send(req) && req.chunk@ == old(self).pending()
                            && req.is_last && req.token@ == old(self).token_text() && Some(
                            req.path@,
                        ) == old(self).target()
                    } else {
                        &&& s == UploadStep::Continue
                        &&& final(self).phase() == UploadPhase::Fields
                    }
                },
                UploadEvent::Sent(Err(e)) => {
                    &&& s == UploadStep::Respond(UploadResponse::SendFailed(e))
                    &&& final(self).phase() == UploadPhase::Done
                    &&& final(self).holds_same(old(self))
                },
                UploadEvent::Sent(Ok(())) => {
                    &&& final(self).delivered() == old(self).delivered().push(old(self).pending())
                    &&& final(self).received() == old(self).received()
                    &&& final(self).pending() == Seq::<u8>::empty()
                    &&& final(self).target() == old(self).target()
                    &&& old(self).phase() == (UploadPhase::Sending { is_last: true }) ==> {
                        &&& s == UploadStep::Respond(
                            UploadResponse::Uploaded(old(self).received().len() as usize),
                        )
                        &&& final(self).phase() == UploadPhase::Done
                    }
                    &&& old(self).phase() == (UploadPhase::Sending { is_last: false }) ==> {
                        &&& s == UploadStep::Continue
                        &&& final(self).phase() == UploadPhase::InFile
                    }
                },
                UploadEvent::Finished => {
                    &&& final(self).phase() == UploadPhase::Done
                    &&& final(self).pending() == old(self).pending()
                    &&& final(self).received() == old(self).received()
                    &&& final(self).delivered() == old(self).delivered()
                    &&& old(self).received().len() == 0 ==> s == UploadStep::Respond(
                        UploadResponse::NoData,
                    )
                    &&& old(self).received().len() > 0 ==> s == UploadStep::Respond(
                        UploadResponse::Uploaded(old(self).received().len() as usize),
                    )
                },
            },
    {
        match event {
            UploadEvent::PathField(Ok(path)) => {
                if path_is_blank(path.as_str()) {
                    self.phase = UploadPhase::Done;
                    UploadStep::Respond(UploadResponse::EmptyPath)
                } else {
                    self.target_path = path;
                    self.got_path = true;
                    UploadStep::Continue
                }
            },
            UploadEvent::PathField(Err(e)) => {
                self.phase = UploadPhase::Done;
                UploadStep::Respond(UploadResponse::PathReadFailed(e))
            },
            UploadEvent::OtherField => UploadStep::Continue,
            UploadEvent::FileStart => {
                if !self.got_path {
                    self.phase = UploadPhase::Done;
                    UploadStep::Respond(UploadResponse::PathRequired)
                } else {
                    self.phase = UploadPhase::InFile;
                    UploadStep::Continue
                }
            },
            UploadEvent::FileData(data) => {
                let ghost old_buffer = self.buffer@;
                let mut data = data;
                let ghost piece = data@;
                self.total_size = self.total_size + data.len();
                self.buffer.append(&mut data);
                self.received = Ghost(self.received@ + piece);
                assert(concat(self.delivered@) + self.buffer@ =~= concat(self.delivered@)
                    + old_buffer + piece);
                if self.buffer.len() >= CHUNK_SIZE {
                    self.phase = UploadPhase::Sending { is_last: false };
                    UploadStep::Send(self.chunk_request(false))
                } else {
                    UploadStep::Continue
                }
            },
            UploadEvent::FileEnd => {
                if self.buffer.len() > 0 {
                    self.phase = UploadPhase::Sending { is_last: true };
                    UploadStep::Send(self.chunk_request(true))
                } else {
                    self.phase = UploadPhase::Fields;
                    UploadStep::Continue
                }
            },
            UploadEvent::Sent(Err(e)) => {
                self.phase = UploadPhase::Done;
                UploadStep::Respond(UploadResponse::SendFailed(e))
            },
            UploadEvent::Sent(Ok(())) => {
                let ghost old_delivered = self.delivered@;
                let ghost chunk = self.buffer@;
                proof {
                    lemma_concat_push(old_delivered, chunk);
                }
                self.delivered = Ghost(self.delivered@.push(chunk));
                self.buffer.clear();
                assert(concat(self.delivered@) + self.buffer@ =~= concat(old_delivered) + chunk);
                match self.phase {
                    UploadPhase::Sending { is_last: true } => {
                        self.phase = UploadPhase::Done;
                        UploadStep::Respond(UploadResponse::Uploaded(self.total_size))
                    },
                    _ => {
                        self.phase = UploadPhase::InFile;
                        UploadStep::Continue
                    },
                }
            },
            UploadEvent::Finished => {
                self.phase = UploadPhase::Done;
                if self.total_size == 0 {
                    UploadStep::Respond(UploadResponse::NoData)
                } else {
                    UploadStep::Respond(UploadResponse::Uploaded(self.total_size))
                }
            },
        }
    }
}

/// Nothing is lost or reordered: whenever no bytes wait to be handed on (in
/// particular between fields, and after the last chunk has arrived), the
/// chunks that reached the session, one after another, are exactly the bytes
/// of the file as they were read; every chunk holds at least `CHUNK_SIZE`
/// bytes except possibly the last.
pub proof fn law_relayed_bytes_are_the_file(u: &UploadAssembler)
    requires
        u.wf(),
        u.phase() == UploadPhase::Fields || u.pending().len() == 0,
    ensures
        u.pending().len() == 0,
        concat(u.delivered()) == u.received(),
        forall|i: int| 0 <= i < u.delivered().len() - 1 ==> #[trigger] u.delivered()[i].len() >= CHUNK_SIZE,
{
    assert(concat(u.delivered()) + Seq::<u8>::empty() =~= concat(u.delivered()));
}

} // verus!
