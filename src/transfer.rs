//! File transfer with a guest: open, a loop of reads or writes, then close.
//!
//! Each transfer is a session driven one reply at a time: `step` takes the
//! outcome of the last command and says what to send next or how the
//! transfer ended. Once a handle has been opened, every path to the end goes
//! through exactly one close command, whatever failed before it.

use vstd::prelude::*;
use crate::codec::{base64_decoded, base64_of, decode_base64, encode_base64};
use crate::identity::{find_str_member, find_true_member, str_member, true_member};
use crate::wire::{
    close_cmd, close_command, open_cmd, open_command, read_cmd, read_command, write_cmd,
    write_command, Command, CommandModel, Reply, Scalar, TransportError,
};

verus! {

/// Bytes asked for by each read, and the most sent by each write.
pub const CHUNK_SIZE: usize = 4096;

/// A reply that lacked what the protocol needs.
#[derive(PartialEq, Eq, Structural, Clone, Copy, Debug)]
pub enum ProtocolError {
    /// The open reply had no integer handle.
    NoHandle,
    /// A read reply had no `return` payload.
    NoReturn,
    /// A read reply had no `buf-b64` string.
    NoBuffer,
    /// The `buf-b64` string was not valid base64.
    BadBuffer,
}

/// Why a transfer failed.
#[derive(Debug)]
pub enum AgentError {
    Transport(String),
    Protocol(ProtocolError),
}

pub enum ErrorModel {
    Transport(Seq<char>),
    Protocol(ProtocolError),
}

pub open spec fn error_model(e: AgentError) -> ErrorModel {
    match e {
        AgentError::Transport(m) => ErrorModel::Transport(m@),
        AgentError::Protocol(p) => ErrorModel::Protocol(p),
    }
}

/// The outcome of one command, as the transport hands it back.
pub type Event = Result<Reply, TransportError>;

/// The handle in an open reply: an integer `return` payload.
pub open spec fn reply_handle(r: Reply) -> Option<i64> {
    match r.ret {
        Some(ret) => match ret.value {
            Scalar::Int(h) => Some(h),
            _ => None,
        },
        None => None,
    }
}

/// The handle in an open reply.
pub fn handle_of(r: &Reply) -> (h: Option<i64>)
    ensures
        h == reply_handle(*r),
{
    match &r.ret {
        Some(ret) => match &ret.value {
            Scalar::Int(h) => Some(*h),
            _ => None,
        },
        None => None,
    }
}

/// The bytes of a read reply and whether it reached the end of the file.
/// A missing `eof` counts as `false`.
pub open spec fn read_reply(r: Reply) -> Result<(Seq<u8>, bool), ProtocolError> {
    match r.ret {
        None => Err(ProtocolError::NoReturn),
        Some(ret) => match str_member(ret.members@, "buf-b64"@) {
            None => Err(ProtocolError::NoBuffer),
            Some(b) => match base64_decoded(b) {
                None => Err(ProtocolError::BadBuffer),
                Some(bytes) => Ok((bytes, true_member(ret.members@, "eof"@))),
            },
        },
    }
}

/// Decodes a read reply (see `read_reply`).
pub fn decode_read_reply(r: &Reply) -> (out: Result<(Vec<u8>, bool), ProtocolError>)
    ensures
        match out {
            Ok((b, eof)) => read_reply(*r) == Ok::<(Seq<u8>, bool), ProtocolError>((b@, eof)),
            Err(p) => read_reply(*r) == Err::<(Seq<u8>, bool), ProtocolError>(p),
        },
{
    match &r.ret {
        None => Err(ProtocolError::NoReturn),
        Some(ret) => match find_str_member(&ret.members, "buf-b64") {
            None => Err(ProtocolError::NoBuffer),
            Some(b) => match decode_base64(b.as_str()) {
                None => Err(ProtocolError::BadBuffer),
                Some(bytes) => Ok((bytes, find_true_member(&ret.members, "eof"))),
            },
        },
    }
}

/// Where a session stands.
#[derive(PartialEq, Eq, Structural, Clone, Copy, Debug)]
pub enum Phase {
    /// The open command is out.
    Opening,
    /// The handle is open; a read or write command is out.
    Transferring { handle: i64 },
    /// The close command is out.
    Closing { handle: i64 },
    /// The outcome has been handed out.
    Finished,
}

// ---------------------------------------------------------------- reading

pub struct ReadModel {
    pub phase: Phase,
    pub content: Seq<u8>,
    pub failure: Option<ErrorModel>,
}

pub enum ReadAction {
    Send(CommandModel),
    Finish(Result<Seq<u8>, ErrorModel>),
}

/// What a read session does next.
pub enum ReadStep {
    Send(Command),
    Finish(Result<Vec<u8>, AgentError>),
}

pub open spec fn read_step_model(s: ReadStep) -> ReadAction {
    match s {
        ReadStep::Send(c) => ReadAction::Send(c@),
        ReadStep::Finish(Ok(v)) => ReadAction::Finish(Ok(v@)),
        ReadStep::Finish(Err(e)) => ReadAction::Finish(Err(error_model(e))),
    }
}

/// One move of a read session: the state after an event, and what to do.
pub open spec fn read_next(s: ReadModel, ev: Event) -> (ReadModel, ReadAction) {
    match s.phase {
        Phase::Opening => match ev {
            Err(e) => (
                ReadModel { phase: Phase::Finished, content: seq![], failure: None },
                ReadAction::Finish(Err(ErrorModel::Transport(e.message@))),
            ),
            Ok(reply) => match reply_handle(reply) {
                Some(h) => (
                    ReadModel { phase: Phase::Transferring { handle: h }, content: seq![], failure: None },
                    ReadAction::Send(read_cmd(h as int, CHUNK_SIZE as int)),
                ),
                None => (
                    ReadModel { phase: Phase::Finished, content: seq![], failure: None },
                    ReadAction::Finish(Err(ErrorModel::Protocol(ProtocolError::NoHandle))),
                ),
            },
        },
        Phase::Transferring { handle } => match ev {
            Err(e) => (
                ReadModel {
                    phase: Phase::Closing { handle },
                    content: s.content,
                    failure: Some(ErrorModel::Transport(e.message@)),
                },
                ReadAction::Send(close_cmd(handle as int)),
            ),
            Ok(reply) => match read_reply(reply) {
                Err(p) => (
                    ReadModel {
                        phase: Phase::Closing { handle },
                        content: s.content,
                        failure: Some(ErrorModel::Protocol(p)),
                    },
                    ReadAction::Send(close_cmd(handle as int)),
                ),
                Ok((bytes, eof)) => if eof {
                    (
                        ReadModel { phase: Phase::Closing { handle }, content: s.content + bytes, failure: None },
                        ReadAction::Send(close_cmd(handle as int)),
                    )
                } else {
                    (
                        ReadModel { phase: Phase::Transferring { handle }, content: s.content + bytes, failure: None },
                        ReadAction::Send(read_cmd(handle as int, CHUNK_SIZE as int)),
                    )
                },
            },
        },
        Phase::Closing { .. } => (
            ReadModel { phase: Phase::Finished, content: seq![], failure: None },
            ReadAction::Finish(
                match s.failure {
                    Some(e) => Err(e),
                    None => Ok(s.content),
                },
            ),
        ),
        Phase::Finished => (s, ReadAction::Finish(Ok(seq![]))),
    }
}

/// A read of one guest file.
pub struct FileRead {
    phase: Phase,
    content: Vec<u8>,
    failure: Option<AgentError>,
}

impl View for FileRead {
    type V = ReadModel;

    closed spec fn view(&self) -> ReadModel {
        ReadModel {
            phase: self.phase,
            content: self.content@,
            failure: match self.failure {
                Some(e) => Some(error_model(e)),
                None => None,
            },
        }
    }
}

impl FileRead {
    /// Starts a read of `path`: the session, and the open command to send.
    pub fn start(path: &str) -> (r: (FileRead, Command))
        ensures
            r.0@ == (ReadModel { phase: Phase::Opening, content: seq![], failure: None }),
            r.1@ == open_cmd(path@, "r"@),
    {
        let s = FileRead { phase: Phase::Opening, content: Vec::new(), failure: None };
        (s, open_command(path, "r"))
    }

    pub fn is_finished(&self) -> (r: bool)
        ensures
            r == (self@.phase is Finished),
    {
        self.phase == Phase::Finished
    }

    /// Takes the outcome of the last command sent, and says what comes next.
    pub fn step(&mut self, event: Event) -> (r: ReadStep)
        requires
            !(old(self)@.phase is Finished),
        ensures
            (final(self)@, read_step_model(r)) == read_next(old(self)@, event),
    {
        match self.phase {
            Phase::Opening => match event {
                Err(e) => {
                    self.phase = Phase::Finished;
                    self.content = Vec::new();
                    self.failure = None;
                    ReadStep::Finish(Err(AgentError::Transport(e.message)))
                },
                Ok(reply) => match handle_of(&reply) {
                    Some(h) => {
                        self.phase = Phase::Transferring { handle: h };
                        self.content = Vec::new();
                        self.failure = None;
                        ReadStep::Send(read_command(h, CHUNK_SIZE as i64))
                    },
                    None => {
                        self.phase = Phase::Finished;
                        self.content = Vec::new();
                        self.failure = None;
                        ReadStep::Finish(Err(AgentError::Protocol(ProtocolError::NoHandle)))
                    },
                },
            },
            Phase::Transferring { handle } => {
                let failure = match event {
                    Err(e) => Some(AgentError::Transport(e.message)),
                    Ok(reply) => match decode_read_reply(&reply) {
                        Err(p) => Some(AgentError::Protocol(p)),
                        Ok((mut bytes, eof)) => {
                            self.content.append(&mut bytes);
                            if eof {
                                self.phase = Phase::Closing { handle };
                                self.failure = None;
                                return ReadStep::Send(close_command(handle));
                            }
                            self.failure = None;
                            return ReadStep::Send(read_command(handle, CHUNK_SIZE as i64));
                        },
                    },
                };
                self.phase = Phase::Closing { handle };
                self.failure = failure;
                ReadStep::Send(close_command(handle))
            },
            Phase::Closing { .. } => {
                self.phase = Phase::Finished;
                let mut content: Vec<u8> = Vec::new();
                std::mem::swap(&mut content, &mut self.content);
                let failure = self.failure.take();
                match failure {
                    Some(e) => ReadStep::Finish(Err(e)),
                    None => ReadStep::Finish(Ok(content)),
                }
            },
            Phase::Finished => ReadStep::Finish(Ok(Vec::new())),
        }
    }
}

// ---------------------------------------------------------------- writing

/// Number of chunks that `len` bytes are sent in.
pub open spec fn chunk_count(len: nat) -> nat {
    ((len + 4095) / 4096) as nat
}

/// The bytes of chunk `k`: `CHUNK_SIZE` bytes from `4096 * k`, or what is left.
pub open spec fn chunk_at(c: Seq<u8>, k: int) -> Seq<u8> {
    c.subrange(4096 * k, if 4096 * k + 4096 <= c.len() { 4096 * k + 4096 } else { c.len() as int })
}

/// The consecutive chunks that `c` is written in.
pub open spec fn write_chunks(c: Seq<u8>) -> Seq<Seq<u8>> {
    Seq::new(chunk_count(c.len()), |k: int| chunk_at(c, k))
}

pub struct WriteModel {
    pub phase: Phase,
    pub content: Seq<u8>,
    /// Chunks handed out so far.
    pub sent: nat,
    pub failure: Option<ErrorModel>,
}

pub enum WriteAction {
    Send(CommandModel),
    Finish(Result<(), ErrorModel>),
}

/// What a write session does next.
pub enum WriteStep {
    Send(Command),
    Finish(Result<(), AgentError>),
}

pub open spec fn write_step_model(s: WriteStep) -> WriteAction {
    match s {
        WriteStep::Send(c) => WriteAction::Send(c@),
        WriteStep::Finish(Ok(())) => WriteAction::Finish(Ok(())),
        WriteStep::Finish(Err(e)) => WriteAction::Finish(Err(error_model(e))),
    }
}

/// With `handle` open: the next chunk, or the close once all were sent.
pub open spec fn write_more(s: WriteModel, handle: i64) -> (WriteModel, WriteAction) {
    if s.sent < chunk_count(s.content.len()) {
        (
            WriteModel { phase: Phase::Transferring { handle }, sent: s.sent + 1, failure: None, ..s },
            WriteAction::Send(write_cmd(handle as int, base64_of(write_chunks(s.content)[s.sent as int]))),
        )
    } else {
        (
            WriteModel { phase: Phase::Closing { handle }, failure: None, ..s },
            WriteAction::Send(close_cmd(handle as int)),
        )
    }
}

/// One move of a write session: the state after an event, and what to do.
pub open spec fn write_next(s: WriteModel, ev: Event) -> (WriteModel, WriteAction) {
    match s.phase {
        Phase::Opening => match ev {
            Err(e) => (
                WriteModel { phase: Phase::Finished, failure: None, ..s },
                WriteAction::Finish(Err(ErrorModel::Transport(e.message@))),
            ),
            Ok(reply) => match reply_handle(reply) {
                Some(h) => write_more(WriteModel { sent: 0, ..s }, h),
                None => (
                    WriteModel { phase: Phase::Finished, failure: None, ..s },
                    WriteAction::Finish(Err(ErrorModel::Protocol(ProtocolError::NoHandle))),
                ),
            },
        },
        Phase::Transferring { handle } => match ev {
            Err(e) => (
                WriteModel {
                    phase: Phase::Closing { handle },
                    failure: Some(ErrorModel::Transport(e.message@)),
                    ..s
                },
                WriteAction::Send(close_cmd(handle as int)),
            ),
            Ok(_) => write_more(s, handle),
        },
        Phase::Closing { .. } => (
            WriteModel { phase: Phase::Finished, failure: None, ..s },
            WriteAction::Finish(
                match s.failure {
                    Some(e) => Err(e),
                    None => Ok(()),
                },
            ),
        ),
        Phase::Finished => (s, WriteAction::Finish(Ok(()))),
    }
}

/// A write of one guest file.
pub struct FileWrite {
    phase: Phase,
    content: Vec<u8>,
    sent: usize,
    failure: Option<AgentError>,
}

impl View for FileWrite {
    type V = WriteModel;

    closed spec fn view(&self) -> WriteModel {
        WriteModel {
            phase: self.phase,
            content: self.content@,
            sent: self.sent as nat,
            failure: match self.failure {
                Some(e) => Some(error_model(e)),
                None => None,
            },
        }
    }
}

impl FileWrite {
    pub closed spec fn wf(&self) -> bool {
        &&& self.sent <= chunk_count(self.content@.len())
        &&& self.content@.len() <= usize::MAX / 2
    }

    /// Starts writing `content` to `path`: the session, and the open command.
    pub fn start(path: &str, content: Vec<u8>) -> (r: (FileWrite, Command))
        requires
            content@.len() <= usize::MAX / 2,
        ensures
            r.0.wf(),
            r.0@ == (WriteModel { phase: Phase::Opening, content: content@, sent: 0, failure: None }),
            r.1@ == open_cmd(path@, "w"@),
    {
        let s = FileWrite { phase: Phase::Opening, content, sent: 0, failure: None };
        (s, open_command(path, "w"))
    }

    pub fn is_finished(&self) -> (r: bool)
        ensures
            r == (self@.phase is Finished),
    {
        self.phase == Phase::Finished
    }

    fn send_more(&mut self, handle: i64) -> (r: WriteStep)
        requires
            old(self).wf(),
        ensures
            final(self).wf(),
            (final(self)@, write_step_model(r)) == write_more(old(self)@, handle),
    {
        let len = self.content.len();
        let count: usize = len / CHUNK_SIZE + if len % CHUNK_SIZE == 0 { 0 } else { 1 };
        assert(count == chunk_count(len as nat)) by (nonlinear_arith)
            requires count == len / 4096 + if len % 4096 == 0 { 0int } else { 1int };
        self.failure = None;
        if self.sent < count {
            let k = self.sent;
            assert(4096 * k < len) by (nonlinear_arith)
                requires k < count, count == (len + 4095) / 4096;
            let start = k * CHUNK_SIZE;
            let end = if len - start >= CHUNK_SIZE { start + CHUNK_SIZE } else { len };
            let chunk = &self.content.as_slice()[start..end];
            assert(chunk@ == write_chunks(self.content@)[k as int]);
            let buf = encode_base64(chunk);
            self.phase = Phase::Transferring { handle };
            self.sent = k + 1;
            WriteStep::Send(write_command(handle, buf))
        } else {
            self.phase = Phase::Closing { handle };
            WriteStep::Send(close_command(handle))
        }
    }

    /// Takes the outcome of the last command sent, and says what comes next.
    pub fn step(&mut self, event: Event) -> (r: WriteStep)
        requires
            old(self).wf(),
            !(old(self)@.phase is Finished),
        ensures
            final(self).wf(),
            (final(self)@, write_step_model(r)) == write_next(old(self)@, event),
    {
        match self.phase {
            Phase::Opening => match event {
                Err(e) => {
                    self.phase = Phase::Finished;
                    self.failure = None;
                    WriteStep::Finish(Err(AgentError::Transport(e.message)))
                },
                Ok(reply) => match handle_of(&reply) {
                    Some(h) => {
                        self.sent = 0;
                        self.send_more(h)
                    },
                    None => {
                        self.phase = Phase::Finished;
                        self.failure = None;
                        WriteStep::Finish(Err(AgentError::Protocol(ProtocolError::NoHandle)))
                    },
                },
            },
            Phase::Transferring { handle } => match event {
                Err(e) => {
                    self.phase = Phase::Closing { handle };
                    self.failure = Some(AgentError::Transport(e.message));
                    WriteStep::Send(close_command(handle))
                },
                Ok(_) => self.send_more(handle),
            },
            Phase::Closing { .. } => {
                self.phase = Phase::Finished;
                let failure = self.failure.take();
                match failure {
                    Some(e) => WriteStep::Finish(Err(e)),
                    None => WriteStep::Finish(Ok(())),
                }
            },
            Phase::Finished => WriteStep::Finish(Ok(())),
        }
    }
}

// ---------------------------------------------------------------- laws

/// Writing `c` sends `ceil(len / 4096)` chunks, each of 1 to 4096 bytes,
/// which put back together in order give `c`.
pub proof fn lemma_write_chunks(c: Seq<u8>)
    ensures
        write_chunks(c).len() == chunk_count(c.len()),
        chunk_count(c.len()) * 4096 >= c.len(),
        c.len() > 0 ==> (chunk_count(c.len()) - 1) * 4096 < c.len(),
        forall|k: int|
            0 <= k < write_chunks(c).len() ==> 0 < #[trigger] write_chunks(c)[k].len() <= 4096,
        write_chunks(c).flatten() == c,
    decreases c.len(),
{
    let cs = write_chunks(c);
    if c.len() > 4096 {
        let rest = c.subrange(4096, c.len() as int);
        lemma_write_chunks(rest);
        assert forall|k: int| 0 <= k < cs.drop_first().len() implies #[trigger] cs.drop_first()[k]
            == write_chunks(rest)[k] by {
            assert(chunk_at(c, k + 1) =~= chunk_at(rest, k));
        }
        assert(cs.drop_first() =~= write_chunks(rest));
        assert(cs[0] =~= c.subrange(0, 4096));
        assert(c =~= c.subrange(0, 4096) + rest);
    } else if c.len() > 0 {
        assert(cs.len() == 1);
        assert(cs[0] =~= c);
        assert(cs.drop_first().len() == 0);
        assert(cs.drop_first().flatten() =~= Seq::<u8>::empty());
        assert(c + Seq::<u8>::empty() =~= c);
    } else {
        assert(cs.len() == 0);
    }
}

/// The actions of a session that gets `n` times the same successful reply.
pub open spec fn write_run(s: WriteModel, reply: Reply, n: nat) -> Seq<WriteAction>
    decreases n,
{
    if n == 0 {
        seq![]
    } else {
        let (next, a) = write_next(s, Ok(reply));
        seq![a] + write_run(next, reply, (n - 1) as nat)
    }
}

/// A write command for each chunk of `c`, in order.
pub open spec fn chunk_writes(handle: i64, c: Seq<u8>) -> Seq<WriteAction> {
    write_chunks(c).map_values(|ch: Seq<u8>| WriteAction::Send(write_cmd(handle as int, base64_of(ch))))
}

proof fn lemma_write_run_from(s: WriteModel, handle: i64, reply: Reply)
    requires
        s.phase == (Phase::Transferring { handle }),
        s.sent <= chunk_count(s.content.len()),
    ensures
        write_run(s, reply, (chunk_count(s.content.len()) - s.sent + 2) as nat)
            == chunk_writes(handle, s.content).subrange(s.sent as int, chunk_count(s.content.len()) as int)
            + seq![WriteAction::Send(close_cmd(handle as int)), WriteAction::Finish(Ok(()))],
    decreases chunk_count(s.content.len()) - s.sent,
{
    let n = chunk_count(s.content.len());
    let (next, a) = write_next(s, Ok(reply));
    if s.sent < n {
        lemma_write_run_from(next, handle, reply);
        assert(write_run(s, reply, (n - s.sent + 2) as nat) == seq![a] + write_run(next, reply, (n - s.sent + 1) as nat));
        assert(chunk_writes(handle, s.content).subrange(s.sent as int, n as int) =~= seq![a]
            + chunk_writes(handle, s.content).subrange(s.sent + 1int, n as int));
    } else {
        let (last, b) = write_next(next, Ok(reply));
        assert(write_run(last, reply, 0) == Seq::<WriteAction>::empty());
        assert(write_run(next, reply, 1) =~= seq![b]);
        assert(write_run(s, reply, 2) =~= seq![a, b]);
        assert(chunk_writes(handle, s.content).subrange(s.sent as int, n as int) =~= Seq::<WriteAction>::empty());
    }
}

/// Against a guest that accepts every command, a write session sends one
/// write command per chunk of the content, in order, then one close, and
/// ends in success.
pub proof fn lemma_write_session(content: Seq<u8>, reply: Reply)
    requires
        reply_handle(reply) is Some,
    ensures
        ({
            let h = reply_handle(reply)->0;
            let s = WriteModel { phase: Phase::Opening, content: content, sent: 0, failure: None };
            write_run(s, reply, chunk_count(content.len()) + 2)
                == chunk_writes(h, content)
                + seq![WriteAction::Send(close_cmd(h as int)), WriteAction::Finish(Ok(()))]
        }),
{
    let h = reply_handle(reply)->0;
    let c = content;
    let n = chunk_count(c.len());
    let s = WriteModel { phase: Phase::Opening, content: c, sent: 0, failure: None };
    let (next, a) = write_next(s, Ok(reply));
    let t = WriteModel { phase: Phase::Transferring { handle: h }, ..s };
    assert(write_next(s, Ok(reply)) == write_next(t, Ok(reply)));
    lemma_write_run_from(t, h, reply);
    assert(write_run(s, reply, n + 2) == write_run(t, reply, n + 2));
    assert(chunk_writes(h, c).subrange(0, n as int) =~= chunk_writes(h, c));
}

/// Once a read has its handle, a failed read (transport error or unusable
/// reply) is followed by exactly one close of that handle, after which the
/// session ends with that failure whatever the close returned.
pub proof fn lemma_read_failure_closes(s: ReadModel, failed: Event, after_close: Event)
    requires
        s.phase is Transferring,
        failed is Err || read_reply(failed->Ok_0) is Err,
    ensures
        ({
            let handle = s.phase->Transferring_handle;
            let (closing, a) = read_next(s, failed);
            let (done, b) = read_next(closing, after_close);
            &&& a == ReadAction::Send(close_cmd(handle as int))
            &&& closing.phase == (Phase::Closing { handle })
            &&& b == ReadAction::Finish(Err(closing.failure->Some_0))
            &&& closing.failure == Some(match failed {
                Err(e) => ErrorModel::Transport(e.message@),
                Ok(r) => ErrorModel::Protocol(read_reply(r)->Err_0),
            })
            &&& done.phase is Finished
        }),
{
}

/// Once a write has its handle, a failed write is followed by exactly one
/// close of that handle, after which the session ends with that failure.
pub proof fn lemma_write_failure_closes(s: WriteModel, failed: TransportError, after_close: Event)
    requires
        s.phase is Transferring,
    ensures
        ({
            let handle = s.phase->Transferring_handle;
            let (closing, a) = write_next(s, Err(failed));
            let (done, b) = write_next(closing, after_close);
            &&& a == WriteAction::Send(close_cmd(handle as int))
            &&& closing.phase == (Phase::Closing { handle })
            &&& b == WriteAction::Finish(Err(ErrorModel::Transport(failed.message@)))
            &&& done.phase is Finished
        }),
{
}

/// The final state and the actions of a read session fed `evs` in order.
pub open spec fn read_run(s: ReadModel, evs: Seq<Event>) -> (ReadModel, Seq<ReadAction>)
    decreases evs.len(),
{
    if evs.len() == 0 {
        (s, seq![])
    } else {
        let (next, a) = read_next(s, evs[0]);
        let (last, rest) = read_run(next, evs.drop_first());
        (last, seq![a] + rest)
    }
}

/// Each reply as a successful event.
pub open spec fn ok_events(replies: Seq<Reply>) -> Seq<Event> {
    replies.map_values(|r: Reply| Ok::<Reply, TransportError>(r))
}

/// Replies that carry `chunks` in order, the last one marked end-of-file.
pub open spec fn serves_chunks(replies: Seq<Reply>, chunks: Seq<Seq<u8>>) -> bool {
    &&& replies.len() == chunks.len()
    &&& forall|i: int|
        0 <= i < replies.len() ==> #[trigger] read_reply(replies[i]) == Ok::<(Seq<u8>, bool), ProtocolError>(
            (chunks[i], i == replies.len() - 1),
        )
}

proof fn lemma_read_from(s: ReadModel, handle: i64, replies: Seq<Reply>, chunks: Seq<Seq<u8>>, close_ev: Event)
    requires
        s.phase == (Phase::Transferring { handle }),
        replies.len() >= 1,
        serves_chunks(replies, chunks),
    ensures
        ({
            let (done, acts) = read_run(s, ok_events(replies) + seq![close_ev]);
            &&& acts.len() == replies.len() + 1
            &&& acts[replies.len() - 1] == ReadAction::Send(close_cmd(handle as int))
            &&& acts[replies.len() as int] == ReadAction::Finish(Ok(s.content + chunks.flatten()))
            &&& forall|i: int| 0 <= i < replies.len() - 1 ==> #[trigger] acts[i]
                == ReadAction::Send(read_cmd(handle as int, CHUNK_SIZE as int))
            &&& done.phase is Finished
        }),
    decreases replies.len(),
{
    let evs = ok_events(replies) + seq![close_ev];
    assert(evs[0] == Ok::<Reply, TransportError>(replies[0]));
    assert(read_reply(replies[0]) == Ok::<(Seq<u8>, bool), ProtocolError>((chunks[0], replies.len() == 1)));
    let (next, a) = read_next(s, evs[0]);
    if replies.len() == 1 {
        assert(evs.drop_first() =~= seq![close_ev]);
        let (last, b) = read_next(next, close_ev);
        assert(read_run(last, seq![]).1 =~= Seq::<ReadAction>::empty());
        assert(seq![close_ev].drop_first() =~= Seq::<Event>::empty());
        assert(read_run(next, seq![close_ev]).1 =~= seq![b]);
        assert(chunks.drop_first() =~= Seq::<Seq<u8>>::empty());
        assert(chunks.flatten() =~= chunks[0] + Seq::<Seq<u8>>::empty().flatten());
        assert(chunks[0] + Seq::<u8>::empty() =~= chunks[0]);
    } else {
        let rest = replies.drop_first();
        let rest_chunks = chunks.drop_first();
        assert forall|i: int| 0 <= i < rest.len() implies #[trigger] read_reply(rest[i])
            == Ok::<(Seq<u8>, bool), ProtocolError>((rest_chunks[i], i == rest.len() - 1)) by {
            assert(read_reply(replies[i + 1]) == Ok::<(Seq<u8>, bool), ProtocolError>(
                (chunks[i + 1], i + 1 == replies.len() - 1),
            ));
        }
        lemma_read_from(next, handle, rest, rest_chunks, close_ev);
        assert(evs.drop_first() =~= ok_events(rest) + seq![close_ev]);
        assert(next.content + rest_chunks.flatten() =~= s.content + chunks.flatten());
        let (done, acts) = read_run(s, evs);
        let (_, tail) = read_run(next, evs.drop_first());
        assert(acts == seq![a] + tail);
        assert forall|i: int| 0 <= i < replies.len() - 1 implies #[trigger] acts[i]
            == ReadAction::Send(read_cmd(handle as int, CHUNK_SIZE as int)) by {
            if i > 0 {
                assert(acts[i] == tail[i - 1]);
            }
        }
    }
}

/// Against a guest that opens the file and then serves `chunks` in order,
/// marking only the last as end-of-file, a read session sends one read per
/// chunk, then exactly one close, and ends with the chunks put together,
/// whatever the close returned.
pub proof fn lemma_read_session(
    open_reply: Reply,
    replies: Seq<Reply>,
    chunks: Seq<Seq<u8>>,
    close_ev: Event,
)
    requires
        reply_handle(open_reply) is Some,
        replies.len() >= 1,
        serves_chunks(replies, chunks),
    ensures
        ({
            let h = reply_handle(open_reply)->0;
            let start = ReadModel { phase: Phase::Opening, content: seq![], failure: None };
            let (done, acts) = read_run(start, seq![Ok(open_reply)] + ok_events(replies) + seq![close_ev]);
            &&& acts.len() == replies.len() + 2
            &&& forall|i: int| 0 <= i < replies.len() ==> #[trigger] acts[i]
                == ReadAction::Send(read_cmd(h as int, CHUNK_SIZE as int))
            &&& acts[replies.len() as int] == ReadAction::Send(close_cmd(h as int))
            &&& acts[replies.len() + 1int] == ReadAction::Finish(Ok(chunks.flatten()))
            &&& done.phase is Finished
        }),
{
    let h = reply_handle(open_reply)->0;
    let start = ReadModel { phase: Phase::Opening, content: seq![], failure: None };
    let evs = seq![Ok(open_reply)] + ok_events(replies) + seq![close_ev];
    let (next, a) = read_next(start, evs[0]);
    lemma_read_from(next, h, replies, chunks, close_ev);
    assert(evs.drop_first() =~= ok_events(replies) + seq![close_ev]);
    assert(next.content + chunks.flatten() =~= chunks.flatten());
    let (done, acts) = read_run(start, evs);
    let (_, tail) = read_run(next, evs.drop_first());
    assert(acts == seq![a] + tail);
    assert forall|i: int| 0 <= i < replies.len() implies #[trigger] acts[i]
        == ReadAction::Send(read_cmd(h as int, CHUNK_SIZE as int)) by {
        if i > 0 {
            assert(acts[i] == tail[i - 1]);
        }
    }
}

} // verus!
