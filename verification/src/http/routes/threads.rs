//! The feed of conversations, their history, and their live stream.

use crate::http::error::HttpError;
use crate::ids::{AgentId, PromptRequestId, SessionId};
use crate::runtime::{RequestStatus, ResponseError};
use crate::time::Timestamp;
use crate::types::{MessageSender, MessageSenderKind, Participant, ParticipantKind};
use vstd::prelude::*;

verus! {

/// How many conversations are listed if it is not said.
pub const DEFAULT_THREAD_LIST_LIMIT: u32 = 50;

/// How many conversations are listed at most.
pub const MAX_THREAD_LIST_LIMIT: u32 = 200;

/// How many messages are listed if it is not said.
pub const DEFAULT_THREAD_HISTORY_LIMIT: u32 = 200;

/// How many messages are listed at most.
pub const MAX_THREAD_HISTORY_LIMIT: u32 = 1000;

/// How many characters of a prompt the feed shows.
pub const THREAD_PREVIEW_MAX_CHARS: i32 = 200;

/// Seconds after which an idle stream is kept alive.
pub const SSE_KEEPALIVE_INTERVAL: u64 = 15;

/// How many rows a page has: what was asked for, within 1 and `max`.
pub open spec fn page_size(limit: Option<u32>, default: u32, max: u32) -> u32 {
    let n = limit.unwrap_or(default);
    if n < 1 {
        1
    } else if n > max {
        max
    } else {
        n
    }
}

fn clamped(limit: Option<u32>, default: u32, max: u32) -> (n: u32)
    requires
        1 <= max,
    ensures
        n == page_size(limit, default, max),
{
    let n: u32 = match limit {
        Some(n) => n,
        None => default,
    };
    if n < 1 {
        1
    } else if n > max {
        max
    } else {
        n
    }
}

/// How many conversations a page of the feed has.
pub fn list_limit(limit: Option<u32>) -> (n: u32)
    ensures
        n == page_size(limit, DEFAULT_THREAD_LIST_LIMIT, MAX_THREAD_LIST_LIMIT),
        1 <= n <= MAX_THREAD_LIST_LIMIT,
{
    clamped(limit, DEFAULT_THREAD_LIST_LIMIT, MAX_THREAD_LIST_LIMIT)
}

/// How many messages a page of history has.
pub fn history_limit(limit: Option<u32>) -> (n: u32)
    ensures
        n == page_size(limit, DEFAULT_THREAD_HISTORY_LIMIT, MAX_THREAD_HISTORY_LIMIT),
        1 <= n <= MAX_THREAD_HISTORY_LIMIT,
{
    clamped(limit, DEFAULT_THREAD_HISTORY_LIMIT, MAX_THREAD_HISTORY_LIMIT)
}

/// Where a page of history ends: before the message with this time and number.
/// One without the other does not say where, and is refused.
pub fn history_cursor(before_ts: Option<Timestamp>, before_seq: Option<i64>) -> (r: Result<
    (Option<Timestamp>, i64),
    HttpError,
>)
    ensures
        match (before_ts, before_seq) {
            (Some(ts), Some(seq)) => r == Ok::<(Option<Timestamp>, i64), HttpError>((Some(ts), seq)),
            (None, None) => r == Ok::<(Option<Timestamp>, i64), HttpError>((None, 0)),
            _ => r matches Err(HttpError::BadRequest(s)) && s@
                == "before_ts and before_seq must be supplied together"@,
        },
{
    match (before_ts, before_seq) {
        (Some(ts), Some(seq)) => Ok((Some(ts), seq)),
        (None, None) => Ok((None, 0)),
        _ => Err(
            HttpError::BadRequest("before_ts and before_seq must be supplied together".to_owned()),
        ),
    }
}

/// The agent that a conversation was started with.
#[derive(Debug)]
pub struct ThreadAgentRef {
    pub id: AgentId,
    pub name: String,
}

/// A conversation in the feed.
#[derive(Debug)]
pub struct ThreadSummary {
    pub root_request_id: PromptRequestId,
    pub root_session_id: SessionId,
    pub first_agent: ThreadAgentRef,
    pub preview: String,
    pub reply_count: i64,
    pub last_activity_at: Timestamp,
    pub status: RequestStatus,
    pub created_at: Timestamp,
}

/// A row of the feed.
pub type ThreadRow = (
    PromptRequestId,
    SessionId,
    AgentId,
    String,
    String,
    i64,
    Timestamp,
    RequestStatus,
    Timestamp,
);

/// A conversation in the feed.
pub fn thread_row_to_summary(row: ThreadRow) -> (s: ThreadSummary)
    ensures
        s == (ThreadSummary {
            root_request_id: row.0,
            root_session_id: row.1,
            first_agent: ThreadAgentRef { id: row.2, name: row.3 },
            preview: row.4,
            reply_count: row.5,
            last_activity_at: row.6,
            status: row.7,
            created_at: row.8,
        }),
{
    let (
        root_request_id,
        root_session_id,
        agent_id,
        agent_name,
        preview,
        reply_count,
        last_activity_at,
        status,
        created_at,
    ) = row;
    ThreadSummary {
        root_request_id,
        root_session_id,
        first_agent: ThreadAgentRef { id: agent_id, name: agent_name },
        preview,
        reply_count,
        last_activity_at,
        status,
        created_at,
    }
}

/// A message of the history.
#[derive(Debug)]
pub struct ThreadMessage {
    pub session_id: SessionId,
    pub seq: i64,
    pub sender: MessageSender,
    pub receiver: Participant,
    /// The JSON of the message.
    pub body: String,
    pub created_at: Timestamp,
    /// The request that the message belongs to: by it the web app tells copies
    /// apart.
    pub request_id: PromptRequestId,
}

/// A row of the history.
#[derive(Debug)]
pub struct HistoryRow {
    pub session_id: SessionId,
    pub seq: i64,
    pub sender_kind: MessageSenderKind,
    pub sender_agent_id: Option<AgentId>,
    pub receiver_kind: ParticipantKind,
    pub receiver_agent_id: Option<AgentId>,
    pub body: String,
    pub created_at: Timestamp,
    pub request_id: PromptRequestId,
}

impl HistoryRow {
    /// Agents have an id, and nobody else has: the table takes no other rows.
    pub open spec fn well_shaped(self) -> bool {
        &&& self.sender_kind == MessageSenderKind::Agent <==> self.sender_agent_id is Some
        &&& self.receiver_kind == ParticipantKind::Agent <==> self.receiver_agent_id is Some
    }

    /// Who sent it.
    pub open spec fn sender(self) -> MessageSender {
        match self.sender_kind {
            MessageSenderKind::Human => MessageSender::Human,
            MessageSenderKind::Agent => MessageSender::Agent { agent_id: self.sender_agent_id->0 },
            MessageSenderKind::System => MessageSender::System,
        }
    }

    /// Who it is for.
    pub open spec fn receiver(self) -> Participant {
        match self.receiver_kind {
            ParticipantKind::Human => Participant::Human,
            ParticipantKind::Agent => Participant::Agent { agent_id: self.receiver_agent_id->0 },
        }
    }

    /// Whether the row is well shaped.
    pub fn is_well_shaped(&self) -> (r: bool)
        ensures
            r == self.well_shaped(),
    {
        let agent_sender = self.sender_kind == MessageSenderKind::Agent;
        let agent_receiver = self.receiver_kind == ParticipantKind::Agent;
        agent_sender == self.sender_agent_id.is_some() && agent_receiver
            == self.receiver_agent_id.is_some()
    }
}

/// A message of the history.
pub fn history_row_to_message(row: HistoryRow) -> (m: ThreadMessage)
    requires
        row.well_shaped(),
    ensures
        m == (ThreadMessage {
            session_id: row.session_id,
            seq: row.seq,
            sender: row.sender(),
            receiver: row.receiver(),
            body: row.body,
            created_at: row.created_at,
            request_id: row.request_id,
        }),
{
    let sender = match MessageSender::from_kind_id(row.sender_kind, row.sender_agent_id) {
        Some(s) => s,
        None => MessageSender::System,
    };
    let receiver = match Participant::from_kind_id(row.receiver_kind, row.receiver_agent_id) {
        Some(p) => p,
        None => Participant::Human,
    };
    ThreadMessage {
        session_id: row.session_id,
        seq: row.seq,
        sender,
        receiver,
        body: row.body,
        created_at: row.created_at,
        request_id: row.request_id,
    }
}

/// A chunk that an agent published.
#[derive(Debug)]
pub struct PublishedChunk {
    /// The name of its kind.
    pub kind: String,
    /// Whether it is the last one.
    pub terminal: bool,
    /// Its JSON.
    pub json: String,
}

/// What a conversation streams.
#[derive(Debug)]
pub enum ThreadStreamEvent {
    /// A chunk of a request.
    Item { request_id: PromptRequestId, from_agent: AgentId, chunk_seq: u64, chunk: PublishedChunk },
    /// The reader fell behind, and chunks were lost.
    Stalled,
}

/// The chunk of a frame.
#[derive(Debug)]
pub enum FrameChunk {
    Published(PublishedChunk),
    Stalled,
    Error { reason: String },
}

/// A frame that is sent to the browser. One that no request is behind has no
/// request, agent and number.
#[derive(Debug)]
pub struct StreamFrame {
    /// The number of the frame on its connection.
    pub cursor: u64,
    /// The name of the kind of its chunk.
    pub kind: String,
    pub request_id: Option<PromptRequestId>,
    pub from_agent: Option<AgentId>,
    pub chunk_seq: Option<u64>,
    pub chunk: FrameChunk,
}

/// `f` sends on what came in.
pub open spec fn frames(
    cursor: u64,
    event: Result<ThreadStreamEvent, ResponseError>,
    f: StreamFrame,
) -> bool {
    &&& f.cursor == cursor
    &&& match event {
        Ok(ThreadStreamEvent::Item { request_id, from_agent, chunk_seq, chunk }) => {
            &&& f.kind@ == chunk.kind@
            &&& f.request_id == Some(request_id)
            &&& f.from_agent == Some(from_agent)
            &&& f.chunk_seq == Some(chunk_seq)
            &&& f.chunk == FrameChunk::Published(chunk)
        },
        Ok(ThreadStreamEvent::Stalled) => {
            &&& f.kind@ == "stalled"@
            &&& f.request_id is None && f.from_agent is None && f.chunk_seq is None
            &&& f.chunk is Stalled
        },
        Err(e) => {
            &&& f.kind@ == "error"@
            &&& f.request_id is None && f.from_agent is None && f.chunk_seq is None
            &&& f.chunk matches FrameChunk::Error { reason } && reason@ == e.text()
        },
    }
}

/// Whether the last chunk came in.
pub open spec fn ends(event: Result<ThreadStreamEvent, ResponseError>) -> bool {
    event matches Ok(ThreadStreamEvent::Item { chunk, .. }) && chunk.terminal
}

/// The stream of a conversation to one browser.
#[derive(Debug)]
pub struct ThreadStreamState {
    closed: bool,
    cursor: u64,
}

impl ThreadStreamState {
    /// Whether the last chunk was sent.
    pub closed spec fn closed(self) -> bool {
        self.closed
    }

    /// The number of the next frame.
    pub closed spec fn cursor(self) -> u64 {
        self.cursor
    }

    /// A stream that starts.
    pub fn stream_thread() -> (s: ThreadStreamState)
        ensures
            !s.closed(),
            s.cursor() == 0,
    {
        ThreadStreamState { closed: false, cursor: 0 }
    }

    /// Takes what came in: the frame to send, or nothing once the last chunk was
    /// sent. The last chunk itself is sent, so that the browser sees the end.
    pub fn next(&mut self, event: Result<ThreadStreamEvent, ResponseError>) -> (r: Option<StreamFrame>)
        ensures
            final(self).closed() == (old(self).closed() || ends(event)),
            match r {
                None => old(self).closed() && final(self).cursor() == old(self).cursor(),
                Some(f) => {
                    &&& !old(self).closed()
                    &&& frames(old(self).cursor(), event, f)
                    &&& final(self).cursor() == if old(self).cursor() < u64::MAX {
                        (old(self).cursor() + 1) as u64
                    } else {
                        u64::MAX
                    }
                },
            },
    {
        let stop = self.closed;
        if let Ok(ThreadStreamEvent::Item { chunk, .. }) = &event {
            if chunk.terminal {
                self.closed = true;
            }
        }
        if stop {
            return None;
        }
        let cursor = self.cursor;
        if cursor < u64::MAX {
            self.cursor = cursor + 1;
        }
        let frame = match event {
            Ok(ThreadStreamEvent::Item { request_id, from_agent, chunk_seq, chunk }) => StreamFrame {
                cursor,
                kind: chunk.kind.clone(),
                request_id: Some(request_id),
                from_agent: Some(from_agent),
                chunk_seq: Some(chunk_seq),
                chunk: FrameChunk::Published(chunk),
            },
            Ok(ThreadStreamEvent::Stalled) => StreamFrame {
                cursor,
                kind: "stalled".to_owned(),
                request_id: None,
                from_agent: None,
                chunk_seq: None,
                chunk: FrameChunk::Stalled,
            },
            Err(e) => StreamFrame {
                cursor,
                kind: "error".to_owned(),
                request_id: None,
                from_agent: None,
                chunk_seq: None,
                chunk: FrameChunk::Error { reason: e.message() },
            },
        };
        Some(frame)
    }
}

/// A page is never empty by request, and never larger than the cap.
pub proof fn law_pages_are_bounded(limit: Option<u32>, default: u32, max: u32)
    requires
        1 <= max,
    ensures
        1 <= page_size(limit, default, max) <= max,
{
}

/// A page has what was asked for where that is allowed, the most that is allowed where more was
/// asked for, and the default where nothing was said.
pub proof fn law_pages_have_what_was_asked_for(limit: Option<u32>, default: u32, max: u32)
    requires
        1 <= max,
        1 <= default <= max,
    ensures
        limit is None ==> page_size(limit, default, max) == default,
        limit matches Some(n) ==> {
            &&& 1 <= n <= max ==> page_size(limit, default, max) == n
            &&& n > max ==> page_size(limit, default, max) == max
            &&& n == 0 ==> page_size(limit, default, max) == 1
        },
{
}

/// A message has the sender and the receiver that its row names.
pub proof fn law_rows_name_their_sides(row: HistoryRow)
    requires
        row.well_shaped(),
    ensures
        row.sender_agent_id matches Some(id) ==> row.sender() == (MessageSender::Agent {
            agent_id: id,
        }),
        row.sender_agent_id is None ==> row.sender() == MessageSender::Human || row.sender()
            == MessageSender::System,
        row.sender_kind == MessageSenderKind::Human ==> row.sender() == MessageSender::Human,
        row.sender_kind == MessageSenderKind::System ==> row.sender() == MessageSender::System,
        row.receiver_agent_id matches Some(id) ==> row.receiver() == (Participant::Agent {
            agent_id: id,
        }),
        row.receiver_agent_id is None ==> row.receiver() == Participant::Human,
{
}

/// What an agent publishes reaches the browser as it is, numbered, under its request, its agent
/// and its own number; what no request is behind has none of these. Only the last chunk ends
/// the stream: a reader that fell behind and an error do not.
pub proof fn law_chunks_are_sent_on(
    cursor: u64,
    event: Result<ThreadStreamEvent, ResponseError>,
    f: StreamFrame,
)
    requires
        frames(cursor, event, f),
    ensures
        f.cursor == cursor,
        event matches Ok(ThreadStreamEvent::Item { request_id, from_agent, chunk_seq, chunk }) ==> {
            &&& f.request_id == Some(request_id) && f.from_agent == Some(from_agent)
            &&& f.chunk_seq == Some(chunk_seq)
            &&& f.kind@ == chunk.kind@
            &&& f.chunk == FrameChunk::Published(chunk)
            &&& ends(event) <==> chunk.terminal
        },
        event matches Ok(ThreadStreamEvent::Stalled) ==> f.chunk is Stalled && f.kind@ == "stalled"@
            && f.request_id is None && !ends(event),
        event matches Err(e) ==> f.kind@ == "error"@ && f.request_id is None && !ends(event) && (
        f.chunk matches FrameChunk::Error { reason } && reason@ == e.text()),
{
}

} // verus!
