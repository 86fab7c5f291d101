//! Reflection turns: once a session has been idle for long enough, its agent is
//! asked to look back on what was said since it last did.

use crate::chat::{
    assistant_blocks, law_viewer_mapping_keeps_the_words, map_for_viewer, message_line,
    message_words, render_chat_message, seen_as, user_blocks, ChatMessage,
};
use crate::ids::{
    law_identifiers_read_apart, lemma_uuid_text, uuid_text, AgentId, PromptRequestId, SessionId,
};
use crate::memory::limits::{REFLECTION_IDLE_MICROS, REFLECTION_SCHEDULER_BATCH_LIMIT};
use crate::memory::tables::arranged;
use crate::runtime::NewPromptRequest;
use crate::seqs::lemma_filter_step;
use crate::sort::{goes_before, listed, sort_positions, stable_order, SortKey};
use crate::text::{
    blank, frame_body, framed, has_substring, is_blank, law_framing_keeps_the_end, lemma_ascii_len,
    lemma_framed_fits, lemma_utf8_len_at_least_chars, lemma_utf8_len_concat, occurs_at, utf8_len,
    white_space,
};
use crate::time::{in_calendar, lemma_timestamp_range, Timestamp};
use crate::types::{
    IdempotencyKey, Participant, Prompt, RequestKind, RequestKindPayload, PROMPT_MAX_BYTES,
};
use vstd::prelude::*;

verus! {

/// Opens a reflection prompt.
pub const REFLECTION_HEADER: &'static str =
    "Reflect on the conversation below. Identify what should be remembered, updated, or forgotten.\n\n## Conversation\n";

/// Says that a reflection prompt was trimmed.
pub const REFLECTION_NOTICE: &'static str = "[earlier turns truncated to fit prompt cap]\n";

/// The reflection prompt where nothing was said.
pub const REFLECTION_FALLBACK: &'static str =
    "Reflect on this session. No new turns are available since the last checkpoint; review existing memory instead.";

/// The lines of `messages`, one after the other.
pub open spec fn transcript(messages: Seq<ChatMessage>) -> Seq<char>
    decreases messages.len(),
{
    if messages.len() == 0 {
        Seq::empty()
    } else {
        transcript(messages.drop_last()) + message_line(messages.last())
    }
}

/// The prompt of a reflection turn.
pub open spec fn reflection_text(messages: Seq<ChatMessage>) -> Seq<char> {
    let words = transcript(messages);
    if blank(words) {
        REFLECTION_FALLBACK@
    } else {
        framed(REFLECTION_HEADER@, REFLECTION_NOTICE@, words, PROMPT_MAX_BYTES as nat)
    }
}

/// The prompt of a reflection turn: the transcript of `slice`, cut from the head
/// where it does not fit, so that the latest turns survive.
pub fn build_reflection_prompt(slice: &Vec<ChatMessage>) -> (p: Prompt)
    ensures
        p@ == reflection_text(slice@),
{
    let mut words = String::new();
    let mut i: usize = 0;
    while i < slice.len()
        invariant
            i <= slice@.len(),
            words@ == transcript(slice@.take(i as int)),
        decreases slice.len() - i,
    {
        proof {
            assert(slice@.take(i + 1).drop_last() =~= slice@.take(i as int));
            assert(slice@.take(i + 1).last() == slice@[i as int]);
        }
        render_chat_message(&slice[i], &mut words);
        i += 1;
    }
    proof {
        assert(slice@.take(slice@.len() as int) =~= slice@);
    }
    if is_blank(words.as_str()) {
        proof {
            reveal_strlit(
                "Reflect on this session. No new turns are available since the last checkpoint; review existing memory instead.",
            );
            lemma_utf8_len_at_least_chars(REFLECTION_FALLBACK@);
            assert(REFLECTION_FALLBACK@[0] == 'R');
            assert(!white_space(REFLECTION_FALLBACK@[0]));
        }
        return Prompt::try_from(REFLECTION_FALLBACK).unwrap();
    }
    let out = frame_body(REFLECTION_HEADER, REFLECTION_NOTICE, words.as_str(), PROMPT_MAX_BYTES);
    proof {
        reveal_strlit(
            "Reflect on the conversation below. Identify what should be remembered, updated, or forgotten.\n\n## Conversation\n",
        );
        reveal_strlit("[earlier turns truncated to fit prompt cap]\n");
        lemma_utf8_len_at_least_chars(REFLECTION_HEADER@);
        lemma_utf8_len_at_least_chars(REFLECTION_NOTICE@);
        lemma_framed_fits(
            REFLECTION_HEADER@,
            REFLECTION_NOTICE@,
            words@,
            PROMPT_MAX_BYTES as nat,
        );
        assert(out@.subrange(0, REFLECTION_HEADER@.len() as int)[0] == REFLECTION_HEADER@[0]);
        assert(out@[0] == 'R');
        assert(!white_space(out@[0]));
    }
    Prompt::try_from(out).unwrap()
}

/// A message of a session, as it is stored.
#[derive(Debug)]
pub struct StoredMessage {
    /// Position in the session.
    pub seq: i64,
    /// The turn that produced it.
    pub request_id: PromptRequestId,
    /// The agent that sent it; none for anyone else.
    pub sender_agent_id: Option<AgentId>,
    pub body: ChatMessage,
}

/// The last position that the turn `request` has in the session: before the first
/// where it has none.
pub open spec fn last_position(messages: Seq<StoredMessage>, request: Option<PromptRequestId>) -> int
    decreases messages.len(),
{
    if messages.len() == 0 {
        -1
    } else {
        let before = last_position(messages.drop_last(), request);
        let m = messages.last();
        if Some(m.request_id) == request && m.seq > before {
            m.seq as int
        } else {
            before
        }
    }
}

/// The messages after the turn `previous` up to the turn `up_to`.
pub open spec fn slice_of(
    messages: Seq<StoredMessage>,
    previous: Option<PromptRequestId>,
    up_to: PromptRequestId,
) -> Seq<StoredMessage> {
    let low = last_position(messages, previous);
    let high = last_position(messages, Some(up_to));
    messages.filter(|m: StoredMessage| low < m.seq <= high)
}

/// The message at `i` was said after the turn `previous` and no later than the last
/// message of the turn `up_to`, that message included.
pub open spec fn said_since(
    messages: Seq<StoredMessage>,
    previous: Option<PromptRequestId>,
    up_to: PromptRequestId,
    i: int,
) -> bool {
    &&& 0 <= i < messages.len()
    &&& messages[i].seq >= 0
    &&& forall|v: int|
        0 <= v < messages.len() && Some((#[trigger] messages[v]).request_id) == previous
            ==> messages[v].seq < messages[i].seq
    &&& exists|u: int|
        0 <= u < messages.len() && (#[trigger] messages[u]).request_id == up_to && messages[i].seq
            <= messages[u].seq
}

proof fn lemma_last_position(messages: Seq<StoredMessage>, request: Option<PromptRequestId>)
    ensures
        last_position(messages, request) >= -1,
        forall|v: int|
            0 <= v < messages.len() && Some((#[trigger] messages[v]).request_id) == request
                ==> messages[v].seq <= last_position(messages, request),
        last_position(messages, request) >= 0 ==> exists|u: int|
            0 <= u < messages.len() && Some((#[trigger] messages[u]).request_id) == request
                && messages[u].seq == last_position(messages, request),
    decreases messages.len(),
{
    if messages.len() > 0 {
        let rest = messages.drop_last();
        let n = messages.len() - 1;
        lemma_last_position(rest, request);
        let best = last_position(messages, request);
        assert(messages[n] == messages.last());
        assert forall|v: int|
            0 <= v < messages.len() && Some((#[trigger] messages[v]).request_id)
                == request implies messages[v].seq <= best by {
            if v < n {
                assert(rest[v] == messages[v]);
            }
        }
        if best >= 0 && best == last_position(rest, request) {
            let u = choose|u: int|
                0 <= u < rest.len() && Some((#[trigger] rest[u]).request_id) == request
                    && rest[u].seq == best;
            assert(messages[u] == rest[u]);
        }
    }
}

proof fn lemma_within_bounds(
    messages: Seq<StoredMessage>,
    previous: Option<PromptRequestId>,
    up_to: PromptRequestId,
    i: int,
)
    requires
        0 <= i < messages.len(),
    ensures
        said_since(messages, previous, up_to, i) <==> last_position(messages, previous)
            < messages[i].seq <= last_position(messages, Some(up_to)),
{
    let low = last_position(messages, previous);
    let high = last_position(messages, Some(up_to));
    let m = messages[i];
    lemma_last_position(messages, previous);
    lemma_last_position(messages, Some(up_to));
    if low < m.seq <= high {
        let u = choose|u: int|
            0 <= u < messages.len() && Some((#[trigger] messages[u]).request_id) == Some(up_to)
                && messages[u].seq == high;
        assert(messages[u].request_id == up_to);
    }
    if said_since(messages, previous, up_to, i) && low >= 0 {
        let v = choose|v: int|
            0 <= v < messages.len() && Some((#[trigger] messages[v]).request_id) == previous
                && messages[v].seq == low;
        assert(messages[v].seq < m.seq);
    }
}

/// An agent looks back on everything that was said since it last did, and on nothing
/// else: what comes after the last message of the turn `previous`, up to the last
/// message of the turn `up_to` and with it. Without an earlier turn that is everything
/// from the start.
pub proof fn law_slice_is_what_was_said_since(
    messages: Seq<StoredMessage>,
    previous: Option<PromptRequestId>,
    up_to: PromptRequestId,
    i: int,
)
    requires
        0 <= i < messages.len(),
    ensures
        slice_of(messages, previous, up_to).contains(messages[i]) <==> {
            &&& messages[i].seq >= 0
            &&& forall|v: int|
                0 <= v < messages.len() && Some((#[trigger] messages[v]).request_id) == previous
                    ==> messages[v].seq < messages[i].seq
            &&& exists|u: int|
                0 <= u < messages.len() && (#[trigger] messages[u]).request_id == up_to
                    && messages[i].seq <= messages[u].seq
        },
        previous is None && messages[i].request_id == up_to && messages[i].seq >= 0 ==> slice_of(
            messages,
            previous,
            up_to,
        ).contains(messages[i]),
{
    let low = last_position(messages, previous);
    let high = last_position(messages, Some(up_to));
    let p = |m: StoredMessage| low < m.seq <= high;
    let part = slice_of(messages, previous, up_to);
    lemma_within_bounds(messages, previous, up_to, i);
    if p(messages[i]) {
        messages.lemma_filter_contains(p, i);
    }
    if part.contains(messages[i]) {
        let k = choose|k: int| 0 <= k < part.len() && part[k] == messages[i];
        messages.lemma_filter_pred(p, k);
    }
}

/// Two slices that meet at a turn share no message, and leave none out between them:
/// what one reflection ends with the next one starts after.
pub proof fn law_slices_join(
    messages: Seq<StoredMessage>,
    previous: Option<PromptRequestId>,
    middle: PromptRequestId,
    up_to: PromptRequestId,
    i: int,
)
    requires
        0 <= i < messages.len(),
        exists|v: int|
            0 <= v < messages.len() && (#[trigger] messages[v]).request_id == middle
                && messages[v].seq >= 0,
    ensures
        !(slice_of(messages, previous, middle).contains(messages[i]) && slice_of(
            messages,
            Some(middle),
            up_to,
        ).contains(messages[i])),
        slice_of(messages, previous, up_to).contains(messages[i]) ==> slice_of(
            messages,
            previous,
            middle,
        ).contains(messages[i]) || slice_of(messages, Some(middle), up_to).contains(messages[i]),
{
    law_slice_is_what_was_said_since(messages, previous, middle, i);
    law_slice_is_what_was_said_since(messages, Some(middle), up_to, i);
    law_slice_is_what_was_said_since(messages, previous, up_to, i);
    lemma_within_bounds(messages, previous, middle, i);
    lemma_within_bounds(messages, Some(middle), up_to, i);
    lemma_within_bounds(messages, previous, up_to, i);
}

fn last_seq(messages: &Vec<StoredMessage>, request: Option<PromptRequestId>) -> (r: i64)
    ensures
        r == last_position(messages@, request),
{
    let mut best: i64 = -1;
    let mut i: usize = 0;
    while i < messages.len()
        invariant
            i <= messages@.len(),
            best == last_position(messages@.take(i as int), request),
        decreases messages.len() - i,
    {
        proof {
            assert(messages@.take(i + 1).drop_last() =~= messages@.take(i as int));
            assert(messages@.take(i + 1).last() == messages@[i as int]);
        }
        let m = &messages[i];
        let hit = match request {
            Some(id) => m.request_id == id,
            None => false,
        };
        if hit && m.seq > best {
            best = m.seq;
        }
        i += 1;
    }
    proof {
        assert(messages@.take(messages@.len() as int) =~= messages@);
    }
    best
}

/// The part of a session that `agent` looks back on: what was said after the turn
/// `previous`, up to the turn `up_to`, each message turned to the agent's side.
/// `messages` is the whole session in its order.
pub fn reflection_slice(
    messages: Vec<StoredMessage>,
    agent: AgentId,
    previous: Option<PromptRequestId>,
    up_to: PromptRequestId,
) -> (slice: Vec<ChatMessage>)
    ensures
        ({
            let part = slice_of(messages@, previous, up_to);
            &&& slice@.len() == part.len()
            &&& forall|i: int|
                0 <= i < part.len() ==> seen_as(
                    (#[trigger] part[i]).body,
                    part[i].sender_agent_id == Some(agent),
                    slice@[i],
                )
        }),
{
    let low = last_seq(&messages, previous);
    let high = last_seq(&messages, Some(up_to));
    let ghost all = messages@;
    let ghost p = |m: StoredMessage| low < m.seq <= high;
    let ghost part = slice_of(all, previous, up_to);
    let mut out: Vec<ChatMessage> = Vec::new();
    let mut rest = messages;
    let mut done: usize = 0;
    let total = rest.len();
    proof {
        reveal(Seq::filter);
        assert(all.take(0) =~= Seq::<StoredMessage>::empty());
        assert(all.skip(0) =~= all);
        assert(all.filter(p) == part);
    }
    while done < total
        invariant
            done <= total,
            total == all.len(),
            p == (|m: StoredMessage| low < m.seq <= high),
            rest@ == all.skip(done as int),
            out@.len() == all.take(done as int).filter(p).len(),
            forall|i: int|
                0 <= i < out@.len() ==> seen_as(
                    (#[trigger] all.take(done as int).filter(p)[i]).body,
                    all.take(done as int).filter(p)[i].sender_agent_id == Some(agent),
                    out@[i],
                ),
        decreases total - done,
    {
        let ghost before = all.take(done as int).filter(p);
        proof {
            lemma_filter_step(all, done as int, p);
        }
        let m = rest.remove(0);
        proof {
            assert(m == all[done as int]);
            assert(rest@ =~= all.skip(done + 1));
        }
        if low < m.seq && m.seq <= high {
            let is_self = match m.sender_agent_id {
                Some(id) => id == agent,
                None => false,
            };
            out.push(map_for_viewer(m.body, is_self));
        }
        done += 1;
        proof {
            let now = all.take(done as int).filter(p);
            assert forall|i: int| 0 <= i < out@.len() implies seen_as(
                (#[trigger] now[i]).body,
                now[i].sender_agent_id == Some(agent),
                out@[i],
            ) by {
                if i < before.len() {
                    assert(now[i] == before[i]);
                }
            }
        }
    }
    proof {
        assert(all.take(total as int) =~= all);
    }
    out
}

/// A session to look back on.
#[derive(Clone, Copy, Debug, PartialEq, Eq, Structural)]
pub struct ReflectionCandidate {
    pub agent_id: AgentId,
    pub session_id: SessionId,
    /// The latest turn, where the slice ends.
    pub last_turn_id: PromptRequestId,
    /// The turn that the agent last looked back on, after which the slice starts.
    pub previous_cursor: Option<PromptRequestId>,
}

/// What is known of an agent in a session when sessions to look back on are
/// sought.
#[derive(Clone, Copy, Debug, PartialEq, Eq, Structural)]
pub struct SessionActivity {
    pub agent_id: AgentId,
    pub session_id: SessionId,
    /// The turn of the latest message, and when that was.
    pub last_turn_id: PromptRequestId,
    pub latest_at: Timestamp,
    /// The turn that the agent last looked back on, and when it did.
    pub checkpoint_turn_id: Option<PromptRequestId>,
    pub checkpoint_at: Option<Timestamp>,
    /// What the session was opened for, where that is known.
    pub opened_for: Option<RequestKind>,
    /// A reflection on the session is queued or running.
    pub in_flight: bool,
}

/// The session is to be looked back on: nothing was said in it since `cutoff`,
/// something was said since the agent last looked back, it is a conversation and
/// no reflection itself, and no reflection on it is under way.
pub open spec fn due_for_reflection(a: SessionActivity, cutoff: Timestamp) -> bool {
    &&& a.latest_at@ <= cutoff@
    &&& a.checkpoint_at matches Some(t) ==> t@ < a.latest_at@
    &&& a.opened_for matches Some(k) ==> k == RequestKind::Normal
    &&& !a.in_flight
}

/// The sessions of `all` that are to be looked back on.
pub open spec fn due_sessions(all: Seq<SessionActivity>, cutoff: Timestamp) -> Seq<SessionActivity> {
    all.filter(|a: SessionActivity| due_for_reflection(a, cutoff))
}

/// What a session that is to be looked back on is queued with.
pub open spec fn candidate_of(a: SessionActivity) -> ReflectionCandidate {
    ReflectionCandidate {
        agent_id: a.agent_id,
        session_id: a.session_id,
        last_turn_id: a.last_turn_id,
        previous_cursor: a.checkpoint_turn_id,
    }
}

/// By how long a session has been idle.
pub open spec fn idle_key(a: SessionActivity) -> SortKey {
    SortKey { major: a.latest_at@ as i128, minor: 0, tie: 0 }
}

/// `order` lists the sessions that are to be looked back on, the longest idle
/// first.
pub open spec fn idle_order(all: Seq<SessionActivity>, cutoff: Timestamp, order: Seq<usize>) -> bool {
    stable_order(due_sessions(all, cutoff).map_values(|a: SessionActivity| idle_key(a)), order)
}

/// The sessions that one tick takes, in the order in which it takes them.
pub open spec fn chosen_sessions(all: Seq<SessionActivity>, cutoff: Timestamp, order: Seq<usize>) -> Seq<
    SessionActivity,
> {
    let lined_up = arranged(due_sessions(all, cutoff), order);
    if lined_up.len() <= REFLECTION_SCHEDULER_BATCH_LIMIT {
        lined_up
    } else {
        lined_up.take(REFLECTION_SCHEDULER_BATCH_LIMIT as int)
    }
}

fn is_due(a: &SessionActivity, cutoff: Timestamp) -> (r: bool)
    ensures
        r == due_for_reflection(*a, cutoff),
{
    let unseen = match a.checkpoint_at {
        Some(t) => t.micros() < a.latest_at.micros(),
        None => true,
    };
    let conversation = match a.opened_for {
        Some(k) => k == RequestKind::Normal,
        None => true,
    };
    a.latest_at.micros() <= cutoff.micros() && unseen && conversation && !a.in_flight
}

/// The sessions to look back on: those that have been idle since `cutoff`, the
/// longest idle first, as many as one tick takes.
pub fn find_candidates(all: &Vec<SessionActivity>, cutoff: Timestamp) -> (r: Vec<
    ReflectionCandidate,
>)
    ensures
        exists|order: Seq<usize>|
            #[trigger] idle_order(all@, cutoff, order) && r@ == chosen_sessions(
                all@,
                cutoff,
                order,
            ).map_values(|a: SessionActivity| candidate_of(a)),
{
    let ghost p = |a: SessionActivity| due_for_reflection(a, cutoff);
    let mut due: Vec<SessionActivity> = Vec::new();
    let mut keys: Vec<SortKey> = Vec::new();
    let mut i: usize = 0;
    proof {
        reveal(Seq::filter);
        assert(all@.take(0) =~= Seq::<SessionActivity>::empty());
    }
    while i < all.len()
        invariant
            i <= all@.len(),
            p == (|a: SessionActivity| due_for_reflection(a, cutoff)),
            due@ == all@.take(i as int).filter(p),
            keys@ == due@.map_values(|a: SessionActivity| idle_key(a)),
        decreases all.len() - i,
    {
        proof {
            lemma_filter_step(all@, i as int, p);
        }
        let a = all[i];
        if is_due(&a, cutoff) {
            due.push(a);
            keys.push(SortKey { major: a.latest_at.micros() as i128, minor: 0, tie: 0 });
        }
        i += 1;
        proof {
            assert(keys@ =~= due@.map_values(|a: SessionActivity| idle_key(a)));
        }
    }
    proof {
        assert(all@.take(all@.len() as int) =~= all@);
    }
    let order = sort_positions(&keys);
    let mut out: Vec<ReflectionCandidate> = Vec::new();
    let mut k: usize = 0;
    while k < order.len() && k < REFLECTION_SCHEDULER_BATCH_LIMIT
        invariant
            k <= order@.len(),
            k <= REFLECTION_SCHEDULER_BATCH_LIMIT,
            forall|j: int| 0 <= j < order@.len() ==> #[trigger] order@[j] < due@.len(),
            out@.len() == k,
            forall|j: int|
                0 <= j < k ==> #[trigger] out@[j] == candidate_of(due@[order@[j] as int]),
        decreases order.len() - k,
    {
        let a = due[order[k]];
        out.push(
            ReflectionCandidate {
                agent_id: a.agent_id,
                session_id: a.session_id,
                last_turn_id: a.last_turn_id,
                previous_cursor: a.checkpoint_turn_id,
            },
        );
        k += 1;
    }
    proof {
        assert(idle_order(all@, cutoff, order@));
        assert(out@ =~= chosen_sessions(all@, cutoff, order@).map_values(
            |a: SessionActivity| candidate_of(a),
        ));
    }
    out
}

/// The key under which a reflection is queued once.
pub open spec fn reflection_key(c: ReflectionCandidate) -> Seq<char> {
    "reflect-"@ + uuid_text(c.agent_id.0) + "-"@ + uuid_text(c.session_id.0) + "-"@ + uuid_text(
        c.last_turn_id.0,
    )
}

/// The request by which an agent is asked to look back on `slice`. It opens a
/// session apart from the conversation.
pub fn reflection_request(c: &ReflectionCandidate, slice: &Vec<ChatMessage>) -> (r:
    NewPromptRequest)
    ensures
        r.session is None,
        r.sender == (Participant::Agent { agent_id: c.agent_id }),
        r.receiver_agent_id == c.agent_id,
        r.parent_session is None,
        r.content@ == reflection_text(slice@),
        r.idempotency_key@ == reflection_key(*c),
        r.kind_payload == (RequestKindPayload::Reflection {
            session_id: c.session_id,
            up_to_turn_id: c.last_turn_id,
        }),
{
    let mut key = String::new();
    key.append("reflect-");
    key.append(c.agent_id.text().as_str());
    key.append("-");
    key.append(c.session_id.text().as_str());
    key.append("-");
    key.append(c.last_turn_id.text().as_str());
    proof {
        let a = uuid_text(c.agent_id.0);
        let s = uuid_text(c.session_id.0);
        let t = uuid_text(c.last_turn_id.0);
        reveal_strlit("reflect-");
        reveal_strlit("-");
        lemma_uuid_text(c.agent_id.0);
        lemma_uuid_text(c.session_id.0);
        lemma_uuid_text(c.last_turn_id.0);
        assert(key@ =~= reflection_key(*c));
        lemma_ascii_len("reflect-"@);
        lemma_ascii_len("-"@);
        lemma_utf8_len_concat("reflect-"@, a);
        lemma_utf8_len_concat("reflect-"@ + a, "-"@);
        lemma_utf8_len_concat("reflect-"@ + a + "-"@, s);
        lemma_utf8_len_concat("reflect-"@ + a + "-"@ + s, "-"@);
        lemma_utf8_len_concat("reflect-"@ + a + "-"@ + s + "-"@, t);
        assert(key@[0] == 'r');
        assert(!white_space(key@[0]));
    }
    let idempotency_key = IdempotencyKey::try_from(key).unwrap();
    NewPromptRequest {
        session: None,
        sender: Participant::Agent { agent_id: c.agent_id },
        receiver_agent_id: c.agent_id,
        parent_session: None,
        content: build_reflection_prompt(slice),
        idempotency_key,
        kind_payload: RequestKindPayload::Reflection {
            session_id: c.session_id,
            up_to_turn_id: c.last_turn_id,
        },
    }
}

/// The instant before which a session's last message makes it idle at `now`.
pub fn idle_cutoff(now: Timestamp) -> (r: Option<Timestamp>)
    ensures
        r is Some <==> in_calendar(now@ - REFLECTION_IDLE_MICROS),
        r matches Some(t) ==> t@ == now@ - REFLECTION_IDLE_MICROS,
{
    now.plus_micros(-REFLECTION_IDLE_MICROS)
}

/// An agent looks back on idle conversations only: never on a session that a
/// reflection opened, nor on one on which a reflection is under way, nor twice on
/// the same messages. One tick queues no more than its batch.
pub proof fn law_only_idle_conversations_are_reflected_on(
    all: Seq<SessionActivity>,
    cutoff: Timestamp,
    order: Seq<usize>,
)
    requires
        idle_order(all, cutoff, order),
    ensures
        chosen_sessions(all, cutoff, order).len() <= REFLECTION_SCHEDULER_BATCH_LIMIT,
        forall|k: int|
            0 <= k < chosen_sessions(all, cutoff, order).len() ==> {
                let a = #[trigger] chosen_sessions(all, cutoff, order)[k];
                &&& all.contains(a)
                &&& a.latest_at@ <= cutoff@
                &&& a.opened_for != Some(RequestKind::Reflection)
                &&& !a.in_flight
                &&& a.checkpoint_at matches Some(t) ==> t@ < a.latest_at@
            },
{
    let p = |a: SessionActivity| due_for_reflection(a, cutoff);
    let due = due_sessions(all, cutoff);
    let chosen = chosen_sessions(all, cutoff, order);
    assert forall|k: int| 0 <= k < chosen.len() implies {
        let a = #[trigger] chosen[k];
        all.contains(a) && p(a)
    } by {
        assert(chosen[k] == due[order[k] as int]);
        assert(order[k] < due.len());
        all.lemma_filter_pred(p, order[k] as int);
        assert(due.contains(due[order[k] as int]));
        all.lemma_filter_contains_rev(p, chosen[k]);
    }
}

/// A transcript has the lines of its messages in their order, each once: who speaks, and
/// what is said.
pub proof fn law_transcript_follows_the_messages(
    a: Seq<ChatMessage>,
    b: Seq<ChatMessage>,
    m: ChatMessage,
)
    ensures
        transcript(a + b) == transcript(a) + transcript(b),
        transcript(seq![m]) == (match m {
            ChatMessage::User(blocks) => "User: "@ + user_blocks(blocks@) + "\n"@,
            ChatMessage::Assistant(blocks) => "Assistant: "@ + assistant_blocks(blocks@) + "\n"@,
        }),
    decreases b.len(),
{
    reveal_with_fuel(transcript, 2);
    assert(seq![m].last() == m);
    assert(seq![m].drop_last() =~= Seq::<ChatMessage>::empty());
    assert(Seq::<char>::empty() + message_line(m) =~= message_line(m));
    if b.len() == 0 {
        assert(a + b =~= a);
        assert(transcript(a) + transcript(b) =~= transcript(a));
    } else {
        assert((a + b).drop_last() =~= a + b.drop_last());
        law_transcript_follows_the_messages(a, b.drop_last(), m);
        assert(transcript(a + b) =~= transcript(a) + transcript(b));
    }
}

proof fn lemma_transcript_line(messages: Seq<ChatMessage>, i: int)
    requires
        0 <= i < messages.len(),
    ensures
        occurs_at(
            transcript(messages),
            message_line(messages[i]),
            transcript(messages.take(i)).len() as int,
        ),
{
    let head = messages.take(i);
    let one = seq![messages[i]];
    let tail = messages.skip(i + 1);
    let line = message_line(messages[i]);
    let p = transcript(head).len() as int;
    assert(messages =~= head + one + tail);
    law_transcript_follows_the_messages(head, one, messages[i]);
    law_transcript_follows_the_messages(head + one, tail, messages[i]);
    assert(transcript(messages).subrange(p, p + line.len()) =~= line);
}

proof fn lemma_transcript_speaks(messages: Seq<ChatMessage>)
    requires
        messages.len() > 0,
    ensures
        !blank(transcript(messages)),
{
    let m = messages[0];
    let line = message_line(m);
    let words = transcript(messages);
    let p = transcript(messages.take(0)).len() as int;
    lemma_transcript_line(messages, 0);
    reveal_strlit("User: ");
    reveal_strlit("Assistant: ");
    assert(line[0] == 'U' || line[0] == 'A');
    assert(words[p] == words.subrange(p, p + line.len())[0]);
    assert(!white_space(words[p]));
}

/// A reflection is asked for on what was said: where it fits, the prompt is the header and
/// the transcript, with every message in it; where it does not, the prompt has the end of
/// the transcript and says that the rest is cut.
pub proof fn law_reflection_prompt_has_the_conversation(messages: Seq<ChatMessage>, i: int)
    requires
        0 <= i < messages.len(),
    ensures
        utf8_len(REFLECTION_HEADER@) + utf8_len(transcript(messages)) <= PROMPT_MAX_BYTES ==> {
            &&& reflection_text(messages) == REFLECTION_HEADER@ + transcript(messages)
            &&& has_substring(
                reflection_text(messages),
                match messages[i] {
                    ChatMessage::User(blocks) => "User: "@ + user_blocks(blocks@) + "\n"@,
                    ChatMessage::Assistant(blocks) => "Assistant: "@ + assistant_blocks(blocks@)
                        + "\n"@,
                },
            )
        },
        utf8_len(REFLECTION_HEADER@) + utf8_len(transcript(messages)) > PROMPT_MAX_BYTES
            ==> exists|n: int|
            0 <= n <= transcript(messages).len() && reflection_text(messages) == REFLECTION_HEADER@
                + REFLECTION_NOTICE@ + #[trigger] transcript(messages).skip(n),
{
    let words = transcript(messages);
    let line = message_line(messages[i]);
    let p = transcript(messages.take(i)).len() as int;
    lemma_transcript_speaks(messages);
    lemma_transcript_line(messages, i);
    reveal_strlit(
        "Reflect on the conversation below. Identify what should be remembered, updated, or forgotten.\n\n## Conversation\n",
    );
    reveal_strlit("[earlier turns truncated to fit prompt cap]\n");
    lemma_utf8_len_at_least_chars(REFLECTION_HEADER@);
    lemma_utf8_len_at_least_chars(REFLECTION_NOTICE@);
    law_framing_keeps_the_end(
        REFLECTION_HEADER@,
        REFLECTION_NOTICE@,
        words,
        PROMPT_MAX_BYTES as nat,
        0,
    );
    if utf8_len(REFLECTION_HEADER@) + utf8_len(words) <= PROMPT_MAX_BYTES {
        let all = reflection_text(messages);
        let q = REFLECTION_HEADER@.len() + p;
        assert(all.subrange(q, q + line.len()) =~= words.subrange(p, p + line.len()));
        assert(occurs_at(all, line, q));
    }
}

/// From what was said to what the agent is asked to look back on: every message since the
/// last reflection is in the prompt, where the conversation fits, under the agent's own
/// name if the agent said it and under the other side's if not.
pub proof fn law_what_was_said_is_looked_back_on(
    messages: Seq<StoredMessage>,
    agent: AgentId,
    previous: Option<PromptRequestId>,
    up_to: PromptRequestId,
    slice: Seq<ChatMessage>,
    i: int,
)
    requires
        slice.len() == slice_of(messages, previous, up_to).len(),
        forall|k: int|
            0 <= k < slice.len() ==> seen_as(
                (#[trigger] slice_of(messages, previous, up_to)[k]).body,
                slice_of(messages, previous, up_to)[k].sender_agent_id == Some(agent),
                slice[k],
            ),
        said_since(messages, previous, up_to, i),
        utf8_len(REFLECTION_HEADER@) + utf8_len(transcript(slice)) <= PROMPT_MAX_BYTES,
    ensures
        has_substring(
            reflection_text(slice),
            (if messages[i].sender_agent_id == Some(agent) {
                "Assistant: "@
            } else {
                "User: "@
            }) + message_words(messages[i].body) + "\n"@,
        ),
{
    let part = slice_of(messages, previous, up_to);
    law_slice_is_what_was_said_since(messages, previous, up_to, i);
    let k = choose|k: int| 0 <= k < part.len() && part[k] == messages[i];
    law_viewer_mapping_keeps_the_words(
        part[k].body,
        part[k].sender_agent_id == Some(agent),
        slice[k],
    );
    law_reflection_prompt_has_the_conversation(slice, k);
    assert(has_substring(reflection_text(slice), message_line(slice[k])));
}

/// The longest idle session comes first. One that is due is left out only where a tick is
/// full of sessions that have been idle at least as long; where all that are due fit, all
/// are taken.
pub proof fn law_longest_idle_comes_first(
    all: Seq<SessionActivity>,
    cutoff: Timestamp,
    order: Seq<usize>,
    a: SessionActivity,
)
    requires
        idle_order(all, cutoff, order),
        all.contains(a),
        a.latest_at@ <= cutoff@,
        a.checkpoint_at matches Some(t) ==> t@ < a.latest_at@,
        a.opened_for is None || a.opened_for == Some(RequestKind::Normal),
        !a.in_flight,
    ensures
        ({
            let chosen = chosen_sessions(all, cutoff, order);
            &&& !chosen.contains(a) ==> chosen.len() == 32 && forall|k: int|
                0 <= k < chosen.len() ==> (#[trigger] chosen[k]).latest_at@ <= a.latest_at@
            &&& forall|i: int, j: int| #![trigger chosen[i], chosen[j]]
                0 <= i < j < chosen.len() ==> chosen[i].latest_at@ <= chosen[j].latest_at@
        }),
{
    broadcast use lemma_timestamp_range;

    let p = |a: SessionActivity| due_for_reflection(a, cutoff);
    let due = due_sessions(all, cutoff);
    let keys = due.map_values(|a: SessionActivity| idle_key(a));
    let lined_up = arranged(due, order);
    let chosen = chosen_sessions(all, cutoff, order);
    let x = choose|x: int| 0 <= x < all.len() && all[x] == a;
    all.lemma_filter_contains(p, x);
    let c = choose|c: int| 0 <= c < due.len() && due[c] == a;
    assert(listed(order, c));
    let w = choose|w: int| 0 <= w < order.len() && #[trigger] order[w] == c;
    assert(lined_up[w] == a);
    assert forall|i: int, j: int| #![trigger lined_up[i], lined_up[j]] 0 <= i < j
        < lined_up.len() implies lined_up[i].latest_at@ <= lined_up[j].latest_at@ by {
        assert(goes_before(keys, order[i] as int, order[j] as int));
        assert(order[i] < keys.len() && order[j] < keys.len());
    }
    assert forall|k: int| 0 <= k < chosen.len() implies #[trigger] chosen[k] == lined_up[k] by {}
    if w < chosen.len() {
        assert(chosen[w] == a);
    } else {
        assert forall|k: int| 0 <= k < chosen.len() implies (#[trigger] chosen[k]).latest_at@
            <= a.latest_at@ by {
            assert(lined_up[k] == chosen[k] && lined_up[w] == a);
        }
    }
}

/// A session is queued as it is: for its agent, up to its latest turn, from the turn that
/// the agent last looked back on.
pub proof fn law_candidates_name_their_session(a: SessionActivity)
    ensures
        candidate_of(a).agent_id == a.agent_id,
        candidate_of(a).session_id == a.session_id,
        candidate_of(a).last_turn_id == a.last_turn_id,
        candidate_of(a).previous_cursor == a.checkpoint_turn_id,
{
}

/// A reflection is queued once, and none keeps another from being queued: two have the same
/// key exactly if they are for the same agent, session and turn.
pub proof fn law_reflection_keys_tell_apart(c: ReflectionCandidate, d: ReflectionCandidate)
    ensures
        reflection_key(c) == reflection_key(d) <==> c.agent_id == d.agent_id && c.session_id
            == d.session_id && c.last_turn_id == d.last_turn_id,
{
    if reflection_key(c) == reflection_key(d) {
        let s = reflection_key(c);
        let t = reflection_key(d);
        lemma_uuid_text(c.agent_id.0);
        lemma_uuid_text(c.session_id.0);
        lemma_uuid_text(c.last_turn_id.0);
        lemma_uuid_text(d.agent_id.0);
        lemma_uuid_text(d.session_id.0);
        lemma_uuid_text(d.last_turn_id.0);
        reveal_strlit("reflect-");
        reveal_strlit("-");
        assert(s.subrange(8, 44) =~= uuid_text(c.agent_id.0));
        assert(t.subrange(8, 44) =~= uuid_text(d.agent_id.0));
        assert(s.subrange(45, 81) =~= uuid_text(c.session_id.0));
        assert(t.subrange(45, 81) =~= uuid_text(d.session_id.0));
        assert(s.subrange(82, 118) =~= uuid_text(c.last_turn_id.0));
        assert(t.subrange(82, 118) =~= uuid_text(d.last_turn_id.0));
        law_identifiers_read_apart(c.agent_id.0, d.agent_id.0);
        law_identifiers_read_apart(c.session_id.0, d.session_id.0);
        law_identifiers_read_apart(c.last_turn_id.0, d.last_turn_id.0);
    }
}

/// The key of a request to look back starts with a mark of its own and names agent, session and
/// last turn in this order, so that it meets no key of another kind.
pub proof fn law_reflection_key_is_marked(c: ReflectionCandidate)
    ensures
        reflection_key(c) == "reflect-"@ + uuid_text(c.agent_id.0) + "-"@ + uuid_text(
            c.session_id.0,
        ) + "-"@ + uuid_text(c.last_turn_id.0),
{
}

} // verus!
