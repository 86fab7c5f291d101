//! The librarian: a sweep over the memories of an agent that merges duplicates,
//! lets stale validations decay, brings the agent back to its quota and flags
//! contradictions; and the prompts by which an agent is asked to settle them.

use crate::ids::{
    law_identifiers_read_apart, lemma_uuid_text, uuid_text, AgentId, ContradictionEventId, MemoryId,
};
use crate::memory::limits::{MAX_MEMORIES_PER_AGENT, VALIDATION_DECAY_MICROS};
use crate::memory::store::{ContradictionEventRow, MemoryRow, PairCandidate};
use crate::runtime::NewPromptRequest;
use crate::text::{
    ascii_lowercase, contains_text, decimal, frame_body, framed, has_substring, lemma_framed_fits,
    lemma_utf8_len_at_least_chars, lemma_utf8_len_concat, lowercase_chars, occurs_at, push_decimal,
    white_space,
};
use crate::time::{in_calendar, rfc3339_text, Timestamp};
use crate::types::{IdempotencyKey, Participant, Prompt, RequestKindPayload, PROMPT_MAX_BYTES};
use vstd::prelude::*;

verus! {

/// A text with a negating word in it.
pub open spec fn negates(s: Seq<char>) -> bool {
    let low = ascii_lowercase(s);
    ||| has_substring(low, "not "@)
    ||| has_substring(low, "n't "@)
    ||| has_substring(low, "never "@)
    ||| has_substring(low, " no "@)
    ||| has_substring(low, " avoid "@)
    ||| has_substring(low, " forbid "@)
    ||| has_substring(low, "do not"@)
    ||| has_substring(low, "don't"@)
    ||| has_substring(low, "shouldn't"@)
    ||| has_substring(low, "won't"@)
}

/// Whether a negating word stands in `text`, whatever its case.
pub fn has_negation(text: &str) -> (r: bool)
    ensures
        r == negates(text@),
{
    let low = lowercase_chars(text);
    contains_text(&low, "not ") || contains_text(&low, "n't ") || contains_text(&low, "never ")
        || contains_text(&low, " no ") || contains_text(&low, " avoid ") || contains_text(
        &low,
        " forbid ",
    ) || contains_text(&low, "do not") || contains_text(&low, "don't") || contains_text(
        &low,
        "shouldn't",
    ) || contains_text(&low, "won't")
}

/// Whether two texts look like opposing claims: exactly one of them negates.
/// Generous on purpose: a false alarm costs one resolution turn.
pub fn contradicts(a: &str, b: &str) -> (r: bool)
    ensures
        r == (negates(a@) != negates(b@)),
{
    has_negation(a) != has_negation(b)
}

/// `a` stays when `a` and `b` say the same: it is more trusted, or as trusted and
/// older, or as old and has the smaller id.
pub open spec fn outlives(a: MemoryRow, b: MemoryRow) -> bool {
    ||| a.state.rank() > b.state.rank()
    ||| a.state.rank() == b.state.rank() && a.created_at@ < b.created_at@
    ||| a.state.rank() == b.state.rank() && a.created_at@ == b.created_at@ && a.id.0 < b.id.0
}

/// The memory of a duplicate pair that stays, and the one that goes.
pub open spec fn dedup_winner(pair: PairCandidate) -> (MemoryRow, MemoryRow) {
    if outlives(pair.a, pair.b) {
        (pair.a, pair.b)
    } else {
        (pair.b, pair.a)
    }
}

/// The memory of a duplicate pair that stays, and the one that goes.
pub fn pick_dedup_winner(pair: &PairCandidate) -> (r: (&MemoryRow, &MemoryRow))
    ensures
        (*r.0, *r.1) == dedup_winner(*pair),
{
    let trust_a = pair.a.state.priority();
    let trust_b = pair.b.state.priority();
    let a_wins = if trust_a > trust_b {
        true
    } else if trust_a < trust_b {
        false
    } else if pair.a.created_at.micros() < pair.b.created_at.micros() {
        true
    } else if pair.a.created_at.micros() > pair.b.created_at.micros() {
        false
    } else {
        pair.a.id.0 < pair.b.id.0
    };
    if a_wins {
        (&pair.a, &pair.b)
    } else {
        (&pair.b, &pair.a)
    }
}

/// Which of two distinct duplicates stays does not depend on how they are paired.
pub proof fn law_dedup_winner_is_symmetric(a: MemoryRow, b: MemoryRow)
    requires
        a.id != b.id,
    ensures
        outlives(a, b) != outlives(b, a),
{
}

/// What a sweep did.
#[derive(Clone, Copy, Debug, PartialEq, Eq, Structural)]
pub struct LibrarianSweepReport {
    pub deduped: usize,
    pub demoted: usize,
    pub evicted: usize,
    pub contradictions_flagged: usize,
}

/// What a sweep asks of the store.
#[derive(Debug)]
pub enum SweepAction {
    /// Find the pairs that are similar enough to be duplicates.
    FindDuplicates,
    /// Record that the memory was written twice, independently.
    Validate { memory: MemoryId },
    /// Forget the memory on the librarian's account.
    Forget { memory: MemoryId },
    /// Bring validated memories last validated before `cutoff` back to held.
    Decay { cutoff: Timestamp },
    /// Forget the least valuable memories beyond `quota`.
    Evict { quota: usize },
    /// Find the pairs that are similar enough to be contradictions.
    FindContradictions,
    /// Flag the pair.
    Flag { a: MemoryId, b: MemoryId, similarity: String },
    /// Nothing more.
    Finish(LibrarianSweepReport),
}

impl Clone for SweepAction {
    fn clone(&self) -> (r: SweepAction)
        ensures
            r == *self,
    {
        match self {
            SweepAction::FindDuplicates => SweepAction::FindDuplicates,
            SweepAction::Validate { memory } => SweepAction::Validate { memory: *memory },
            SweepAction::Forget { memory } => SweepAction::Forget { memory: *memory },
            SweepAction::Decay { cutoff } => SweepAction::Decay { cutoff: *cutoff },
            SweepAction::Evict { quota } => SweepAction::Evict { quota: *quota },
            SweepAction::FindContradictions => SweepAction::FindContradictions,
            SweepAction::Flag { a, b, similarity } => SweepAction::Flag {
                a: *a,
                b: *b,
                similarity: similarity.clone(),
            },
            SweepAction::Finish(report) => SweepAction::Finish(*report),
        }
    }
}

/// What the store answered to the action before.
#[derive(Debug)]
pub enum SweepReply {
    /// The pairs that were asked for, the most similar first.
    Pairs(Vec<PairCandidate>),
    /// It is done.
    Done,
    /// It is done, to this many memories.
    Count(usize),
}

/// One of the pair was forgotten earlier in the sweep.
pub open spec fn touches(pair: PairCandidate, forgotten: Seq<MemoryId>) -> bool {
    forgotten.contains(pair.a.id) || forgotten.contains(pair.b.id)
}

/// What merging a pair of duplicates takes. A copy that another turn wrote
/// confirms the one that stays; a pinned copy is not forgotten.
pub open spec fn merge_actions(pair: PairCandidate) -> Seq<SweepAction> {
    let (keep, gone) = dedup_winner(pair);
    (if keep.source_turn_id != gone.source_turn_id {
        seq![SweepAction::Validate { memory: keep.id }]
    } else {
        Seq::empty()
    }) + (if gone.pinned {
        Seq::empty()
    } else {
        seq![SweepAction::Forget { memory: gone.id }]
    })
}

/// The memories that merging `pairs`, one after the other, forgets. A pair that
/// lost a memory to an earlier one is passed over.
pub open spec fn merge_forgets(pairs: Seq<PairCandidate>) -> Seq<MemoryId>
    decreases pairs.len(),
{
    if pairs.len() == 0 {
        Seq::empty()
    } else {
        let before = merge_forgets(pairs.drop_last());
        let pair = pairs.last();
        let gone = dedup_winner(pair).1;
        if touches(pair, before) || gone.pinned {
            before
        } else {
            before.push(gone.id)
        }
    }
}

/// What merging `pairs`, one after the other, takes.
pub open spec fn merge_plan(pairs: Seq<PairCandidate>) -> Seq<SweepAction>
    decreases pairs.len(),
{
    if pairs.len() == 0 {
        Seq::empty()
    } else {
        let before = merge_plan(pairs.drop_last());
        if touches(pairs.last(), merge_forgets(pairs.drop_last())) {
            before
        } else {
            before + merge_actions(pairs.last())
        }
    }
}

/// A pair to be flagged: both memories are still there, they are similar without
/// being duplicates, and one of them negates.
pub open spec fn is_contradiction(pair: PairCandidate, forgotten: Seq<MemoryId>) -> bool {
    !touches(pair, forgotten) && !pair.similarity.duplicate && negates(pair.a.content@) != negates(
        pair.b.content@,
    )
}

/// The flags that `pairs` call for.
pub open spec fn flag_plan(pairs: Seq<PairCandidate>, forgotten: Seq<MemoryId>) -> Seq<SweepAction>
    decreases pairs.len(),
{
    if pairs.len() == 0 {
        Seq::empty()
    } else {
        let before = flag_plan(pairs.drop_last(), forgotten);
        let pair = pairs.last();
        if is_contradiction(pair, forgotten) {
            before.push(
                SweepAction::Flag {
                    a: pair.a.id,
                    b: pair.b.id,
                    similarity: pair.similarity.text,
                },
            )
        } else {
            before
        }
    }
}

fn lists(ids: &Vec<MemoryId>, id: MemoryId) -> (r: bool)
    ensures
        r == ids@.contains(id),
{
    let mut i: usize = 0;
    while i < ids.len()
        invariant
            i <= ids@.len(),
            forall|j: int| 0 <= j < i ==> #[trigger] ids@[j] != id,
        decreases ids.len() - i,
    {
        if ids[i] == id {
            return true;
        }
        i += 1;
    }
    false
}

/// Plans the merge of duplicate pairs, and tells which memories it forgets.
pub fn plan_merges(pairs: &Vec<PairCandidate>) -> (r: (Vec<SweepAction>, Vec<MemoryId>))
    ensures
        r.0@ == merge_plan(pairs@),
        r.1@ == merge_forgets(pairs@),
{
    let mut actions: Vec<SweepAction> = Vec::new();
    let mut forgotten: Vec<MemoryId> = Vec::new();
    let mut i: usize = 0;
    while i < pairs.len()
        invariant
            i <= pairs@.len(),
            actions@ == merge_plan(pairs@.take(i as int)),
            forgotten@ == merge_forgets(pairs@.take(i as int)),
        decreases pairs.len() - i,
    {
        let ghost before = actions@;
        proof {
            assert(pairs@.take(i + 1).drop_last() =~= pairs@.take(i as int));
            assert(pairs@.take(i + 1).last() == pairs@[i as int]);
        }
        let pair = &pairs[i];
        if !(lists(&forgotten, pair.a.id) || lists(&forgotten, pair.b.id)) {
            let (keep, gone) = pick_dedup_winner(pair);
            if keep.source_turn_id != gone.source_turn_id {
                actions.push(SweepAction::Validate { memory: keep.id });
            }
            if !gone.pinned {
                actions.push(SweepAction::Forget { memory: gone.id });
                forgotten.push(gone.id);
            }
            proof {
                assert(actions@ =~= before + merge_actions(*pair));
            }
        }
        i += 1;
    }
    proof {
        assert(pairs@.take(pairs@.len() as int) =~= pairs@);
    }
    (actions, forgotten)
}

/// Plans the flags that similar pairs call for.
pub fn plan_flags(pairs: &Vec<PairCandidate>, forgotten: &Vec<MemoryId>) -> (r: Vec<SweepAction>)
    ensures
        r@ == flag_plan(pairs@, forgotten@),
{
    let mut actions: Vec<SweepAction> = Vec::new();
    let mut i: usize = 0;
    while i < pairs.len()
        invariant
            i <= pairs@.len(),
            actions@ == flag_plan(pairs@.take(i as int), forgotten@),
        decreases pairs.len() - i,
    {
        proof {
            assert(pairs@.take(i + 1).drop_last() =~= pairs@.take(i as int));
            assert(pairs@.take(i + 1).last() == pairs@[i as int]);
        }
        let pair = &pairs[i];
        let gone = lists(forgotten, pair.a.id) || lists(forgotten, pair.b.id);
        if !gone && !pair.similarity.duplicate && contradicts(
            pair.a.content.as_str(),
            pair.b.content.as_str(),
        ) {
            actions.push(
                SweepAction::Flag {
                    a: pair.a.id,
                    b: pair.b.id,
                    similarity: pair.similarity.text.clone(),
                },
            );
        }
        i += 1;
    }
    proof {
        assert(pairs@.take(pairs@.len() as int) =~= pairs@);
    }
    actions
}

/// How many of `actions` forget a memory.
pub open spec fn forget_count(actions: Seq<SweepAction>) -> nat
    decreases actions.len(),
{
    if actions.len() == 0 {
        0
    } else {
        forget_count(actions.drop_last()) + if actions.last() is Forget {
            1nat
        } else {
            0nat
        }
    }
}

/// Where a sweep stands.
#[derive(Clone, Copy, Debug, PartialEq, Eq, Structural)]
pub enum SweepStage {
    /// The duplicates are being looked for.
    Comparing,
    /// They are being merged.
    Merging,
    /// Validations are being decayed.
    Decaying,
    /// The quota is being met.
    Evicting,
    /// The contradictions are being looked for.
    Contrasting,
    /// They are being flagged.
    Flagging,
    /// The sweep is over.
    Over,
}

/// One sweep over the memories of an agent. It names the next action; whoever
/// holds the store carries it out and hands back the reply. An action that fails
/// ends the sweep: each one is a transaction, so that the next sweep goes on from
/// what is there.
#[derive(Debug)]
pub struct LibrarianSweep {
    cutoff: Timestamp,
    stage: SweepStage,
    queue: Vec<SweepAction>,
    at: usize,
    forgotten: Vec<MemoryId>,
    report: LibrarianSweepReport,
}

impl LibrarianSweep {
    /// The instant before which a validation is stale.
    pub closed spec fn cutoff(self) -> Timestamp {
        self.cutoff
    }

    /// Where the sweep stands.
    pub closed spec fn stage(self) -> SweepStage {
        self.stage
    }

    /// The actions of the stage.
    pub closed spec fn queue(self) -> Seq<SweepAction> {
        self.queue@
    }

    /// How many of them are done.
    pub closed spec fn at(self) -> int {
        self.at as int
    }

    /// The memories forgotten so far.
    pub closed spec fn forgotten(self) -> Seq<MemoryId> {
        self.forgotten@
    }

    /// What was done so far.
    pub closed spec fn report(self) -> LibrarianSweepReport {
        self.report
    }

    /// A stage with a queue is at one of its actions; the counters count what is
    /// done.
    pub open spec fn wf(self) -> bool {
        let done = self.report();
        match self.stage() {
            SweepStage::Comparing => done.deduped == 0 && done.contradictions_flagged == 0,
            SweepStage::Merging => done.deduped <= self.at() < self.queue().len()
                && done.contradictions_flagged == 0,
            SweepStage::Flagging => done.contradictions_flagged == self.at() < self.queue().len(),
            SweepStage::Over => true,
            _ => done.contradictions_flagged == 0,
        }
    }

    /// The action that the sweep is at.
    pub open spec fn action(self) -> SweepAction {
        match self.stage() {
            SweepStage::Comparing => SweepAction::FindDuplicates,
            SweepStage::Merging => self.queue()[self.at()],
            SweepStage::Decaying => SweepAction::Decay { cutoff: self.cutoff() },
            SweepStage::Evicting => SweepAction::Evict { quota: MAX_MEMORIES_PER_AGENT },
            SweepStage::Contrasting => SweepAction::FindContradictions,
            SweepStage::Flagging => self.queue()[self.at()],
            SweepStage::Over => SweepAction::Finish(self.report()),
        }
    }

    /// The reply is of the kind that the action asks for.
    pub open spec fn expects(self, reply: SweepReply) -> bool {
        match self.stage() {
            SweepStage::Comparing | SweepStage::Contrasting => reply is Pairs,
            SweepStage::Merging | SweepStage::Flagging => reply is Done,
            SweepStage::Decaying | SweepStage::Evicting => reply is Count,
            SweepStage::Over => false,
        }
    }

    /// A sweep that starts at `now`, where the calendar reaches back to the
    /// instant before which validations are stale.
    pub fn start(now: Timestamp) -> (r: Option<LibrarianSweep>)
        ensures
            r is Some <==> in_calendar(now@ - VALIDATION_DECAY_MICROS),
            r matches Some(s) ==> s.wf() && s.stage() == SweepStage::Comparing && s.cutoff()@
                == now@ - VALIDATION_DECAY_MICROS && s.forgotten() == Seq::<MemoryId>::empty()
                && s.report() == (LibrarianSweepReport {
                deduped: 0,
                demoted: 0,
                evicted: 0,
                contradictions_flagged: 0,
            }),
    {
        match now.plus_micros(-VALIDATION_DECAY_MICROS) {
            None => None,
            Some(cutoff) => Some(
                LibrarianSweep {
                    cutoff,
                    stage: SweepStage::Comparing,
                    queue: Vec::new(),
                    at: 0,
                    forgotten: Vec::new(),
                    report: LibrarianSweepReport {
                        deduped: 0,
                        demoted: 0,
                        evicted: 0,
                        contradictions_flagged: 0,
                    },
                },
            ),
        }
    }

    /// The action that the sweep is at.
    pub fn next_action(&self) -> (a: SweepAction)
        requires
            self.wf(),
        ensures
            a == self.action(),
    {
        match self.stage {
            SweepStage::Comparing => SweepAction::FindDuplicates,
            SweepStage::Merging => self.queue[self.at].clone(),
            SweepStage::Decaying => SweepAction::Decay { cutoff: self.cutoff },
            SweepStage::Evicting => SweepAction::Evict { quota: MAX_MEMORIES_PER_AGENT },
            SweepStage::Contrasting => SweepAction::FindContradictions,
            SweepStage::Flagging => self.queue[self.at].clone(),
            SweepStage::Over => SweepAction::Finish(self.report),
        }
    }

    /// Takes the reply to the action that the sweep is at, and moves on.
    pub fn advance(&mut self, reply: SweepReply)
        requires
            old(self).wf(),
            old(self).expects(reply),
        ensures
            final(self).wf(),
            final(self).cutoff() == old(self).cutoff(),
            match old(self).stage() {
                SweepStage::Comparing => {
                    let pairs = reply->Pairs_0@;
                    &&& final(self).forgotten() == merge_forgets(pairs)
                    &&& final(self).report() == old(self).report()
                    &&& final(self).queue() == merge_plan(pairs)
                    &&& final(self).at() == 0
                    &&& final(self).stage() == if merge_plan(pairs).len() == 0 {
                        SweepStage::Decaying
                    } else {
                        SweepStage::Merging
                    }
                },
                SweepStage::Merging => {
                    &&& final(self).forgotten() == old(self).forgotten()
                    &&& final(self).queue() == old(self).queue()
                    &&& final(self).at() == old(self).at() + 1
                    &&& final(self).report() == (LibrarianSweepReport {
                        deduped: if old(self).action() is Forget {
                            (old(self).report().deduped + 1) as usize
                        } else {
                            old(self).report().deduped
                        },
                        ..old(self).report()
                    })
                    &&& old(self).report().deduped < usize::MAX
                    &&& final(self).stage() == if old(self).at() + 1 == old(self).queue().len() {
                        SweepStage::Decaying
                    } else {
                        SweepStage::Merging
                    }
                },
                SweepStage::Decaying => {
                    &&& final(self).stage() == SweepStage::Evicting
                    &&& final(self).forgotten() == old(self).forgotten()
                    &&& final(self).report() == (LibrarianSweepReport {
                        demoted: reply->Count_0,
                        ..old(self).report()
                    })
                },
                SweepStage::Evicting => {
                    &&& final(self).stage() == SweepStage::Contrasting
                    &&& final(self).forgotten() == old(self).forgotten()
                    &&& final(self).report() == (LibrarianSweepReport {
                        evicted: reply->Count_0,
                        ..old(self).report()
                    })
                },
                SweepStage::Contrasting => {
                    let flags = flag_plan(reply->Pairs_0@, old(self).forgotten());
                    &&& final(self).forgotten() == old(self).forgotten()
                    &&& final(self).report() == old(self).report()
                    &&& final(self).queue() == flags
                    &&& final(self).at() == 0
                    &&& final(self).stage() == if flags.len() == 0 {
                        SweepStage::Over
                    } else {
                        SweepStage::Flagging
                    }
                },
                SweepStage::Flagging => {
                    &&& final(self).forgotten() == old(self).forgotten()
                    &&& final(self).queue() == old(self).queue()
                    &&& final(self).at() == old(self).at() + 1
                    &&& final(self).report() == (LibrarianSweepReport {
                        contradictions_flagged: (old(self).report().contradictions_flagged
                            + 1) as usize,
                        ..old(self).report()
                    })
                    &&& old(self).report().contradictions_flagged < usize::MAX
                    &&& final(self).stage() == if old(self).at() + 1 == old(self).queue().len() {
                        SweepStage::Over
                    } else {
                        SweepStage::Flagging
                    }
                },
                SweepStage::Over => true,
            },
    {
        match reply {
            SweepReply::Pairs(pairs) => {
                if self.stage == SweepStage::Comparing {
                    let (queue, forgotten) = plan_merges(&pairs);
                    self.stage = if queue.len() == 0 {
                        SweepStage::Decaying
                    } else {
                        SweepStage::Merging
                    };
                    self.queue = queue;
                    self.forgotten = forgotten;
                } else {
                    let queue = plan_flags(&pairs, &self.forgotten);
                    self.stage = if queue.len() == 0 {
                        SweepStage::Over
                    } else {
                        SweepStage::Flagging
                    };
                    self.queue = queue;
                }
                self.at = 0;
            },
            SweepReply::Done => {
                let len = self.queue.len();
                if self.stage == SweepStage::Merging {
                    if let SweepAction::Forget { .. } = &self.queue[self.at] {
                        self.report.deduped = self.report.deduped + 1;
                    }
                    self.at = self.at + 1;
                    if self.at == len {
                        self.stage = SweepStage::Decaying;
                    }
                } else {
                    self.report.contradictions_flagged = self.report.contradictions_flagged + 1;
                    self.at = self.at + 1;
                    if self.at == len {
                        self.stage = SweepStage::Over;
                    }
                }
            },
            SweepReply::Count(n) => {
                if self.stage == SweepStage::Decaying {
                    self.report.demoted = n;
                    self.stage = SweepStage::Evicting;
                } else {
                    self.report.evicted = n;
                    self.stage = SweepStage::Contrasting;
                }
            },
        }
    }
}

/// A sweep never forgets a pinned memory, and never flags one that it forgot:
/// every memory that merging forgets is the unpinned loser of one of the pairs.
pub proof fn law_merging_spares_pinned(pairs: Seq<PairCandidate>, k: int)
    requires
        0 <= k < merge_forgets(pairs).len(),
    ensures
        exists|i: int|
            0 <= i < pairs.len() && dedup_winner(#[trigger] pairs[i]).1.id == merge_forgets(
                pairs,
            )[k] && !dedup_winner(pairs[i]).1.pinned,
    decreases pairs.len(),
{
    let rest = pairs.drop_last();
    let before = merge_forgets(rest);
    if k < before.len() {
        law_merging_spares_pinned(rest, k);
        let i = choose|i: int|
            0 <= i < rest.len() && dedup_winner(#[trigger] rest[i]).1.id == before[k]
                && !dedup_winner(rest[i]).1.pinned;
        assert(pairs[i] == rest[i]);
    } else {
        assert(pairs[pairs.len() - 1] == pairs.last());
    }
}

/// Merging forgets a memory at most once, and as often as its plan says.
pub proof fn law_merging_forgets_once(pairs: Seq<PairCandidate>)
    requires
        forall|i: int| 0 <= i < pairs.len() ==> (#[trigger] pairs[i]).a.id != pairs[i].b.id,
    ensures
        merge_forgets(pairs).no_duplicates(),
        forget_count(merge_plan(pairs)) == merge_forgets(pairs).len(),
    decreases pairs.len(),
{
    if pairs.len() > 0 {
        let rest = pairs.drop_last();
        assert forall|i: int| 0 <= i < rest.len() implies (#[trigger] rest[i]).a.id
            != rest[i].b.id by {
            assert(pairs[i] == rest[i]);
        }
        law_merging_forgets_once(rest);
        let pair = pairs.last();
        let before = merge_forgets(rest);
        if !touches(pair, before) {
            let (keep, gone) = dedup_winner(pair);
            let plan = merge_plan(rest);
            let mine = merge_actions(pair);
            let base = if keep.source_turn_id != gone.source_turn_id {
                plan.push(SweepAction::Validate { memory: keep.id })
            } else {
                plan
            };
            assert(plan.push(SweepAction::Validate { memory: keep.id }).drop_last() =~= plan);
            assert(forget_count(base) == forget_count(plan));
            if gone.pinned {
                assert(plan + mine =~= base);
            } else {
                let forget = SweepAction::Forget { memory: gone.id };
                assert(plan + mine =~= base.push(forget));
                assert(base.push(forget).drop_last() =~= base);
                assert(!before.contains(gone.id));
                assert(before.push(gone.id).no_duplicates());
            }
        }
    }
}

/// Why a pair is flagged.
pub open spec fn flag_reason_text(similarity: Seq<char>) -> Seq<char> {
    "high embedding similarity ("@ + similarity + ") with opposing textual cues"@
}

/// Why a pair is flagged, as it is recorded.
pub fn flag_reason(similarity: &str) -> (s: String)
    ensures
        s@ == flag_reason_text(similarity@),
{
    let mut out = String::new();
    out.append("high embedding similarity (");
    out.append(similarity);
    out.append(") with opposing textual cues");
    proof {
        assert(out@ =~= flag_reason_text(similarity@));
    }
    out
}

/// Opens a resolution prompt.
pub const RESOLUTION_HEADER: &'static str =
    "Two of your memories were flagged as contradicting. Decide what to do.\n\n";

/// Says that a resolution prompt was trimmed.
pub const RESOLUTION_NOTICE: &'static str = "[earlier content trimmed to fit prompt cap]\n";

/// A yes or no in a prompt.
pub open spec fn bool_text(b: bool) -> Seq<char> {
    if b {
        "true"@
    } else {
        "false"@
    }
}

/// What a resolution prompt says of one memory of the pair.
pub open spec fn pair_entry(label: Seq<char>, id: MemoryId, row: Option<MemoryRow>) -> Seq<char> {
    label + ":\n"@ + "  Id: "@ + uuid_text(id.0) + "\n"@ + match row {
        None => "  [no longer exists — likely forgotten before resolution]\n"@,
        Some(r) => "  Content: "@ + r.content@ + "\n"@ + "  Kind: "@ + r.kind.label()
            + "   State: "@ + r.state.label() + "   Pinned: "@ + bool_text(r.pinned) + "\n"@
            + "  Created: "@ + rfc3339_text(r.created_at@ as i64) + "\n"@ + "  Last validated: "@
            + rfc3339_text(r.last_validated_at@ as i64) + "\n"@ + "  Access count: "@ + decimal(
            r.access_count as nat,
        ) + "\n"@ + match r.source_turn_id {
            Some(turn) => "  Source turn: "@ + uuid_text(turn.0) + "\n"@,
            None => "  Source turn: (operator note or librarian merge)\n"@,
        },
    }
}

/// Appends what a resolution prompt says of one memory of the pair. A memory that
/// is gone by then is said to be gone.
pub fn render_pair_entry(buf: &mut String, label: &str, id: MemoryId, row: Option<&MemoryRow>)
    ensures
        final(buf)@ == old(buf)@ + pair_entry(
            label@,
            id,
            match row {
                Some(r) => Some(*r),
                None => None,
            },
        ),
{
    let ghost start = buf@;
    buf.append(label);
    buf.append(":\n");
    buf.append("  Id: ");
    buf.append(id.text().as_str());
    buf.append("\n");
    let ghost head = label@ + ":\n"@ + "  Id: "@ + uuid_text(id.0) + "\n"@;
    proof {
        assert(buf@ =~= start + head);
    }
    match row {
        None => {
            buf.append("  [no longer exists — likely forgotten before resolution]\n");
        },
        Some(r) => {
            let mut rest = String::new();
            rest.append("  Content: ");
            rest.append(r.content.as_str());
            rest.append("\n");
            rest.append("  Kind: ");
            rest.append(r.kind.as_str());
            rest.append("   State: ");
            rest.append(r.state.as_str());
            rest.append("   Pinned: ");
            rest.append(
                if r.pinned {
                    "true"
                } else {
                    "false"
                },
            );
            rest.append("\n");
            rest.append("  Created: ");
            rest.append(r.created_at.to_rfc3339().as_str());
            rest.append("\n");
            rest.append("  Last validated: ");
            rest.append(r.last_validated_at.to_rfc3339().as_str());
            rest.append("\n");
            rest.append("  Access count: ");
            push_decimal(&mut rest, r.access_count);
            rest.append("\n");
            let ghost facts = rest@;
            match r.source_turn_id {
                Some(turn) => {
                    rest.append("  Source turn: ");
                    rest.append(turn.text().as_str());
                    rest.append("\n");
                },
                None => {
                    rest.append("  Source turn: (operator note or librarian merge)\n");
                },
            }
            buf.append(rest.as_str());
            proof {
                assert(rest@ =~= facts + match r.source_turn_id {
                    Some(turn) => "  Source turn: "@ + uuid_text(turn.0) + "\n"@,
                    None => "  Source turn: (operator note or librarian merge)\n"@,
                });
                assert(facts =~= "  Content: "@ + r.content@ + "\n"@ + "  Kind: "@ + r.kind.label()
                    + "   State: "@ + r.state.label() + "   Pinned: "@ + bool_text(r.pinned)
                    + "\n"@ + "  Created: "@ + rfc3339_text(r.created_at@ as i64) + "\n"@
                    + "  Last validated: "@ + rfc3339_text(r.last_validated_at@ as i64) + "\n"@
                    + "  Access count: "@ + decimal(r.access_count as nat) + "\n"@);
            }
        },
    }
    proof {
        assert(buf@ =~= start + pair_entry(
            label@,
            id,
            match row {
                Some(r) => Some(*r),
                None => None,
            },
        ));
    }
}

/// The body of a resolution prompt.
pub open spec fn resolution_body(
    ev: ContradictionEventRow,
    a: Option<MemoryRow>,
    b: Option<MemoryRow>,
) -> Seq<char> {
    "Reason flagged: "@ + ev.reason@ + "\n"@ + "\n"@ + pair_entry(
        "Memory A (M-1)"@,
        ev.memory_a,
        a,
    ) + "\n"@ + pair_entry("Memory B (M-2)"@, ev.memory_b, b)
}

/// The prompt of a resolution turn: the two memories with their provenance, and
/// why they were flagged. The first memory is `M-1` and the second `M-2`, as they
/// are in the memory section of the same turn. What does not fit is cut from the
/// head of the body.
pub fn build_resolution_prompt(
    ev: &ContradictionEventRow,
    a: Option<&MemoryRow>,
    b: Option<&MemoryRow>,
) -> (p: Prompt)
    ensures
        p@ == framed(
            RESOLUTION_HEADER@,
            RESOLUTION_NOTICE@,
            resolution_body(
                *ev,
                match a {
                    Some(r) => Some(*r),
                    None => None,
                },
                match b {
                    Some(r) => Some(*r),
                    None => None,
                },
            ),
            PROMPT_MAX_BYTES as nat,
        ),
{
    let mut body = String::new();
    body.append("Reason flagged: ");
    body.append(ev.reason.as_str());
    body.append("\n");
    body.append("\n");
    render_pair_entry(&mut body, "Memory A (M-1)", ev.memory_a, a);
    body.append("\n");
    render_pair_entry(&mut body, "Memory B (M-2)", ev.memory_b, b);
    proof {
        assert(body@ =~= resolution_body(
            *ev,
            match a {
                Some(r) => Some(*r),
                None => None,
            },
            match b {
                Some(r) => Some(*r),
                None => None,
            },
        ));
    }
    let out = frame_body(RESOLUTION_HEADER, RESOLUTION_NOTICE, body.as_str(), PROMPT_MAX_BYTES);
    proof {
        reveal_strlit("Two of your memories were flagged as contradicting. Decide what to do.\n\n");
        reveal_strlit("[earlier content trimmed to fit prompt cap]\n");
        lemma_utf8_len_at_least_chars(RESOLUTION_HEADER@);
        lemma_utf8_len_at_least_chars(RESOLUTION_NOTICE@);
        lemma_framed_fits(
            RESOLUTION_HEADER@,
            RESOLUTION_NOTICE@,
            body@,
            PROMPT_MAX_BYTES as nat,
        );
        assert(out@.subrange(0, RESOLUTION_HEADER@.len() as int)[0] == RESOLUTION_HEADER@[0]);
        assert(out@[0] == 'T');
        assert(!white_space(out@[0]));
    }
    Prompt::try_from(out).unwrap()
}

/// The key under which the resolution of a contradiction is queued once.
pub open spec fn resolution_key(id: ContradictionEventId) -> Seq<char> {
    "resolve-"@ + uuid_text(id.0)
}

/// The request by which `agent` is asked to settle a contradiction. It opens a
/// session of its own.
pub fn resolution_request(
    agent: AgentId,
    ev: &ContradictionEventRow,
    a: Option<&MemoryRow>,
    b: Option<&MemoryRow>,
) -> (r: NewPromptRequest)
    ensures
        r.session is None,
        r.sender == (Participant::Agent { agent_id: agent }),
        r.receiver_agent_id == agent,
        r.parent_session is None,
        r.idempotency_key@ == resolution_key(ev.id),
        r.kind_payload == (RequestKindPayload::Resolution { contradiction_event_id: ev.id }),
        r.content@ == framed(
            RESOLUTION_HEADER@,
            RESOLUTION_NOTICE@,
            resolution_body(
                *ev,
                match a {
                    Some(r) => Some(*r),
                    None => None,
                },
                match b {
                    Some(r) => Some(*r),
                    None => None,
                },
            ),
            PROMPT_MAX_BYTES as nat,
        ),
{
    let mut key = String::new();
    key.append("resolve-");
    key.append(ev.id.text().as_str());
    proof {
        reveal_strlit("resolve-");
        lemma_uuid_text(ev.id.0);
        assert(key@ =~= resolution_key(ev.id));
        lemma_utf8_len_at_least_chars("resolve-"@);
        lemma_utf8_len_concat("resolve-"@, uuid_text(ev.id.0));
        assert(key@[0] == 'r');
        assert(!white_space(key@[0]));
    }
    let idempotency_key = IdempotencyKey::try_from(key).unwrap();
    NewPromptRequest {
        session: None,
        sender: Participant::Agent { agent_id: agent },
        receiver_agent_id: agent,
        parent_session: None,
        content: build_resolution_prompt(ev, a, b),
        idempotency_key,
        kind_payload: RequestKindPayload::Resolution { contradiction_event_id: ev.id },
    }
}

/// A resolution is queued once: two have the same key exactly if they are for the same
/// contradiction.
pub proof fn law_resolution_keys_tell_apart(a: ContradictionEventId, b: ContradictionEventId)
    ensures
        resolution_key(a) == resolution_key(b) <==> a == b,
{
    if resolution_key(a) == resolution_key(b) {
        lemma_uuid_text(a.0);
        lemma_uuid_text(b.0);
        reveal_strlit("resolve-");
        assert(resolution_key(a).subrange(8, 44) =~= uuid_text(a.0));
        assert(resolution_key(b).subrange(8, 44) =~= uuid_text(b.0));
        law_identifiers_read_apart(a.0, b.0);
    }
}

proof fn lemma_middle(a: Seq<char>, b: Seq<char>, c: Seq<char>)
    ensures
        has_substring(a + b + c, b),
{
    let p = a.len() as int;
    assert((a + b + c).subrange(p, p + b.len()) =~= b);
    assert(occurs_at(a + b + c, b, p));
}

/// The body of a resolution prompt says why the pair was flagged, and of each memory its id,
/// its whole content and its provenance, under the handle by which it is to be named. A
/// memory that is gone is said to be gone.
pub proof fn law_resolution_prompt_tells_of_both(
    ev: ContradictionEventRow,
    a: Option<MemoryRow>,
    b: Option<MemoryRow>,
)
    ensures
        ({
            let body = resolution_body(ev, a, b);
            &&& has_substring(body, "Reason flagged: "@ + ev.reason@ + "\n"@)
            &&& has_substring(
                body,
                "Memory A (M-1)"@ + ":\n"@ + "  Id: "@ + uuid_text(ev.memory_a.0) + "\n"@
                    + told_of(a),
            )
            &&& has_substring(
                body,
                "Memory B (M-2)"@ + ":\n"@ + "  Id: "@ + uuid_text(ev.memory_b.0) + "\n"@
                    + told_of(b),
            )
        }),
{
    let body = resolution_body(ev, a, b);
    let why = "Reason flagged: "@ + ev.reason@ + "\n"@;
    let one = pair_entry("Memory A (M-1)"@, ev.memory_a, a);
    let two = pair_entry("Memory B (M-2)"@, ev.memory_b, b);
    let none = Seq::<char>::empty();
    lemma_middle(none, why, "\n"@ + one + "\n"@ + two);
    assert(body =~= none + why + ("\n"@ + one + "\n"@ + two));
    lemma_middle(why + "\n"@, one, "\n"@ + two);
    assert(body =~= (why + "\n"@) + one + ("\n"@ + two));
    lemma_middle(why + "\n"@ + one + "\n"@, two, none);
    assert(body =~= (why + "\n"@ + one + "\n"@) + two + none);
    lemma_entry_tells("Memory A (M-1)"@, ev.memory_a, a);
    lemma_entry_tells("Memory B (M-2)"@, ev.memory_b, b);
}

/// What a resolution prompt tells of a memory.
pub open spec fn told_of(row: Option<MemoryRow>) -> Seq<char> {
    match row {
        None => "  [no longer exists — likely forgotten before resolution]\n"@,
        Some(r) => "  Content: "@ + r.content@ + "\n"@ + ("  Kind: "@ + r.kind.label()
            + "   State: "@ + r.state.label() + "   Pinned: "@ + (if r.pinned {
            "true"@
        } else {
            "false"@
        }) + "\n"@) + ("  Created: "@ + rfc3339_text(r.created_at@ as i64) + "\n"@) + (
        "  Last validated: "@ + rfc3339_text(r.last_validated_at@ as i64) + "\n"@) + (
        "  Access count: "@ + decimal(r.access_count as nat) + "\n"@) + (match r.source_turn_id {
            Some(turn) => "  Source turn: "@ + uuid_text(turn.0) + "\n"@,
            None => "  Source turn: (operator note or librarian merge)\n"@,
        }),
    }
}

proof fn lemma_entry_tells(label: Seq<char>, id: MemoryId, row: Option<MemoryRow>)
    ensures
        pair_entry(label, id, row) == label + ":\n"@ + "  Id: "@ + uuid_text(id.0) + "\n"@ + told_of(
            row,
        ),
{
    assert(pair_entry(label, id, row) =~= label + ":\n"@ + "  Id: "@ + uuid_text(id.0) + "\n"@
        + told_of(row));
}

proof fn lemma_six_parts(
    head: Seq<char>,
    one: Seq<char>,
    two: Seq<char>,
    three: Seq<char>,
    four: Seq<char>,
    five: Seq<char>,
    six: Seq<char>,
)
    ensures
        ({
            let all = head + (one + two + three + four + five + six);
            &&& has_substring(all, one)
            &&& has_substring(all, two)
            &&& has_substring(all, three)
            &&& has_substring(all, four)
            &&& has_substring(all, five)
            &&& has_substring(all, six)
        }),
{
    let h1 = head + one;
    let h2 = h1 + two;
    let h3 = h2 + three;
    let h4 = h3 + four;
    let h5 = h4 + five;
    let all = h5 + six;
    lemma_part_of(all, head, one);
    lemma_part_of(all, h1, two);
    lemma_part_of(all, h2, three);
    lemma_part_of(all, h3, four);
    lemma_part_of(all, h4, five);
    lemma_part_of(all, h5, six);
    assert(all =~= head + (one + two + three + four + five + six));
}

proof fn lemma_part_of(all: Seq<char>, before: Seq<char>, part: Seq<char>)
    requires
        before.len() + part.len() <= all.len(),
        forall|i: int|
            0 <= i < before.len() + part.len() ==> #[trigger] all[i] == (before + part)[i],
    ensures
        has_substring(all, part),
{
    let p = before.len() as int;
    assert(all.subrange(p, p + part.len()) =~= part);
    assert(occurs_at(all, part, p));
}

proof fn lemma_id_stands(label: Seq<char>, id: MemoryId, rest: Seq<char>)
    ensures
        has_substring(
            label + ":\n"@ + "  Id: "@ + uuid_text(id.0) + "\n"@ + rest,
            "  Id: "@ + uuid_text(id.0) + "\n"@,
        ),
{
    let mark = "  Id: "@ + uuid_text(id.0) + "\n"@;
    let head = label + ":\n"@ + "  Id: "@ + uuid_text(id.0) + "\n"@;
    lemma_middle(label + ":\n"@, mark, rest);
    assert(head =~= (label + ":\n"@) + mark);
}

proof fn lemma_told(head: Seq<char>, r: MemoryRow)
    ensures
        ({
            let all = head + told_of(Some(r));
            &&& has_substring(all, "  Content: "@ + r.content@ + "\n"@)
            &&& has_substring(
                all,
                "  Kind: "@ + r.kind.label() + "   State: "@ + r.state.label() + "   Pinned: "@ + (
                if r.pinned {
                    "true"@
                } else {
                    "false"@
                }) + "\n"@,
            )
            &&& has_substring(all, "  Created: "@ + rfc3339_text(r.created_at@ as i64) + "\n"@)
            &&& has_substring(
                all,
                "  Last validated: "@ + rfc3339_text(r.last_validated_at@ as i64) + "\n"@,
            )
            &&& has_substring(all, "  Access count: "@ + decimal(r.access_count as nat) + "\n"@)
            &&& has_substring(
                all,
                match r.source_turn_id {
                    Some(turn) => "  Source turn: "@ + uuid_text(turn.0) + "\n"@,
                    None => "  Source turn: (operator note or librarian merge)\n"@,
                },
            )
        }),
{
    lemma_six_parts(
        head,
        "  Content: "@ + r.content@ + "\n"@,
        "  Kind: "@ + r.kind.label() + "   State: "@ + r.state.label() + "   Pinned: "@ + (
        if r.pinned {
            "true"@
        } else {
            "false"@
        }) + "\n"@,
        "  Created: "@ + rfc3339_text(r.created_at@ as i64) + "\n"@,
        "  Last validated: "@ + rfc3339_text(r.last_validated_at@ as i64) + "\n"@,
        "  Access count: "@ + decimal(r.access_count as nat) + "\n"@,
        match r.source_turn_id {
            Some(turn) => "  Source turn: "@ + uuid_text(turn.0) + "\n"@,
            None => "  Source turn: (operator note or librarian merge)\n"@,
        },
    );
}

/// Of a memory that is still there the prompt gives the content, the kind, the state and the
/// pin, when it came and when it was last validated, how often it was looked up and the turn
/// that it came from.
pub proof fn law_prompt_gives_all_of_a_memory(label: Seq<char>, id: MemoryId, r: MemoryRow)
    ensures
        ({
            let all = pair_entry(label, id, Some(r));
            &&& has_substring(all, "  Id: "@ + uuid_text(id.0) + "\n"@)
            &&& has_substring(all, "  Content: "@ + r.content@ + "\n"@)
            &&& has_substring(
                all,
                "  Kind: "@ + r.kind.label() + "   State: "@ + r.state.label() + "   Pinned: "@ + (
                if r.pinned {
                    "true"@
                } else {
                    "false"@
                }) + "\n"@,
            )
            &&& has_substring(all, "  Created: "@ + rfc3339_text(r.created_at@ as i64) + "\n"@)
            &&& has_substring(
                all,
                "  Last validated: "@ + rfc3339_text(r.last_validated_at@ as i64) + "\n"@,
            )
            &&& has_substring(all, "  Access count: "@ + decimal(r.access_count as nat) + "\n"@)
            &&& has_substring(
                all,
                match r.source_turn_id {
                    Some(turn) => "  Source turn: "@ + uuid_text(turn.0) + "\n"@,
                    None => "  Source turn: (operator note or librarian merge)\n"@,
                },
            )
        }),
{
    let head = label + ":\n"@ + "  Id: "@ + uuid_text(id.0) + "\n"@;
    lemma_entry_tells(label, id, Some(r));
    lemma_id_stands(label, id, told_of(Some(r)));
    lemma_told(head, r);
}

/// A memory that is gone is said to be gone, and nothing is made up of it.
pub proof fn law_prompt_says_that_a_memory_is_gone(label: Seq<char>, id: MemoryId)
    ensures
        pair_entry(label, id, None) == label + ":\n"@ + "  Id: "@ + uuid_text(id.0) + "\n"@
            + "  [no longer exists — likely forgotten before resolution]\n"@,
{
}

/// The key of a request to settle a contradiction is its id under a mark of its own, so that it
/// meets no other key.
pub proof fn law_resolution_key_is_marked(id: ContradictionEventId)
    ensures
        resolution_key(id) == "resolve-"@ + uuid_text(id.0),
{
}

} // verus!
