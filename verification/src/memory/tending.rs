//! What tending does to memories: which of two duplicates stays, which pairs are merged
//! or flagged, and what counts as a negation.

use crate::ids::{AgentId, ContradictionEventId, MemoryEventId, MemoryId, OrgId};
use crate::memory::librarian::{
    dedup_winner, flag_plan, flag_reason_text, is_contradiction, merge_actions, merge_forgets,
    merge_plan, negates, touches, LibrarianSweepReport, SweepAction,
};
use crate::memory::limits::MAX_MEMORIES_PER_AGENT;
use crate::memory::operations::law_stale_validations_wear_off;
use crate::memory::plan::stale;
use crate::memory::store::{ContradictionEventRow, MemoryRow, PairCandidate};
use crate::memory::sweep::{
    all_carried_out, all_gone, carried_out, flagged_under, swept_as, trimmed, trimmed_under,
};
use crate::memory::tables::{
    canonical_pair, find_row, has_id, held_where, open_between, open_contradiction, victims,
    MemoryTables,
};
use crate::memory::types::MemoryState;
use crate::text::{ascii_lower, ascii_lowercase, has_substring, occurs_at};
use crate::time::Timestamp;
use vstd::prelude::*;

verus! {

/// Of two duplicates the more trusted stays, else the older, else the one with the
/// smaller id; the other goes.
pub proof fn law_better_duplicate_stays(pair: PairCandidate)
    ensures
        ({
            let (keep, gone) = dedup_winner(pair);
            &&& (keep == pair.a && gone == pair.b) || (keep == pair.b && gone == pair.a)
            &&& {
                ||| keep.state.rank() > gone.state.rank()
                ||| keep.state.rank() == gone.state.rank() && keep.created_at@ < gone.created_at@
                ||| keep.state.rank() == gone.state.rank() && keep.created_at@ == gone.created_at@
                    && keep.id.0 <= gone.id.0
            }
        }),
{
}

/// Merging a pair forgets the one that goes, unless it is pinned, and validates the one
/// that stays where the two were written in different turns. It does nothing else.
pub proof fn law_merging_a_pair(pair: PairCandidate, action: SweepAction)
    ensures
        ({
            let (keep, gone) = dedup_winner(pair);
            merge_actions(pair).contains(action) <==> {
                ||| action == (SweepAction::Forget { memory: gone.id }) && !gone.pinned
                ||| action == (SweepAction::Validate { memory: keep.id }) && keep.source_turn_id
                    != gone.source_turn_id
            }
        }),
        merge_actions(pair).len() <= 2,
{
    let (keep, gone) = dedup_winner(pair);
    let all = merge_actions(pair);
    let lift = SweepAction::Validate { memory: keep.id };
    let drop = SweepAction::Forget { memory: gone.id };
    if keep.source_turn_id != gone.source_turn_id {
        assert(all[0] == lift);
        if !gone.pinned {
            assert(all[1] == drop);
        }
    } else if !gone.pinned {
        assert(all[0] == drop);
    }
}

proof fn lemma_forgets_prefix(pairs: Seq<PairCandidate>, n: int, id: MemoryId)
    requires
        0 <= n <= pairs.len(),
        merge_forgets(pairs.take(n)).contains(id),
    ensures
        merge_forgets(pairs).contains(id),
    decreases pairs.len(),
{
    if n == pairs.len() {
        assert(pairs.take(n) =~= pairs);
    } else {
        let rest = pairs.drop_last();
        assert(rest.take(n) =~= pairs.take(n));
        lemma_forgets_prefix(rest, n, id);
        let before = merge_forgets(rest);
        let k = choose|k: int| 0 <= k < before.len() && before[k] == id;
        assert(merge_forgets(pairs)[k] == id);
    }
}

/// No pair of duplicates is left as it was: once all are merged, one memory of each pair is
/// forgotten, unless the one that would go is pinned.
pub proof fn law_no_duplicate_pair_is_left(pairs: Seq<PairCandidate>, i: int)
    requires
        0 <= i < pairs.len(),
        !dedup_winner(pairs[i]).1.pinned,
    ensures
        merge_forgets(pairs).contains(pairs[i].a.id) || merge_forgets(pairs).contains(
            pairs[i].b.id,
        ),
{
    let some = pairs.take(i + 1);
    let before = merge_forgets(some.drop_last());
    let after = merge_forgets(some);
    let pair = pairs[i];
    assert(some.last() == pair);
    if touches(pair, before) {
        assert(after == before);
        if before.contains(pair.a.id) {
            lemma_forgets_prefix(pairs, i + 1, pair.a.id);
        } else {
            lemma_forgets_prefix(pairs, i + 1, pair.b.id);
        }
    } else {
        let gone = dedup_winner(pair).1;
        assert(after == before.push(gone.id));
        assert(after[before.len() as int] == gone.id);
        lemma_forgets_prefix(pairs, i + 1, gone.id);
    }
}

/// Whatever merging plans is called for by one of the pairs.
pub proof fn law_merging_does_what_pairs_call_for(pairs: Seq<PairCandidate>, k: int)
    requires
        0 <= k < merge_plan(pairs).len(),
    ensures
        exists|i: int|
            {
                let keep = dedup_winner(#[trigger] pairs[i]).0;
                let gone = dedup_winner(pairs[i]).1;
                &&& 0 <= i < pairs.len()
                &&& {
                    ||| merge_plan(pairs)[k] == (SweepAction::Forget { memory: gone.id })
                        && !gone.pinned
                    ||| merge_plan(pairs)[k] == (SweepAction::Validate { memory: keep.id })
                        && keep.source_turn_id != gone.source_turn_id
                }
            },
    decreases pairs.len(),
{
    let rest = pairs.drop_last();
    let before = merge_plan(rest);
    let action = merge_plan(pairs)[k];
    if k < before.len() {
        assert(before[k] == action);
        law_merging_does_what_pairs_call_for(rest, k);
        let i = choose|i: int|
            {
                let keep = dedup_winner(#[trigger] rest[i]).0;
                let gone = dedup_winner(rest[i]).1;
                &&& 0 <= i < rest.len()
                &&& {
                    ||| before[k] == (SweepAction::Forget { memory: gone.id }) && !gone.pinned
                    ||| before[k] == (SweepAction::Validate { memory: keep.id })
                        && keep.source_turn_id != gone.source_turn_id
                }
            };
        assert(pairs[i] == rest[i]);
    } else {
        let mine = merge_actions(pairs.last());
        assert(mine[k - before.len()] == action);
        law_merging_a_pair(pairs.last(), action);
        assert(pairs[pairs.len() - 1] == pairs.last());
    }
}

/// A pair is flagged exactly where both memories are still there, they are similar without
/// being duplicates, and one of them negates while the other does not. The flag names the
/// two and says how similar they are.
pub proof fn law_opposing_pairs_are_flagged(
    pairs: Seq<PairCandidate>,
    forgotten: Seq<MemoryId>,
    action: SweepAction,
)
    ensures
        flag_plan(pairs, forgotten).contains(action) <==> exists|i: int|
            {
                let pair = #[trigger] pairs[i];
                &&& 0 <= i < pairs.len()
                &&& !forgotten.contains(pair.a.id) && !forgotten.contains(pair.b.id)
                &&& !pair.similarity.duplicate
                &&& negates(pair.a.content@) != negates(pair.b.content@)
                &&& action == (SweepAction::Flag {
                    a: pair.a.id,
                    b: pair.b.id,
                    similarity: pair.similarity.text,
                })
            },
        flag_plan(pairs, forgotten).len() <= pairs.len(),
    decreases pairs.len(),
{
    let all = flag_plan(pairs, forgotten);
    if pairs.len() > 0 {
        let rest = pairs.drop_last();
        let before = flag_plan(rest, forgotten);
        let last = pairs.last();
        let flag = SweepAction::Flag {
            a: last.a.id,
            b: last.b.id,
            similarity: last.similarity.text,
        };
        law_opposing_pairs_are_flagged(rest, forgotten, action);
        assert(pairs[pairs.len() - 1] == last);
        if all.contains(action) {
            let k = choose|k: int| 0 <= k < all.len() && all[k] == action;
            if k < before.len() {
                assert(before[k] == action);
                let i = choose|i: int|
                    {
                        let pair = #[trigger] rest[i];
                        &&& 0 <= i < rest.len()
                        &&& !forgotten.contains(pair.a.id) && !forgotten.contains(pair.b.id)
                        &&& !pair.similarity.duplicate
                        &&& negates(pair.a.content@) != negates(pair.b.content@)
                        &&& action == (SweepAction::Flag {
                            a: pair.a.id,
                            b: pair.b.id,
                            similarity: pair.similarity.text,
                        })
                    };
                assert(pairs[i] == rest[i]);
            } else {
                assert(is_contradiction(last, forgotten));
            }
        }
        if exists|i: int|
            {
                let pair = #[trigger] pairs[i];
                &&& 0 <= i < pairs.len()
                &&& !forgotten.contains(pair.a.id) && !forgotten.contains(pair.b.id)
                &&& !pair.similarity.duplicate
                &&& negates(pair.a.content@) != negates(pair.b.content@)
                &&& action == (SweepAction::Flag {
                    a: pair.a.id,
                    b: pair.b.id,
                    similarity: pair.similarity.text,
                })
            } {
            let i = choose|i: int|
                {
                    let pair = #[trigger] pairs[i];
                    &&& 0 <= i < pairs.len()
                    &&& !forgotten.contains(pair.a.id) && !forgotten.contains(pair.b.id)
                    &&& !pair.similarity.duplicate
                    &&& negates(pair.a.content@) != negates(pair.b.content@)
                    &&& action == (SweepAction::Flag {
                        a: pair.a.id,
                        b: pair.b.id,
                        similarity: pair.similarity.text,
                    })
                };
            if i < rest.len() {
                assert(rest[i] == pairs[i]);
                assert(before.contains(action));
                let k = choose|k: int| 0 <= k < before.len() && before[k] == action;
                assert(all[k] == action);
            } else {
                assert(is_contradiction(last, forgotten));
                assert(all[before.len() as int] == flag);
            }
        }
    }
}

/// A negating word.
pub open spec fn negating_word(w: Seq<char>) -> bool {
    ||| w == "not "@
    ||| w == "n't "@
    ||| w == "never "@
    ||| w == " no "@
    ||| w == " avoid "@
    ||| w == " forbid "@
    ||| w == "do not"@
    ||| w == "don't"@
    ||| w == "shouldn't"@
    ||| w == "won't"@
}

/// A text negates exactly where a negating word stands in it, in capitals or not.
pub proof fn law_negating_words_are_seen(s: Seq<char>)
    ensures
        negates(s) <==> exists|w: Seq<char>| #[trigger]
            negating_word(w) && has_substring(ascii_lowercase(s), w),
        negates(s) == negates(ascii_lowercase(s)),
{
    let low = ascii_lowercase(s);
    assert(ascii_lowercase(low) =~= low);
    if negates(s) {
        assert(negating_word("not "@) && negating_word("n't "@) && negating_word("never "@)
            && negating_word(" no "@) && negating_word(" avoid "@) && negating_word(" forbid "@)
            && negating_word("do not"@) && negating_word("don't"@) && negating_word("shouldn't"@)
            && negating_word("won't"@));
    }
}

/// A negating word is seen wherever it stands.
pub proof fn law_negating_word_negates(head: Seq<char>, w: Seq<char>, tail: Seq<char>)
    requires
        negating_word(w),
    ensures
        negates(head + w + tail),
{
    reveal_strlit("not ");
    reveal_strlit("n't ");
    reveal_strlit("never ");
    reveal_strlit(" no ");
    reveal_strlit(" avoid ");
    reveal_strlit(" forbid ");
    reveal_strlit("do not");
    reveal_strlit("don't");
    reveal_strlit("shouldn't");
    reveal_strlit("won't");
    let s = head + w + tail;
    let low = ascii_lowercase(s);
    let p = head.len() as int;
    assert forall|i: int| 0 <= i < w.len() implies ascii_lower(#[trigger] w[i]) == w[i] by {}
    assert(low.subrange(p, p + w.len()) =~= w);
    assert(occurs_at(low, w, p));
    assert(has_substring(low, w));
    law_negating_words_are_seen(s);
}

proof fn lemma_open_is_kept(
    cs: Seq<ContradictionEventRow>,
    c: ContradictionEventRow,
    agent: AgentId,
    a: MemoryId,
    b: MemoryId,
)
    requires
        open_contradiction(cs, agent, a, b) is Some,
    ensures
        open_contradiction(cs.push(c), agent, a, b) is Some,
{
    assert(cs.push(c).drop_last() =~= cs);
}

/// Once a plan of flags is carried out, each pair that it names is an open contradiction of
/// the agent, whichever of the two is named first.
pub proof fn law_flagged_pairs_are_open(
    t: MemoryTables,
    u: MemoryTables,
    agent: AgentId,
    org: OrgId,
    now: Timestamp,
    flags: Seq<SweepAction>,
    k: int,
)
    requires
        all_carried_out(t, u, agent, org, now, flags),
        forall|i: int| 0 <= i < flags.len() ==> (#[trigger] flags[i]) is Flag,
        0 <= k < flags.len(),
    ensures
        ({
            let a = flags[k]->a;
            let b = flags[k]->b;
            ||| open_contradiction(u.contradictions(), agent, a, b) is Some
            ||| open_contradiction(u.contradictions(), agent, b, a) is Some
        }),
    decreases flags.len(),
{
    let n = flags.len() - 1;
    let less = flags.drop_last();
    let mid = choose|mid: MemoryTables|
        {
            &&& all_carried_out(t, mid, agent, org, now, less)
            &&& #[trigger] carried_out(mid, u, agent, org, now, flags.last())
        };
    assert(flags[n] == flags.last());
    let (a, b) = (flags[n]->a, flags[n]->b);
    let (lo, hi) = canonical_pair(a, b);
    let similarity = flags[n]->similarity@;
    let c = choose|c: ContradictionEventId| #[trigger]
        flagged_under(mid, u, agent, org, now, (a, b), similarity, c);
    assert(flagged_under(mid, u, agent, org, now, (a, b), similarity, c));
    if k == n {
        if open_contradiction(mid.contradictions(), agent, lo, hi) is None {
            let flag = u.contradictions().last();
            assert(open_between(flag, agent, lo, hi));
        }
    } else {
        assert forall|i: int| 0 <= i < less.len() implies (#[trigger] less[i]) is Flag by {
            assert(less[i] == flags[i]);
        }
        assert(less[k] == flags[k]);
        law_flagged_pairs_are_open(t, mid, agent, org, now, less, k);
        let (x, y) = (flags[k]->a, flags[k]->b);
        if open_contradiction(mid.contradictions(), agent, lo, hi) is None {
            let flag = u.contradictions().last();
            if open_contradiction(mid.contradictions(), agent, x, y) is Some {
                lemma_open_is_kept(mid.contradictions(), flag, agent, x, y);
            } else {
                lemma_open_is_kept(mid.contradictions(), flag, agent, y, x);
            }
        }
    }
}

proof fn lemma_flags_keep_rows(
    t: MemoryTables,
    u: MemoryTables,
    agent: AgentId,
    org: OrgId,
    now: Timestamp,
    flags: Seq<SweepAction>,
)
    requires
        all_carried_out(t, u, agent, org, now, flags),
        forall|i: int| 0 <= i < flags.len() ==> (#[trigger] flags[i]) is Flag,
    ensures
        u.rows() == t.rows(),
    decreases flags.len(),
{
    if flags.len() > 0 {
        let less = flags.drop_last();
        let mid = choose|mid: MemoryTables|
            {
                &&& all_carried_out(t, mid, agent, org, now, less)
                &&& #[trigger] carried_out(mid, u, agent, org, now, flags.last())
            };
        assert forall|i: int| 0 <= i < less.len() implies (#[trigger] less[i]) is Flag by {
            assert(less[i] == flags[i]);
        }
        assert(flags[flags.len() - 1] == flags.last());
        lemma_flags_keep_rows(t, mid, agent, org, now, less);
    }
}

proof fn lemma_flags_are_flags(pairs: Seq<PairCandidate>, forgotten: Seq<MemoryId>)
    ensures
        forall|i: int|
            0 <= i < flag_plan(pairs, forgotten).len() ==> (#[trigger] flag_plan(
                pairs,
                forgotten,
            )[i]) is Flag,
    decreases pairs.len(),
{
    if pairs.len() > 0 {
        lemma_flags_are_flags(pairs.drop_last(), forgotten);
    }
}

/// After a sweep nothing of the agent is validated on the strength of a validation from before
/// the cutoff, unless it is pinned.
pub proof fn law_sweep_leaves_no_stale_validation(
    t: MemoryTables,
    u: MemoryTables,
    agent: AgentId,
    org: OrgId,
    now: Timestamp,
    cutoff: Timestamp,
    duplicates: Seq<PairCandidate>,
    contradictions: Seq<PairCandidate>,
    report: LibrarianSweepReport,
    i: int,
)
    requires
        swept_as(t, u, agent, org, now, cutoff, duplicates, contradictions, report),
        0 <= i < u.rows().len(),
        u.rows()[i].agent_id == agent,
        u.rows()[i].state == MemoryState::Validated,
        !u.rows()[i].pinned,
    ensures
        u.rows()[i].last_validated_at@ >= cutoff@,
{
    let flags = flag_plan(contradictions, merge_forgets(duplicates));
    let (merged, settled) = choose|merged: MemoryTables, settled: MemoryTables|
        {
            &&& all_carried_out(t, merged, agent, org, now, merge_plan(duplicates))
            &&& #[trigger] trimmed(merged, settled, agent, cutoff, now, report)
            &&& all_carried_out(settled, u, agent, org, now, flags)
        };
    lemma_flags_are_flags(contradictions, merge_forgets(duplicates));
    lemma_flags_keep_rows(settled, u, agent, org, now, flags);
    let (held_ids, gone_ids, order) = choose|
        held_ids: Seq<MemoryEventId>,
        gone_ids: Seq<MemoryEventId>,
        order: Seq<usize>,
    | #[trigger]
        trimmed_under(
            merged,
            settled,
            agent,
            cutoff,
            now,
            report,
            held_ids,
            gone_ids,
            order,
        );
    let held = held_where(merged.rows(), |r: MemoryRow| stale(r, agent, cutoff));
    let gone = victims(held, agent, MAX_MEMORIES_PER_AGENT, order);
    let q = |r: MemoryRow| !has_id(gone, r.id);
    let row = u.rows()[i];
    assert(held.filter(q)[i] == row);
    assert(held.filter(q).contains(row));
    held.lemma_filter_contains_rev(q, row);
    let k = choose|k: int| 0 <= k < held.len() && held[k] == row;
    law_stale_validations_wear_off(merged.rows(), agent, cutoff, k);
}

/// After a sweep each pair that says opposite things, and of which nothing was merged away, is
/// an open contradiction of the agent.
pub proof fn law_sweep_flags_what_contradicts(
    t: MemoryTables,
    u: MemoryTables,
    agent: AgentId,
    org: OrgId,
    now: Timestamp,
    cutoff: Timestamp,
    duplicates: Seq<PairCandidate>,
    contradictions: Seq<PairCandidate>,
    report: LibrarianSweepReport,
    i: int,
)
    requires
        swept_as(t, u, agent, org, now, cutoff, duplicates, contradictions, report),
        0 <= i < contradictions.len(),
        !contradictions[i].similarity.duplicate,
        negates(contradictions[i].a.content@) != negates(contradictions[i].b.content@),
        !merge_forgets(duplicates).contains(contradictions[i].a.id),
        !merge_forgets(duplicates).contains(contradictions[i].b.id),
    ensures
        ({
            let a = contradictions[i].a.id;
            let b = contradictions[i].b.id;
            ||| open_contradiction(u.contradictions(), agent, a, b) is Some
            ||| open_contradiction(u.contradictions(), agent, b, a) is Some
        }),
{
    let forgotten = merge_forgets(duplicates);
    let flags = flag_plan(contradictions, forgotten);
    let pair = contradictions[i];
    let flag = SweepAction::Flag {
        a: pair.a.id,
        b: pair.b.id,
        similarity: pair.similarity.text,
    };
    let (merged, settled) = choose|merged: MemoryTables, settled: MemoryTables|
        {
            &&& all_carried_out(t, merged, agent, org, now, merge_plan(duplicates))
            &&& #[trigger] trimmed(merged, settled, agent, cutoff, now, report)
            &&& all_carried_out(settled, u, agent, org, now, flags)
        };
    lemma_flags_are_flags(contradictions, forgotten);
    law_opposing_pairs_are_flagged(contradictions, forgotten, flag);
    assert(flags.contains(flag));
    let k = choose|k: int| 0 <= k < flags.len() && flags[k] == flag;
    law_flagged_pairs_are_open(settled, u, agent, org, now, flags, k);
}

/// After a sweep no pair of duplicates is left: one of the two is gone, unless the one that
/// would go is pinned.
pub proof fn law_sweep_leaves_no_duplicates(
    rows: Seq<MemoryRow>,
    duplicates: Seq<PairCandidate>,
    i: int,
)
    requires
        all_gone(rows, merge_forgets(duplicates)),
        0 <= i < duplicates.len(),
        !dedup_winner(duplicates[i]).1.pinned,
    ensures
        find_row(rows, duplicates[i].a.id) is None || find_row(rows, duplicates[i].b.id) is None,
{
    let ids = merge_forgets(duplicates);
    law_no_duplicate_pair_is_left(duplicates, i);
    if ids.contains(duplicates[i].a.id) {
        let k = choose|k: int| 0 <= k < ids.len() && ids[k] == duplicates[i].a.id;
        assert(find_row(rows, ids[k]) is None);
    } else {
        let k = choose|k: int| 0 <= k < ids.len() && ids[k] == duplicates[i].b.id;
        assert(find_row(rows, ids[k]) is None);
    }
}

/// A flag says how similar the two are.
pub proof fn law_flag_says_how_similar(similarity: Seq<char>)
    ensures
        has_substring(flag_reason_text(similarity), "("@ + similarity + ")"@),
{
    reveal_strlit("high embedding similarity (");
    reveal_strlit(") with opposing textual cues");
    reveal_strlit("(");
    reveal_strlit(")");
    let all = flag_reason_text(similarity);
    let part = "("@ + similarity + ")"@;
    let p = "high embedding similarity ("@.len() - 1;
    assert(all.subrange(p, p + part.len()) =~= part);
    assert(occurs_at(all, part, p));
}

} // verus!
