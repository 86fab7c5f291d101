//! What goes into the memory section of a turn, and what is searched for.

use crate::chat::{first_user_text, opening_text, ChatMessage};
use crate::ids::{ContradictionEventId, MemoryId};
use crate::memory::composer::{
    bindings, compose_memory_section, layer_order, lemma_handles_suffice, section_text, shown,
    MemorySection,
};
use crate::memory::limits::MAX_MEMORIES_PER_AGENT;
use crate::memory::section::{law_shown_memories_belong, shows_all};
use crate::memory::store::{ContradictionEventRow, MemoryRow, SearchFilter};
use crate::memory::types::MemoryKind;
use crate::text::texts;
use crate::types::RequestKindPayload;
use vstd::prelude::*;

verus! {

/// The contradiction that a turn settles, if it is there to settle one.
pub fn contradiction_of(payload: &RequestKindPayload) -> (r: Option<ContradictionEventId>)
    ensures
        r == (match *payload {
            RequestKindPayload::Resolution { contradiction_event_id } => Some(
                contradiction_event_id,
            ),
            _ => None,
        }),
{
    match payload {
        RequestKindPayload::Resolution { contradiction_event_id } => Some(*contradiction_event_id),
        _ => None,
    }
}

/// The memories whose handles are reserved: the pair of the contradiction, in
/// column order, or none where it is gone.
pub open spec fn reserved_pair(row: Option<ContradictionEventRow>) -> Seq<MemoryId> {
    match row {
        Some(r) => seq![r.memory_a, r.memory_b],
        None => Seq::empty(),
    }
}

/// The memories whose handles are reserved for the turn that settles the
/// contradiction `row`.
pub fn resolve_reserved_pair(row: Option<&ContradictionEventRow>) -> (v: Vec<MemoryId>)
    ensures
        v@ == reserved_pair(
            match row {
                Some(r) => Some(*r),
                None => None,
            },
        ),
{
    match row {
        Some(r) => {
            let v = vec![r.memory_a, r.memory_b];
            proof {
                assert(v@ =~= seq![r.memory_a, r.memory_b]);
            }
            v
        },
        None => Vec::new(),
    }
}

/// What the contextual layer is searched by: the opening text of the session. The
/// layer stays empty where there is none.
pub fn contextual_query(messages: Option<&Vec<ChatMessage>>) -> (r: Option<String>)
    ensures
        match messages {
            None => r is None,
            Some(m) => match r {
                Some(s) => opening_text(m@) == Some(s@),
                None => opening_text(m@) is None,
            },
        },
{
    match messages {
        None => None,
        Some(m) => first_user_text(m),
    }
}

/// What a contextual search looks at: everything but what an agent knows of
/// itself, which the stable layer has.
pub fn contextual_filter() -> (f: SearchFilter)
    ensures
        f.kinds is Some,
        f.kinds->0@ == seq![MemoryKind::Other, MemoryKind::Procedure, MemoryKind::Open],
        f.min_state is None,
{
    let kinds = vec![MemoryKind::Other, MemoryKind::Procedure, MemoryKind::Open];
    proof {
        assert(kinds@ =~= seq![MemoryKind::Other, MemoryKind::Procedure, MemoryKind::Open]);
    }
    SearchFilter { kinds: Some(kinds), min_state: None }
}

/// A similarity search as the tables take it.
#[derive(Debug)]
pub struct SearchArgs {
    /// Rows asked for.
    pub limit: usize,
    /// Labels of the kinds searched; all kinds where there are none.
    pub kinds: Option<Vec<String>>,
    /// The lowest rank searched.
    pub min_rank: Option<u8>,
}

/// The labels of `kinds`.
pub open spec fn kind_labels(kinds: Seq<MemoryKind>) -> Seq<Seq<char>> {
    kinds.map_values(|k: MemoryKind| k.label())
}

/// Plans a search for the `k` nearest memories. Nothing is searched for without
/// an embedding, or where no row is asked for; a list of no kinds stands for all.
pub fn plan_search(embedding_len: usize, k: usize, filter: &SearchFilter) -> (r: Option<SearchArgs>)
    ensures
        r is None <==> embedding_len == 0 || k == 0,
        r matches Some(args) ==> {
            &&& args.limit == if k <= MAX_MEMORIES_PER_AGENT {
                k
            } else {
                MAX_MEMORIES_PER_AGENT
            }
            &&& match filter.kinds {
                Some(kinds) => if kinds@.len() == 0 {
                    args.kinds is None
                } else {
                    args.kinds is Some && texts(args.kinds->0@) == kind_labels(
                        kinds@,
                    )
                },
                None => args.kinds is None,
            }
            &&& match filter.min_state {
                Some(s) => args.min_rank is Some && args.min_rank->0 == s.rank(),
                None => args.min_rank is None,
            }
        },
{
    if embedding_len == 0 || k == 0 {
        return None;
    }
    let limit: usize = if k <= MAX_MEMORIES_PER_AGENT {
        k
    } else {
        MAX_MEMORIES_PER_AGENT
    };
    let mut labels: Vec<String> = Vec::new();
    if let Some(kinds) = &filter.kinds {
        let mut i: usize = 0;
        while i < kinds.len()
            invariant
                i <= kinds@.len(),
                labels@.len() == i,
                forall|j: int| 0 <= j < i ==> (#[trigger] labels@[j])@ == kinds@[j].label(),
            decreases kinds.len() - i,
        {
            labels.push(kinds[i].as_str().to_owned());
            i += 1;
        }
        proof {
            assert(texts(labels@) =~= kind_labels(kinds@));
        }
    }
    let min_rank = match filter.min_state {
        Some(s) => Some(s.priority()),
        None => None,
    };
    let kinds = if labels.len() == 0 {
        None
    } else {
        Some(labels)
    };
    Some(SearchArgs { limit, kinds, min_rank })
}

/// The memory section of a turn: all memories of the agent, what the contextual
/// search found, and the contradiction that the turn settles, if any. `M-1` and
/// `M-2` are then kept for its pair.
pub fn load_section(
    rows: &[MemoryRow],
    found: &[MemoryRow],
    contradiction: Option<&ContradictionEventRow>,
) -> (s: MemorySection)
    ensures
        ({
            let reserved = reserved_pair(
                match contradiction {
                    Some(r) => Some(*r),
                    None => None,
                },
            );
            exists|order: Seq<usize>|
                #[trigger] layer_order(rows@, order) && s.rendered() == section_text(
                    shown(rows@, found@, reserved, order),
                    reserved.len() + 1,
                ) && shows_all(
                    s.rendered(),
                    shown(rows@, found@, reserved, order),
                    reserved.len() + 1,
                ) && s.bound() == bindings(shown(rows@, found@, reserved, order), reserved)
        }),
        contradiction matches Some(c) ==> s.bound().len() >= 2 && s.bound()[0] == c.memory_a
            && s.bound()[1] == c.memory_b,
{
    let reserved = resolve_reserved_pair(contradiction);
    proof {
        lemma_handles_suffice(rows@, found@, reserved@);
    }
    compose_memory_section(rows, found, reserved.as_slice())
}

/// In the turn that settles a contradiction `M-1` and `M-2` name its two memories, in the
/// order in which the contradiction has them, and neither is shown a second time under
/// another handle. Without a contradiction no handle is kept.
pub proof fn law_settling_turn_names_its_pair(
    rows: Seq<MemoryRow>,
    found: Seq<MemoryRow>,
    c: ContradictionEventRow,
    order: Seq<usize>,
    n: int,
)
    requires
        2 <= n < bindings(
            shown(rows, found, reserved_pair(Some(c)), order),
            reserved_pair(Some(c)),
        ).len(),
        layer_order(rows, order),
    ensures
        bindings(shown(rows, found, reserved_pair(Some(c)), order), reserved_pair(Some(c)))[0]
            == c.memory_a,
        bindings(shown(rows, found, reserved_pair(Some(c)), order), reserved_pair(Some(c)))[1]
            == c.memory_b,
        ({
            let id = bindings(
                shown(rows, found, reserved_pair(Some(c)), order),
                reserved_pair(Some(c)),
            )[n];
            id != c.memory_a && id != c.memory_b
        }),
        reserved_pair(None).len() == 0,
{
    let reserved = reserved_pair(Some(c));
    let all = shown(rows, found, reserved, order);
    law_shown_memories_belong(rows, found, reserved, order, n - 2);
    assert(reserved[0] == c.memory_a && reserved[1] == c.memory_b);
    assert(bindings(all, reserved)[n] == all[n - 2].id);
}

} // verus!
