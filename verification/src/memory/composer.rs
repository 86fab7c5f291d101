//! Composes the rendered memory section of the system prompt.
//!
//! Two layers go into it: the stable one, pinned memories and those about the
//! agent itself, the most trusted and newest first; and the contextual one, what
//! a search for the opening of the session found. Each is trimmed to a byte
//! budget. With the text goes the binding of its `M-<n>` handles to memories.

use crate::ids::MemoryId;
use crate::memory::limits::{
    CONTEXTUAL_LAYER_MAX_BYTES, RENDER_LINE_OVERHEAD_BYTES, STABLE_LAYER_MAX_BYTES,
};
use crate::memory::section::{law_every_memory_has_its_entry, shows_all};
use crate::memory::store::MemoryRow;
use crate::memory::tables::{arranged, has_id, lemma_filter_distinct};
use crate::memory::types::{handle_range, handle_text, MemoryHandle, MemoryKind, MEMORY_HANDLE_MAX};
use crate::seqs::lemma_filter_step;
use crate::sort::{goes_before, sort_positions, stable_order, SortKey};
use crate::text::utf8_len;
use vstd::prelude::*;

verus! {

/// Opens the rendered section.
pub const MEMORY_TAG_OPEN: &'static str = "<memory>\n";

/// Closes the rendered section.
pub const MEMORY_TAG_CLOSE: &'static str = "\n</memory>";

/// What the rendered section says of itself.
pub const MEMORY_INTRO: &'static str = "Facts you previously remembered. Each entry has an `M-NN` handle — pass it to `memory_update`, `memory_forget`, or `memory_validate` to revise the entry. Use `recall` to search for memories not listed below.\n";

/// The rendered section and the memories that its handles name.
#[derive(Debug)]
pub struct MemorySection {
    text: String,
    handles: Vec<MemoryId>,
}

impl MemorySection {
    /// The rendered text, empty where no memory is rendered.
    pub closed spec fn rendered(self) -> Seq<char> {
        self.text@
    }

    /// The memories that the handles `M-1`, `M-2` and so on name.
    pub closed spec fn bound(self) -> Seq<MemoryId> {
        self.handles@
    }

    /// A section with nothing in it.
    pub fn empty() -> (s: MemorySection)
        ensures
            s.rendered() == Seq::<char>::empty(),
            s.bound() == Seq::<MemoryId>::empty(),
    {
        MemorySection { text: String::new(), handles: Vec::new() }
    }

    /// The rendered text, its `<memory>` envelope included.
    pub fn text(&self) -> (s: &str)
        ensures
            s@ == self.rendered(),
    {
        self.text.as_str()
    }

    /// The memory that `handle` names in this section: none where the section
    /// never minted it.
    pub fn resolve_handle(&self, handle: MemoryHandle) -> (r: Option<MemoryId>)
        ensures
            r == (if handle@ <= self.bound().len() {
                Some(self.bound()[handle@ - 1])
            } else {
                None
            }),
            handle_range(handle@ as int),
    {
        let n: usize = handle.get() as usize;
        if n <= self.handles.len() {
            Some(self.handles[n - 1])
        } else {
            None
        }
    }

    /// Whether no memory is rendered. Handles may be bound even so.
    pub fn is_empty(&self) -> (r: bool)
        ensures
            r == (self.rendered().len() == 0),
    {
        self.text.as_str().is_empty()
    }

    /// A copy of the section.
    pub fn duplicate(&self) -> (s: MemorySection)
        ensures
            s.rendered() == self.rendered(),
            s.bound() == self.bound(),
    {
        let mut handles: Vec<MemoryId> = Vec::new();
        let mut i: usize = 0;
        while i < self.handles.len()
            invariant
                i <= self.handles@.len(),
                handles@ == self.handles@.take(i as int),
            decreases self.handles.len() - i,
        {
            handles.push(self.handles[i]);
            i += 1;
            proof {
                assert(handles@ =~= self.handles@.take(i as int));
            }
        }
        proof {
            assert(self.handles@.take(self.handles@.len() as int) =~= self.handles@);
        }
        MemorySection { text: self.text.clone(), handles }
    }
}

/// A memory of the stable layer.
pub open spec fn is_stable(r: MemoryRow) -> bool {
    r.pinned || r.kind == MemoryKind::Identity
}

/// The order of the stable layer: the most trusted first, then the newest.
pub open spec fn stable_key(r: MemoryRow) -> SortKey {
    SortKey { major: (-r.state.rank()) as i128, minor: (-r.created_at@) as i128, tie: 0 }
}

/// `order` lists the stable memories of `rows` as they are rendered.
pub open spec fn layer_order(rows: Seq<MemoryRow>, order: Seq<usize>) -> bool {
    stable_order(
        rows.filter(|r: MemoryRow| is_stable(r)).map_values(|r: MemoryRow| stable_key(r)),
        order,
    )
}

/// Bytes charged for rendering `rows`.
pub open spec fn cost(rows: Seq<MemoryRow>) -> nat
    decreases rows.len(),
{
    if rows.len() == 0 {
        0
    } else {
        cost(rows.drop_last()) + utf8_len(rows.last().content@) + RENDER_LINE_OVERHEAD_BYTES as nat
    }
}

/// The longest prefix of `rows` that `budget` pays for.
pub open spec fn affordable(rows: Seq<MemoryRow>, budget: nat) -> Seq<MemoryRow>
    decreases rows.len(),
{
    if cost(rows) <= budget || rows.len() == 0 {
        rows
    } else {
        affordable(rows.drop_last(), budget)
    }
}

/// The stable layer of `rows`.
pub open spec fn stable_layer(rows: Seq<MemoryRow>, order: Seq<usize>) -> Seq<MemoryRow> {
    affordable(
        arranged(rows.filter(|r: MemoryRow| is_stable(r)), order),
        STABLE_LAYER_MAX_BYTES as nat,
    )
}

/// The contextual layer: what the search found, without what is stable.
pub open spec fn contextual_layer(found: Seq<MemoryRow>, stable: Seq<MemoryRow>) -> Seq<MemoryRow> {
    affordable(
        found.filter(|r: MemoryRow| !has_id(stable, r.id)),
        CONTEXTUAL_LAYER_MAX_BYTES as nat,
    )
}

/// The memories that are rendered: both layers, without those whose handle is
/// reserved.
pub open spec fn shown(
    rows: Seq<MemoryRow>,
    found: Seq<MemoryRow>,
    reserved: Seq<MemoryId>,
    order: Seq<usize>,
) -> Seq<MemoryRow> {
    let stable = stable_layer(rows, order);
    (stable + contextual_layer(found, stable)).filter(|r: MemoryRow| !reserved.contains(r.id))
}

/// The rendered line of a memory under the handle `n`.
pub open spec fn line(r: MemoryRow, n: nat) -> Seq<char> {
    "- ["@ + handle_text(n) + ", "@ + r.state.label() + "] "@ + r.content@ + "\n"@
}

/// The rendered lines of the memories of one kind; the handle of the first of
/// `rows` is `first`.
pub open spec fn kind_lines(rows: Seq<MemoryRow>, first: nat, kind: MemoryKind) -> Seq<char>
    decreases rows.len(),
{
    if rows.len() == 0 {
        Seq::empty()
    } else {
        let before = kind_lines(rows.drop_last(), first, kind);
        if rows.last().kind == kind {
            before + line(rows.last(), (first + rows.len() - 1) as nat)
        } else {
            before
        }
    }
}

/// The part of the section about one kind: nothing where no memory has it.
pub open spec fn kind_part(rows: Seq<MemoryRow>, first: nat, kind: MemoryKind) -> Seq<char> {
    if exists|i: int| 0 <= i < rows.len() && (#[trigger] rows[i]).kind == kind {
        "\n### "@ + kind.heading() + "\n"@ + kind_lines(rows, first, kind)
    } else {
        Seq::empty()
    }
}

/// The rendered section: kinds in a fixed order, memories of a kind in the order
/// of `rows`.
pub open spec fn section_text(rows: Seq<MemoryRow>, first: nat) -> Seq<char> {
    if rows.len() == 0 {
        Seq::empty()
    } else {
        MEMORY_TAG_OPEN@ + "## Memory\n"@ + MEMORY_INTRO@ + kind_part(
            rows,
            first,
            MemoryKind::Identity,
        ) + kind_part(rows, first, MemoryKind::Other) + kind_part(
            rows,
            first,
            MemoryKind::Procedure,
        ) + kind_part(rows, first, MemoryKind::Open) + MEMORY_TAG_CLOSE@
    }
}

/// The memories that the handles name: the reserved ones first, then those that
/// are rendered.
pub open spec fn bindings(rows: Seq<MemoryRow>, reserved: Seq<MemoryId>) -> Seq<MemoryId> {
    reserved + rows.map_values(|r: MemoryRow| r.id)
}

/// There are handles enough for what is reserved and rendered.
pub open spec fn handles_suffice(
    rows: Seq<MemoryRow>,
    found: Seq<MemoryRow>,
    reserved: Seq<MemoryId>,
) -> bool {
    forall|order: Seq<usize>| #[trigger]
        layer_order(rows, order) ==> reserved.len() + shown(rows, found, reserved, order).len()
            <= MEMORY_HANDLE_MAX
}

proof fn lemma_cost_prefix(rows: Seq<MemoryRow>, k: int)
    requires
        0 <= k <= rows.len(),
    ensures
        cost(rows.take(k)) <= cost(rows),
    decreases rows.len(),
{
    if k == rows.len() {
        assert(rows.take(k) =~= rows);
    } else {
        lemma_cost_prefix(rows.drop_last(), k);
        assert(rows.drop_last().take(k) =~= rows.take(k));
    }
}

proof fn lemma_affordable_is(rows: Seq<MemoryRow>, k: int, budget: nat)
    requires
        0 <= k <= rows.len(),
        cost(rows.take(k)) <= budget,
        k < rows.len() ==> cost(rows.take(k + 1)) > budget,
    ensures
        affordable(rows, budget) == rows.take(k),
    decreases rows.len(),
{
    if k == rows.len() {
        assert(rows.take(k) =~= rows);
    } else {
        lemma_cost_prefix(rows, k + 1);
        assert(rows.drop_last().take(k) =~= rows.take(k));
        if k < rows.len() - 1 {
            assert(rows.drop_last().take(k + 1) =~= rows.take(k + 1));
        }
        lemma_affordable_is(rows.drop_last(), k, budget);
    }
}

/// What is kept is a prefix that the budget pays for.
pub proof fn lemma_affordable(rows: Seq<MemoryRow>, budget: nat)
    ensures
        affordable(rows, budget).is_prefix_of(rows),
        cost(affordable(rows, budget)) <= budget,
    decreases rows.len(),
{
    if rows.len() > 0 && cost(rows) > budget {
        lemma_affordable(rows.drop_last(), budget);
    }
}

/// Keeps the longest prefix of `rows` that `budget` pays for: the first row that
/// does not fit ends it.
pub fn trim_to_budget(rows: Vec<MemoryRow>, budget: usize) -> (kept: Vec<MemoryRow>)
    ensures
        kept@ == affordable(rows@, budget as nat),
{
    let mut kept: Vec<MemoryRow> = Vec::new();
    let mut total: usize = 0;
    let mut k: usize = 0;
    proof {
        assert(rows@.take(0) =~= Seq::<MemoryRow>::empty());
    }
    while k < rows.len()
        invariant
            k <= rows@.len(),
            kept@ == rows@.take(k as int),
            total == cost(rows@.take(k as int)),
            total <= budget,
        decreases rows.len() - k,
    {
        let line = rows[k].content.len() + RENDER_LINE_OVERHEAD_BYTES;
        proof {
            assert(rows@.take(k + 1).drop_last() =~= rows@.take(k as int));
            assert(rows@.take(k + 1).last() == rows@[k as int]);
        }
        if line > budget - total {
            proof {
                lemma_affordable_is(rows@, k as int, budget as nat);
            }
            return kept;
        }
        total += line;
        kept.push(rows[k].clone());
        k += 1;
        proof {
            assert(kept@ =~= rows@.take(k as int));
        }
    }
    proof {
        lemma_affordable_is(rows@, k as int, budget as nat);
    }
    kept
}

/// The stable layer: pinned memories and those about the agent itself, the most
/// trusted first, then the newest, within their budget.
pub fn select_stable_layer(rows: &[MemoryRow]) -> (layer: Vec<MemoryRow>)
    ensures
        exists|order: Seq<usize>|
            #[trigger] layer_order(rows@, order) && layer@ == stable_layer(rows@, order),
{
    let ghost p = |r: MemoryRow| is_stable(r);
    let mut picked: Vec<MemoryRow> = Vec::new();
    let mut keys: Vec<SortKey> = Vec::new();
    let mut i: usize = 0;
    proof {
        reveal(Seq::filter);
        assert(rows@.take(0) =~= Seq::<MemoryRow>::empty());
        assert(keys@ =~= picked@.map_values(|r: MemoryRow| stable_key(r)));
    }
    while i < rows.len()
        invariant
            i <= rows@.len(),
            p == (|r: MemoryRow| is_stable(r)),
            picked@ == rows@.take(i as int).filter(p),
            keys@ == picked@.map_values(|r: MemoryRow| stable_key(r)),
        decreases rows.len() - i,
    {
        proof {
            lemma_filter_step(rows@, i as int, p);
        }
        let r = &rows[i];
        if r.pinned || r.kind == MemoryKind::Identity {
            let rank: i128 = r.state.priority() as i128;
            let at: i128 = r.created_at.micros() as i128;
            picked.push(r.clone());
            keys.push(SortKey { major: -rank, minor: -at, tie: 0 });
            proof {
                assert(keys@ =~= picked@.map_values(|r: MemoryRow| stable_key(r)));
            }
        }
        i += 1;
    }
    proof {
        assert(rows@.take(rows@.len() as int) =~= rows@);
    }
    let order = sort_positions(&keys);
    let mut sorted: Vec<MemoryRow> = Vec::new();
    let mut k: usize = 0;
    while k < order.len()
        invariant
            k <= order@.len(),
            forall|j: int| 0 <= j < order@.len() ==> #[trigger] order@[j] < picked@.len(),
            sorted@.len() == k,
            forall|j: int| 0 <= j < k ==> #[trigger] sorted@[j] == picked@[order@[j] as int],
        decreases order.len() - k,
    {
        sorted.push(picked[order[k]].clone());
        k += 1;
    }
    proof {
        assert(sorted@ =~= arranged(picked@, order@));
        assert(layer_order(rows@, order@));
    }
    trim_to_budget(sorted, STABLE_LAYER_MAX_BYTES)
}

fn contains_id(rows: &Vec<MemoryRow>, id: MemoryId) -> (r: bool)
    ensures
        r == has_id(rows@, id),
{
    let mut i: usize = 0;
    while i < rows.len()
        invariant
            i <= rows@.len(),
            forall|j: int| 0 <= j < i ==> (#[trigger] rows@[j]).id != id,
        decreases rows.len() - i,
    {
        if rows[i].id == id {
            return true;
        }
        i += 1;
    }
    false
}

fn is_reserved(reserved: &[MemoryId], id: MemoryId) -> (r: bool)
    ensures
        r == reserved@.contains(id),
{
    let mut i: usize = 0;
    while i < reserved.len()
        invariant
            i <= reserved@.len(),
            forall|j: int| 0 <= j < i ==> #[trigger] reserved@[j] != id,
        decreases reserved.len() - i,
    {
        if reserved[i] == id {
            return true;
        }
        i += 1;
    }
    false
}

/// Binds `M-1`, `M-2` and so on to the reserved memories, in their order. The
/// number of the next handle comes with them.
pub fn bind_reserved_handles(reserved: &[MemoryId]) -> (r: (Vec<MemoryId>, u32))
    requires
        reserved@.len() <= MEMORY_HANDLE_MAX,
    ensures
        r.0@ == reserved@,
        r.1 == reserved@.len() + 1,
{
    let mut handles: Vec<MemoryId> = Vec::new();
    let mut next: u32 = 1;
    let mut i: usize = 0;
    while i < reserved.len()
        invariant
            i <= reserved@.len() <= MEMORY_HANDLE_MAX,
            next == i + 1,
            handles@ == reserved@.take(i as int),
        decreases reserved.len() - i,
    {
        handles.push(reserved[i]);
        next += 1;
        i += 1;
        proof {
            assert(handles@ =~= reserved@.take(i as int));
        }
    }
    proof {
        assert(reserved@.take(reserved@.len() as int) =~= reserved@);
    }
    (handles, next)
}

fn push_kind(out: &mut String, rows: &Vec<MemoryRow>, first: u32, kind: MemoryKind)
    requires
        1 <= first,
        first + rows@.len() <= MEMORY_HANDLE_MAX + 1,
    ensures
        final(out)@ == old(out)@ + kind_part(rows@, first as nat, kind),
{
    let ghost start = out@;
    let mut any = false;
    let mut i: usize = 0;
    while i < rows.len()
        invariant
            i <= rows@.len(),
            any == exists|j: int| 0 <= j < i && (#[trigger] rows@[j]).kind == kind,
        decreases rows.len() - i,
    {
        if rows[i].kind == kind {
            any = true;
        }
        i += 1;
    }
    if !any {
        proof {
            assert(out@ =~= start + kind_part(rows@, first as nat, kind));
        }
        return;
    }
    out.append("\n### ");
    out.append(kind.display_label());
    out.append("\n");
    let ghost head = start + ("\n### "@ + kind.heading() + "\n"@);
    proof {
        assert(out@ =~= head);
    }
    let mut i: usize = 0;
    while i < rows.len()
        invariant
            i <= rows@.len(),
            1 <= first,
            first + rows@.len() <= MEMORY_HANDLE_MAX + 1,
            out@ == head + kind_lines(rows@.take(i as int), first as nat, kind),
        decreases rows.len() - i,
    {
        proof {
            assert(rows@.take(i + 1).drop_last() =~= rows@.take(i as int));
            assert(rows@.take(i + 1).last() == rows@[i as int]);
        }
        let r = &rows[i];
        if r.kind == kind {
            let n: u32 = first + i as u32;
            let ghost before = out@;
            out.append("- [");
            let handle = MemoryHandle::try_from(n).unwrap();
            out.append(handle.text().as_str());
            out.append(", ");
            out.append(r.state.as_str());
            out.append("] ");
            out.append(r.content.as_str());
            out.append("\n");
            proof {
                assert(out@ =~= before + line(*r, n as nat));
                assert(out@ =~= head + kind_lines(rows@.take(i + 1), first as nat, kind));
            }
        }
        i += 1;
    }
    proof {
        assert(rows@.take(rows@.len() as int) =~= rows@);
        assert(out@ =~= start + kind_part(rows@, first as nat, kind));
    }
}

/// Renders the memories `rows`, the first of them under the handle `first`.
pub fn render_text(rows: &Vec<MemoryRow>, first: u32) -> (s: String)
    requires
        1 <= first,
        first + rows@.len() <= MEMORY_HANDLE_MAX + 1,
        rows@.len() > 0,
    ensures
        s@ == section_text(rows@, first as nat),
        shows_all(s@, rows@, first as nat),
{
    let mut out = String::new();
    out.append(MEMORY_TAG_OPEN);
    out.append("## Memory\n");
    out.append(MEMORY_INTRO);
    push_kind(&mut out, rows, first, MemoryKind::Identity);
    push_kind(&mut out, rows, first, MemoryKind::Other);
    push_kind(&mut out, rows, first, MemoryKind::Procedure);
    push_kind(&mut out, rows, first, MemoryKind::Open);
    out.append(MEMORY_TAG_CLOSE);
    proof {
        assert(out@ =~= section_text(rows@, first as nat));
        law_every_memory_has_its_entry(rows@, first as nat);
    }
    out
}

/// Renders both layers. A memory whose handle is reserved is not rendered: its
/// caller shows it elsewhere.
pub fn render(stable: &Vec<MemoryRow>, contextual: &Vec<MemoryRow>, reserved: &[MemoryId]) -> (s:
    MemorySection)
    requires
        reserved@.len() + (stable@ + contextual@).filter(
            |r: MemoryRow| !reserved@.contains(r.id),
        ).len() <= MEMORY_HANDLE_MAX,
    ensures
        ({
            let rows = (stable@ + contextual@).filter(
                |r: MemoryRow| !reserved@.contains(r.id),
            );
            &&& s.rendered() == section_text(rows, reserved@.len() + 1)
            &&& shows_all(s.rendered(), rows, reserved@.len() + 1)
            &&& s.bound() == bindings(rows, reserved@)
        }),
{
    let (mut handles, next) = bind_reserved_handles(reserved);
    let ghost all = stable@ + contextual@;
    let ghost p = |r: MemoryRow| !reserved@.contains(r.id);
    let mut rows: Vec<MemoryRow> = Vec::new();
    let total: usize = stable.len();
    let mut i: usize = 0;
    proof {
        reveal(Seq::filter);
        assert(all.take(0) =~= Seq::<MemoryRow>::empty());
        assert(handles@ =~= bindings(Seq::empty(), reserved@));
    }
    while i < total
        invariant
            i <= total,
            total == stable@.len(),
            all == stable@ + contextual@,
            p == (|r: MemoryRow| !reserved@.contains(r.id)),
            rows@ == all.take(i as int).filter(p),
            handles@ == bindings(rows@, reserved@),
        decreases total - i,
    {
        proof {
            lemma_filter_step(all, i as int, p);
        }
        let r = &stable[i];
        if !is_reserved(reserved, r.id) {
            handles.push(r.id);
            rows.push(r.clone());
            proof {
                assert(handles@ =~= bindings(rows@, reserved@));
            }
        }
        i += 1;
    }
    let mut j: usize = 0;
    while j < contextual.len()
        invariant
            j <= contextual@.len(),
            total == stable@.len(),
            all == stable@ + contextual@,
            p == (|r: MemoryRow| !reserved@.contains(r.id)),
            rows@ == all.take(total + j).filter(p),
            handles@ == bindings(rows@, reserved@),
        decreases contextual.len() - j,
    {
        proof {
            lemma_filter_step(all, total + j, p);
            assert(all[total + j] == contextual@[j as int]);
        }
        let r = &contextual[j];
        if !is_reserved(reserved, r.id) {
            handles.push(r.id);
            rows.push(r.clone());
            proof {
                assert(handles@ =~= bindings(rows@, reserved@));
            }
        }
        j += 1;
    }
    proof {
        assert(all.take(all.len() as int) =~= all);
    }
    if rows.len() == 0 {
        proof {
            law_every_memory_has_its_entry(rows@, reserved@.len() + 1);
        }
        return MemorySection { text: String::new(), handles };
    }
    let text = render_text(&rows, next);
    MemorySection { text, handles }
}

/// Composes the section from all memories of an agent, what a search found, and
/// the memories whose handles are reserved.
pub fn compose_memory_section(
    rows: &[MemoryRow],
    contextual: &[MemoryRow],
    reserved: &[MemoryId],
) -> (s: MemorySection)
    requires
        handles_suffice(rows@, contextual@, reserved@),
    ensures
        exists|order: Seq<usize>|
            #[trigger] layer_order(rows@, order) && s.rendered() == section_text(
                shown(rows@, contextual@, reserved@, order),
                reserved@.len() + 1,
            ) && shows_all(
                s.rendered(),
                shown(rows@, contextual@, reserved@, order),
                reserved@.len() + 1,
            ) && s.bound() == bindings(
                shown(rows@, contextual@, reserved@, order),
                reserved@,
            ),
{
    let stable = select_stable_layer(rows);
    let ghost order = choose|order: Seq<usize>|
        #[trigger] layer_order(rows@, order) && stable@ == stable_layer(rows@, order);
    let ghost p = |r: MemoryRow| !has_id(stable@, r.id);
    let mut fresh: Vec<MemoryRow> = Vec::new();
    let mut i: usize = 0;
    proof {
        reveal(Seq::filter);
        assert(contextual@.take(0) =~= Seq::<MemoryRow>::empty());
    }
    while i < contextual.len()
        invariant
            i <= contextual@.len(),
            p == (|r: MemoryRow| !has_id(stable@, r.id)),
            fresh@ == contextual@.take(i as int).filter(p),
        decreases contextual.len() - i,
    {
        proof {
            lemma_filter_step(contextual@, i as int, p);
        }
        if !contains_id(&stable, contextual[i].id) {
            fresh.push(contextual[i].clone());
        }
        i += 1;
    }
    proof {
        assert(contextual@.take(contextual@.len() as int) =~= contextual@);
    }
    let trimmed = trim_to_budget(fresh, CONTEXTUAL_LAYER_MAX_BYTES);
    proof {
        assert(trimmed@ == contextual_layer(contextual@, stable@));
        assert((stable@ + trimmed@).filter(|r: MemoryRow| !reserved@.contains(r.id)) == shown(
            rows@,
            contextual@,
            reserved@,
            order,
        ));
    }
    render(&stable, &trimmed, reserved)
}

proof fn lemma_cost_at_least(rows: Seq<MemoryRow>)
    ensures
        RENDER_LINE_OVERHEAD_BYTES * rows.len() <= cost(rows),
    decreases rows.len(),
{
    if rows.len() > 0 {
        lemma_cost_at_least(rows.drop_last());
        assert(RENDER_LINE_OVERHEAD_BYTES * rows.len() == RENDER_LINE_OVERHEAD_BYTES * (rows.len()
            - 1) + RENDER_LINE_OVERHEAD_BYTES) by (nonlinear_arith);
    }
}

/// Both layers stay within their budgets.
pub proof fn law_layers_stay_within_budget(
    rows: Seq<MemoryRow>,
    found: Seq<MemoryRow>,
    order: Seq<usize>,
)
    ensures
        cost(stable_layer(rows, order)) <= STABLE_LAYER_MAX_BYTES,
        cost(contextual_layer(found, stable_layer(rows, order))) <= CONTEXTUAL_LAYER_MAX_BYTES,
{
    lemma_affordable(
        arranged(rows.filter(|r: MemoryRow| is_stable(r)), order),
        STABLE_LAYER_MAX_BYTES as nat,
    );
    let stable = stable_layer(rows, order);
    lemma_affordable(
        found.filter(|r: MemoryRow| !has_id(stable, r.id)),
        CONTEXTUAL_LAYER_MAX_BYTES as nat,
    );
}

/// The budgets leave handles for nine thousand reserved memories.
pub proof fn lemma_handles_suffice(
    rows: Seq<MemoryRow>,
    found: Seq<MemoryRow>,
    reserved: Seq<MemoryId>,
)
    requires
        reserved.len() <= 9_000,
    ensures
        handles_suffice(rows, found, reserved),
{
    assert forall|order: Seq<usize>| #[trigger] layer_order(rows, order) implies reserved.len()
        + shown(rows, found, reserved, order).len() <= MEMORY_HANDLE_MAX by {
        let stable = stable_layer(rows, order);
        let context = contextual_layer(found, stable);
        law_layers_stay_within_budget(rows, found, order);
        lemma_cost_at_least(stable);
        lemma_cost_at_least(context);
        (stable + context).lemma_filter_len(|r: MemoryRow| !reserved.contains(r.id));
    }
}

/// A reserved memory has the handle it was given, whatever is rendered, and the
/// rendered memories have the handles that follow, in their order.
pub proof fn law_handles_are_bound_in_order(
    rows: Seq<MemoryRow>,
    reserved: Seq<MemoryId>,
    n: int,
)
    requires
        1 <= n <= reserved.len() + rows.len(),
    ensures
        bindings(rows, reserved).len() == reserved.len() + rows.len(),
        bindings(rows, reserved)[n - 1] == if n <= reserved.len() {
            reserved[n - 1]
        } else {
            rows[n - 1 - reserved.len()].id
        },
{
}

/// No two of `rows` share an id.
pub open spec fn ids_differ(rows: Seq<MemoryRow>) -> bool {
    forall|i: int, j: int| 0 <= i < j < rows.len() ==> #[trigger] rows[i].id != #[trigger] rows[j].id
}

/// No memory is rendered twice, and none whose handle is reserved: in a section
/// made from distinct memories each rendered handle names another memory.
pub proof fn law_no_memory_is_rendered_twice(
    rows: Seq<MemoryRow>,
    found: Seq<MemoryRow>,
    reserved: Seq<MemoryId>,
    order: Seq<usize>,
)
    requires
        ids_differ(rows),
        ids_differ(found),
        layer_order(rows, order),
    ensures
        ids_differ(shown(rows, found, reserved, order)),
        forall|i: int|
            0 <= i < shown(rows, found, reserved, order).len() ==> !reserved.contains(
                (#[trigger] shown(rows, found, reserved, order)[i]).id,
            ),
{
    let p = |r: MemoryRow| is_stable(r);
    let picked = rows.filter(p);
    let keys = picked.map_values(|r: MemoryRow| stable_key(r));
    let sorted = arranged(picked, order);
    let stable = stable_layer(rows, order);
    let q = |r: MemoryRow| !has_id(stable, r.id);
    let fresh = found.filter(q);
    let context = contextual_layer(found, stable);
    let both = stable + context;
    let free = |r: MemoryRow| !reserved.contains(r.id);
    lemma_filter_distinct(rows, p);
    lemma_filter_distinct(found, q);
    lemma_affordable(sorted, STABLE_LAYER_MAX_BYTES as nat);
    lemma_affordable(fresh, CONTEXTUAL_LAYER_MAX_BYTES as nat);
    assert forall|i: int, j: int| 0 <= i < j < sorted.len() implies #[trigger] sorted[i].id
        != #[trigger] sorted[j].id by {
        let x = order[i] as int;
        let y = order[j] as int;
        assert(goes_before(keys, order[i] as int, order[j] as int));
        if x < y {
            assert(picked[x].id != picked[y].id);
        } else if y < x {
            assert(picked[y].id != picked[x].id);
        }
    }
    assert forall|i: int, j: int| 0 <= i < j < both.len() implies #[trigger] both[i].id
        != #[trigger] both[j].id by {
        if j < stable.len() {
            assert(stable[i] == sorted[i] && stable[j] == sorted[j]);
        } else {
            let y = j - stable.len();
            assert(both[j] == context[y]);
            assert(context[y] == fresh[y]);
            if i < stable.len() {
                assert(q(found.filter(q)[y]));
                assert(both[i] == stable[i]);
            } else {
                let x = i - stable.len();
                assert(both[i] == context[x]);
                assert(context[x] == fresh[x]);
            }
        }
    }
    lemma_filter_distinct(both, free);
    assert forall|i: int| 0 <= i < shown(rows, found, reserved, order).len() implies !reserved.contains(
        (#[trigger] shown(rows, found, reserved, order)[i]).id,
    ) by {
        assert(free(both.filter(free)[i]));
    }
}

} // verus!
