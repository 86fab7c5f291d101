//! What a reader of the rendered memory section can rely on: every memory that is
//! shown stands in it once, under its handle and its heading, and nothing else does.

use crate::ids::MemoryId;
use crate::memory::composer::{
    affordable, bindings, contextual_layer, cost, is_stable, kind_lines, kind_part, layer_order,
    lemma_affordable, line, section_text, shown, stable_key, stable_layer, MEMORY_INTRO,
    MEMORY_TAG_CLOSE, MEMORY_TAG_OPEN,
};
use crate::memory::limits::{CONTEXTUAL_LAYER_MAX_BYTES, STABLE_LAYER_MAX_BYTES};
use crate::memory::store::MemoryRow;
use crate::memory::tables::{arranged, has_id};
use crate::memory::types::{MemoryKind, MemoryState};
use crate::sort::{goes_before, listed};
use crate::text::{
    decimal, has_substring, is_digit, lemma_ascii_len, lemma_decimal_digits, lemma_utf8_len_concat, occurs_at, utf8_len,
};
use crate::time::lemma_timestamp_range;
use vstd::prelude::*;

verus! {

/// How a state is written in the section.
pub open spec fn state_word(state: MemoryState) -> Seq<char> {
    match state {
        MemoryState::Core => "core"@,
        MemoryState::Validated => "validated"@,
        MemoryState::Held => "held"@,
        MemoryState::Tentative => "tentative"@,
    }
}

/// The heading over the memories of a kind.
pub open spec fn kind_heading(kind: MemoryKind) -> Seq<char> {
    match kind {
        MemoryKind::Identity => "\n### "@ + "Self"@ + "\n"@,
        MemoryKind::Other => "\n### "@ + "Other"@ + "\n"@,
        MemoryKind::Procedure => "\n### "@ + "Procedure"@ + "\n"@,
        MemoryKind::Open => "\n### "@ + "Open"@ + "\n"@,
    }
}

/// Where the memories of a kind stand among the kinds.
pub open spec fn kind_place(kind: MemoryKind) -> int {
    match kind {
        MemoryKind::Identity => 0,
        MemoryKind::Other => 1,
        MemoryKind::Procedure => 2,
        MemoryKind::Open => 3,
    }
}

/// What a reader sees of the memory `r` under the handle `M-<n>`.
pub open spec fn entry(r: MemoryRow, n: nat) -> Seq<char> {
    "- ["@ + ("M-"@ + decimal(n)) + ", "@ + state_word(r.state) + "] "@ + r.content@ + "\n"@
}

/// `text` shows the memories of `rows`, the first of them as `M-<first>`: the entry of
/// `rows[i]` stands at `at[i]`, the heading of its kind before it at `head[i]`, and
/// between the two only memories of that kind. No two entries overlap; kinds follow in
/// their order and memories of a kind in the order of `rows`.
pub open spec fn lays_out(
    text: Seq<char>,
    rows: Seq<MemoryRow>,
    first: nat,
    at: Seq<int>,
    head: Seq<int>,
) -> bool {
    &&& at.len() == rows.len() && head.len() == rows.len()
    &&& forall|i: int| #![trigger rows[i]]
        0 <= i < rows.len() ==> {
            &&& occurs_at(text, entry(rows[i], (first + i) as nat), at[i])
            &&& occurs_at(text, kind_heading(rows[i].kind), head[i])
            &&& head[i] + kind_heading(rows[i].kind).len() <= at[i]
        }
    &&& forall|i: int, j: int| #![trigger rows[i], rows[j]]
        0 <= i < rows.len() && 0 <= j < rows.len() && (kind_place(rows[i].kind) < kind_place(
            rows[j].kind,
        ) || (rows[i].kind == rows[j].kind && i < j)) ==> at[i] + entry(
            rows[i],
            (first + i) as nat,
        ).len() <= at[j]
    &&& forall|i: int, j: int| #![trigger rows[i], rows[j]]
        0 <= i < rows.len() && 0 <= j < rows.len() && rows[i].kind == rows[j].kind ==> head[i]
            == head[j]
    &&& forall|i: int, j: int| #![trigger rows[i], rows[j]]
        0 <= i < rows.len() && 0 <= j < rows.len() && kind_place(rows[i].kind) < kind_place(
            rows[j].kind,
        ) ==> at[i] + entry(rows[i], (first + i) as nat).len() <= head[j]
}

/// Some layout shows the memories of `rows` in `text`.
pub open spec fn shows_all(text: Seq<char>, rows: Seq<MemoryRow>, first: nat) -> bool {
    exists|at: Seq<int>, head: Seq<int>| #[trigger] lays_out(text, rows, first, at, head)
}

spec fn part_start(rows: Seq<MemoryRow>, first: nat, kind: MemoryKind) -> int {
    let open = (MEMORY_TAG_OPEN@ + "## Memory\n"@ + MEMORY_INTRO@).len() as int;
    let one = kind_part(rows, first, MemoryKind::Identity).len();
    let two = kind_part(rows, first, MemoryKind::Other).len();
    let three = kind_part(rows, first, MemoryKind::Procedure).len();
    match kind {
        MemoryKind::Identity => open,
        MemoryKind::Other => open + one,
        MemoryKind::Procedure => open + one + two,
        MemoryKind::Open => open + one + two + three,
    }
}

spec fn entry_start(rows: Seq<MemoryRow>, first: nat, i: int) -> int {
    let kind = rows[i].kind;
    part_start(rows, first, kind) + kind_heading(kind).len() + kind_lines(
        rows.take(i),
        first,
        kind,
    ).len()
}

proof fn lemma_line_is_entry(r: MemoryRow, n: nat)
    ensures
        line(r, n) == entry(r, n),
{
}

proof fn lemma_kind_line(rows: Seq<MemoryRow>, first: nat, kind: MemoryKind, i: int)
    requires
        0 <= i < rows.len(),
        rows[i].kind == kind,
    ensures
        occurs_at(
            kind_lines(rows, first, kind),
            entry(rows[i], (first + i) as nat),
            kind_lines(rows.take(i), first, kind).len() as int,
        ),
    decreases rows.len(),
{
    let rest = rows.drop_last();
    let all = kind_lines(rows, first, kind);
    let before = kind_lines(rest, first, kind);
    let shown = entry(rows[i], (first + i) as nat);
    let p = kind_lines(rows.take(i), first, kind).len() as int;
    lemma_line_is_entry(rows[i], (first + i) as nat);
    if i == rows.len() - 1 {
        assert(rows.take(i) =~= rest);
        assert(all =~= before + shown);
        assert(all.subrange(p, p + shown.len()) =~= shown);
    } else {
        assert(rest.take(i) =~= rows.take(i));
        assert(rest[i] == rows[i]);
        lemma_kind_line(rest, first, kind, i);
        assert(all.subrange(p, p + shown.len()) =~= before.subrange(p, p + shown.len()));
    }
}

proof fn lemma_kind_lines_grow(rows: Seq<MemoryRow>, first: nat, kind: MemoryKind, i: int, j: int)
    requires
        0 <= i <= j <= rows.len(),
    ensures
        kind_lines(rows.take(i), first, kind).len() <= kind_lines(rows.take(j), first, kind).len(),
        i < j && rows[i].kind == kind ==> kind_lines(rows.take(i), first, kind).len() + entry(
            rows[i],
            (first + i) as nat,
        ).len() <= kind_lines(rows.take(j), first, kind).len(),
    decreases j - i,
{
    if i < j {
        lemma_kind_lines_grow(rows, first, kind, i + 1, j);
        let next = rows.take(i + 1);
        assert(next.drop_last() =~= rows.take(i));
        assert(next.last() == rows[i]);
        lemma_line_is_entry(rows[i], (first + i) as nat);
    }
}

proof fn lemma_part(rows: Seq<MemoryRow>, first: nat, kind: MemoryKind, i: int)
    requires
        0 <= i < rows.len(),
        rows[i].kind == kind,
    ensures
        kind_part(rows, first, kind) == kind_heading(kind) + kind_lines(rows, first, kind),
        occurs_at(kind_part(rows, first, kind), kind_heading(kind), 0),
        occurs_at(
            kind_part(rows, first, kind),
            entry(rows[i], (first + i) as nat),
            (kind_heading(kind).len() + kind_lines(rows.take(i), first, kind).len()) as int,
        ),
{
    let head = kind_heading(kind);
    let lines = kind_lines(rows, first, kind);
    let part = kind_part(rows, first, kind);
    let shown = entry(rows[i], (first + i) as nat);
    let p = kind_lines(rows.take(i), first, kind).len() as int;
    assert(part =~= head + lines);
    assert(part.subrange(0, head.len() as int) =~= head);
    lemma_kind_line(rows, first, kind, i);
    assert(part.subrange(head.len() + p, head.len() + p + shown.len()) =~= lines.subrange(
        p,
        p + shown.len(),
    ));
}

proof fn lemma_part_within(rows: Seq<MemoryRow>, first: nat, kind: MemoryKind)
    requires
        rows.len() > 0,
    ensures
        occurs_at(
            section_text(rows, first),
            kind_part(rows, first, kind),
            part_start(rows, first, kind),
        ),
{
    let text = section_text(rows, first);
    let open = MEMORY_TAG_OPEN@ + "## Memory\n"@ + MEMORY_INTRO@;
    let one = kind_part(rows, first, MemoryKind::Identity);
    let two = kind_part(rows, first, MemoryKind::Other);
    let three = kind_part(rows, first, MemoryKind::Procedure);
    let four = kind_part(rows, first, MemoryKind::Open);
    let part = kind_part(rows, first, kind);
    let p = part_start(rows, first, kind);
    assert(text =~= open + one + two + three + four + MEMORY_TAG_CLOSE@);
    assert(text.subrange(p, p + part.len()) =~= part);
}

proof fn lemma_occurs_within(hay: Seq<char>, part: Seq<char>, needle: Seq<char>, p: int, q: int)
    requires
        occurs_at(hay, part, p),
        occurs_at(part, needle, q),
    ensures
        occurs_at(hay, needle, p + q),
{
    assert(hay.subrange(p, p + part.len()) == part);
    assert(hay.subrange(p + q, p + q + needle.len()) =~= part.subrange(q, q + needle.len()));
}

proof fn lemma_parts_follow(rows: Seq<MemoryRow>, first: nat, a: MemoryKind, b: MemoryKind)
    requires
        kind_place(a) < kind_place(b),
    ensures
        part_start(rows, first, a) + kind_part(rows, first, a).len() <= part_start(rows, first, b),
{
}

/// Every memory that is rendered has its entry, whatever its kind and its state: its
/// handle, its state, all of its content. It stands under the heading of its kind, the
/// kinds in their order, memories of a kind in the order of `rows`.
pub proof fn law_every_memory_has_its_entry(rows: Seq<MemoryRow>, first: nat)
    ensures
        shows_all(section_text(rows, first), rows, first),
{
    let text = section_text(rows, first);
    let at = Seq::new(rows.len(), |i: int| entry_start(rows, first, i));
    let head = Seq::new(rows.len(), |i: int| part_start(rows, first, rows[i].kind));
    assert forall|i: int| #![trigger rows[i]] 0 <= i < rows.len() implies {
        &&& occurs_at(text, entry(rows[i], (first + i) as nat), at[i])
        &&& occurs_at(text, kind_heading(rows[i].kind), head[i])
        &&& head[i] + kind_heading(rows[i].kind).len() <= at[i]
    } by {
        let kind = rows[i].kind;
        let part = kind_part(rows, first, kind);
        let q = (kind_heading(kind).len() + kind_lines(rows.take(i), first, kind).len()) as int;
        lemma_part(rows, first, kind, i);
        lemma_part_within(rows, first, kind);
        lemma_occurs_within(text, part, kind_heading(kind), head[i], 0);
        lemma_occurs_within(text, part, entry(rows[i], (first + i) as nat), head[i], q);
    }
    assert forall|i: int, j: int| #![trigger rows[i], rows[j]]
        0 <= i < rows.len() && 0 <= j < rows.len() && kind_place(rows[i].kind) < kind_place(
            rows[j].kind,
        ) implies at[i] + entry(rows[i], (first + i) as nat).len() <= head[j] by {
        lemma_part(rows, first, rows[i].kind, i);
        lemma_parts_follow(rows, first, rows[i].kind, rows[j].kind);
    }
    assert forall|i: int, j: int| #![trigger rows[i], rows[j]]
        0 <= i < rows.len() && 0 <= j < rows.len() && (kind_place(rows[i].kind) < kind_place(
            rows[j].kind,
        ) || (rows[i].kind == rows[j].kind && i < j)) implies at[i] + entry(
        rows[i],
        (first + i) as nat,
    ).len() <= at[j] by {
        if rows[i].kind == rows[j].kind {
            lemma_kind_lines_grow(rows, first, rows[i].kind, i, j);
        }
    }
    assert(lays_out(text, rows, first, at, head));
}

/// The entry of one memory: for each `i`, the memory `rows[i]` is a line of the text
/// under the handle `M-<first + i>`.
pub proof fn law_each_memory_is_a_line(rows: Seq<MemoryRow>, first: nat, i: int)
    requires
        0 <= i < rows.len(),
    ensures
        has_substring(
            section_text(rows, first),
            "- ["@ + ("M-"@ + decimal((first + i) as nat)) + ", "@ + state_word(rows[i].state) + "] "@
                + rows[i].content@ + "\n"@,
        ),
{
    law_every_memory_has_its_entry(rows, first);
    let (at, head) = choose|at: Seq<int>, head: Seq<int>| #[trigger]
        lays_out(section_text(rows, first), rows, first, at, head);
    assert(occurs_at(section_text(rows, first), entry(rows[i], (first + i) as nat), at[i]));
}

/// Characters of the entries of `rows`.
pub open spec fn entries_len(rows: Seq<MemoryRow>, first: nat) -> nat
    decreases rows.len(),
{
    if rows.len() == 0 {
        0
    } else {
        entries_len(rows.drop_last(), first) + entry(
            rows.last(),
            (first + rows.len() - 1) as nat,
        ).len()
    }
}

/// Characters of the heading of `kind`, none where no memory has the kind.
pub open spec fn heading_len(rows: Seq<MemoryRow>, kind: MemoryKind) -> nat {
    if exists|i: int| 0 <= i < rows.len() && (#[trigger] rows[i]).kind == kind {
        kind_heading(kind).len()
    } else {
        0
    }
}

proof fn lemma_lines_len(rows: Seq<MemoryRow>, first: nat)
    ensures
        kind_lines(rows, first, MemoryKind::Identity).len() + kind_lines(
            rows,
            first,
            MemoryKind::Other,
        ).len() + kind_lines(rows, first, MemoryKind::Procedure).len() + kind_lines(
            rows,
            first,
            MemoryKind::Open,
        ).len() == entries_len(rows, first),
    decreases rows.len(),
{
    if rows.len() > 0 {
        lemma_lines_len(rows.drop_last(), first);
        lemma_line_is_entry(rows.last(), (first + rows.len() - 1) as nat);
    }
}

proof fn lemma_no_lines(rows: Seq<MemoryRow>, first: nat, kind: MemoryKind)
    requires
        forall|i: int| 0 <= i < rows.len() ==> (#[trigger] rows[i]).kind != kind,
    ensures
        kind_lines(rows, first, kind).len() == 0,
    decreases rows.len(),
{
    if rows.len() > 0 {
        let rest = rows.drop_last();
        assert forall|i: int| 0 <= i < rest.len() implies (#[trigger] rest[i]).kind != kind by {
            assert(rest[i] == rows[i]);
        }
        assert(rows[rows.len() - 1] == rows.last());
        lemma_no_lines(rest, first, kind);
    }
}

proof fn lemma_part_len(rows: Seq<MemoryRow>, first: nat, kind: MemoryKind)
    ensures
        kind_part(rows, first, kind).len() == heading_len(rows, kind) + kind_lines(
            rows,
            first,
            kind,
        ).len(),
{
    if exists|i: int| 0 <= i < rows.len() && (#[trigger] rows[i]).kind == kind {
        let i = choose|i: int| 0 <= i < rows.len() && (#[trigger] rows[i]).kind == kind;
        lemma_part(rows, first, kind, i);
    } else {
        lemma_no_lines(rows, first, kind);
    }
}

/// Nothing else is rendered: between the tags stand the title, the introduction, one
/// heading for each kind that is there and one entry for each memory. Without a memory
/// there is no section.
pub proof fn law_nothing_else_is_rendered(rows: Seq<MemoryRow>, first: nat)
    ensures
        rows.len() == 0 ==> section_text(rows, first).len() == 0,
        rows.len() > 0 ==> {
            &&& occurs_at(
                section_text(rows, first),
                "<memory>\n"@ + "## Memory\n"@ + MEMORY_INTRO@,
                0,
            )
            &&& occurs_at(
                section_text(rows, first),
                "\n</memory>"@,
                section_text(rows, first).len() - "\n</memory>"@.len(),
            )
            &&& section_text(rows, first).len() == "<memory>\n"@.len() + "## Memory\n"@.len()
                + MEMORY_INTRO@.len() + heading_len(rows, MemoryKind::Identity) + heading_len(
                rows,
                MemoryKind::Other,
            ) + heading_len(rows, MemoryKind::Procedure) + heading_len(rows, MemoryKind::Open)
                + entries_len(rows, first) + "\n</memory>"@.len()
        },
{
    if rows.len() > 0 {
        let text = section_text(rows, first);
        let open = "<memory>\n"@ + "## Memory\n"@ + MEMORY_INTRO@;
        let close = "\n</memory>"@;
        lemma_lines_len(rows, first);
        lemma_part_len(rows, first, MemoryKind::Identity);
        lemma_part_len(rows, first, MemoryKind::Other);
        lemma_part_len(rows, first, MemoryKind::Procedure);
        lemma_part_len(rows, first, MemoryKind::Open);
        assert(text.subrange(0, open.len() as int) =~= open);
        assert(text.subrange(text.len() - close.len(), text.len() - close.len() + close.len())
            =~= close);
    }
}

/// Whoever is shown belongs there: a memory of the agent that is pinned or about the
/// agent itself, or one that the search found; never one whose handle is reserved.
pub proof fn law_shown_memories_belong(
    rows: Seq<MemoryRow>,
    found: Seq<MemoryRow>,
    reserved: Seq<MemoryId>,
    order: Seq<usize>,
    i: int,
)
    requires
        layer_order(rows, order),
        0 <= i < shown(rows, found, reserved, order).len(),
    ensures
        ({
            let r = shown(rows, found, reserved, order)[i];
            &&& !reserved.contains(r.id)
            &&& (rows.contains(r) && (r.pinned || r.kind == MemoryKind::Identity))
                || found.contains(r)
        }),
{
    let p = |r: MemoryRow| is_stable(r);
    let picked = rows.filter(p);
    let sorted = arranged(picked, order);
    let stable = stable_layer(rows, order);
    let q = |r: MemoryRow| !has_id(stable, r.id);
    let fresh = found.filter(q);
    let context = contextual_layer(found, stable);
    let both = stable + context;
    let free = |r: MemoryRow| !reserved.contains(r.id);
    let r = both.filter(free)[i];
    lemma_affordable(sorted, STABLE_LAYER_MAX_BYTES as nat);
    lemma_affordable(fresh, CONTEXTUAL_LAYER_MAX_BYTES as nat);
    both.lemma_filter_pred(free, i);
    assert(both.filter(free).contains(r));
    both.lemma_filter_contains_rev(free, r);
    let k = choose|k: int| 0 <= k < both.len() && both[k] == r;
    if k < stable.len() {
        assert(stable[k] == sorted[k]);
        assert(order[k] < picked.len());
        let x = order[k] as int;
        rows.lemma_filter_pred(p, x);
        assert(picked.contains(picked[x]));
        rows.lemma_filter_contains_rev(p, picked[x]);
    } else {
        let x = k - stable.len();
        assert(context[x] == fresh[x]);
        assert(fresh.contains(fresh[x]));
        found.lemma_filter_contains_rev(q, fresh[x]);
    }
}

/// The first row that the budget does not pay for ends what is kept.
proof fn lemma_next_exceeds(rows: Seq<MemoryRow>, budget: nat)
    ensures
        affordable(rows, budget).len() < rows.len() ==> cost(
            affordable(rows, budget).push(rows[affordable(rows, budget).len() as int]),
        ) > budget,
    decreases rows.len(),
{
    let kept = affordable(rows, budget);
    if rows.len() > 0 && cost(rows) > budget {
        let rest = rows.drop_last();
        lemma_affordable(rest, budget);
        lemma_next_exceeds(rest, budget);
        if kept.len() == rest.len() {
            assert(kept =~= rest);
            assert(kept.push(rows[kept.len() as int]) =~= rows);
        } else {
            assert(rest[kept.len() as int] == rows[kept.len() as int]);
        }
    }
}

/// `a` is shown before `b` in the stable layer: it is more trusted, or as trusted and
/// no older.
pub open spec fn outranks(a: MemoryRow, b: MemoryRow) -> bool {
    ||| a.state.rank() > b.state.rank()
    ||| a.state.rank() == b.state.rank() && a.created_at@ >= b.created_at@
}

proof fn lemma_sorted_by_trust(rows: Seq<MemoryRow>, order: Seq<usize>, a: int, b: int)
    requires
        layer_order(rows, order),
        0 <= a <= b < order.len(),
    ensures
        outranks(
            arranged(rows.filter(|r: MemoryRow| is_stable(r)), order)[a],
            arranged(rows.filter(|r: MemoryRow| is_stable(r)), order)[b],
        ),
{
    broadcast use lemma_timestamp_range;

    let picked = rows.filter(|r: MemoryRow| is_stable(r));
    let keys = picked.map_values(|r: MemoryRow| stable_key(r));
    if a < b {
        assert(goes_before(keys, order[a] as int, order[b] as int));
        assert(order[a] < keys.len() && order[b] < keys.len());
    }
}

/// The stable layer shows the most trusted memories first, and among equals the newest.
pub proof fn law_stable_layer_is_ordered(rows: Seq<MemoryRow>, order: Seq<usize>, a: int, b: int)
    requires
        layer_order(rows, order),
        0 <= a <= b < stable_layer(rows, order).len(),
    ensures
        ({
            let x = stable_layer(rows, order)[a];
            let y = stable_layer(rows, order)[b];
            ||| x.state.rank() > y.state.rank()
            ||| x.state.rank() == y.state.rank() && x.created_at@ >= y.created_at@
        }),
{
    let sorted = arranged(rows.filter(|r: MemoryRow| is_stable(r)), order);
    lemma_affordable(sorted, STABLE_LAYER_MAX_BYTES as nat);
    assert(stable_layer(rows, order)[a] == sorted[a]);
    assert(stable_layer(rows, order)[b] == sorted[b]);
    lemma_sorted_by_trust(rows, order, a, b);
}

/// A memory that is pinned or about the agent itself is left out only for want of room:
/// where one is, a memory that comes no later in the order would have taken the layer
/// over its budget.
pub proof fn law_stable_memories_are_left_out_for_want_of_room(
    rows: Seq<MemoryRow>,
    order: Seq<usize>,
    r: MemoryRow,
)
    requires
        layer_order(rows, order),
        rows.contains(r),
        r.pinned || r.kind == MemoryKind::Identity,
        !stable_layer(rows, order).contains(r),
    ensures
        exists|next: MemoryRow|
            {
                &&& #[trigger] rows.contains(next)
                &&& next.pinned || next.kind == MemoryKind::Identity
                &&& outranks(next, r)
                &&& cost(stable_layer(rows, order)) + utf8_len(next.content@) + 32 > 8_192
            },
{
    let p = |r: MemoryRow| is_stable(r);
    let picked = rows.filter(p);
    let keys = picked.map_values(|r: MemoryRow| stable_key(r));
    let sorted = arranged(picked, order);
    let layer = stable_layer(rows, order);
    let x = choose|x: int| 0 <= x < rows.len() && rows[x] == r;
    rows.lemma_filter_contains(p, x);
    let c = choose|c: int| 0 <= c < picked.len() && picked[c] == r;
    assert(listed(order, c));
    let w = choose|w: int| 0 <= w < order.len() && #[trigger] order[w] == c;
    assert(sorted[w] == r);
    lemma_affordable(sorted, STABLE_LAYER_MAX_BYTES as nat);
    lemma_next_exceeds(sorted, STABLE_LAYER_MAX_BYTES as nat);
    let n = layer.len() as int;
    if w < n {
        assert(layer[w] == sorted[w]);
        assert(layer.contains(r));
    }
    let next = sorted[n];
    lemma_sorted_by_trust(rows, order, n, w);
    assert(layer.push(next).drop_last() =~= layer);
    let y = order[n] as int;
    assert(order[n] < keys.len());
    rows.lemma_filter_pred(p, y);
    assert(picked.contains(picked[y]));
    rows.lemma_filter_contains_rev(p, next);
    assert(rows.contains(next));
}

/// What the search found is shown in the order in which it was found, and left out only
/// where the stable layer shows it or for want of room: where one is left out, one that
/// was found no later would have taken the layer over its budget.
pub proof fn law_found_memories_are_left_out_for_want_of_room(
    found: Seq<MemoryRow>,
    stable: Seq<MemoryRow>,
    i: int,
)
    requires
        0 <= i < found.len(),
        forall|j: int| 0 <= j < stable.len() ==> (#[trigger] stable[j]).id != found[i].id,
        !contextual_layer(found, stable).contains(found[i]),
    ensures
        exists|k: int|
            0 <= k <= i && cost(contextual_layer(found, stable)) + utf8_len(
                (#[trigger] found[k]).content@,
            ) + 32 > 4_096,
{
    let q = |r: MemoryRow| !has_id(stable, r.id);
    let fresh = found.filter(q);
    let layer = contextual_layer(found, stable);
    let n = layer.len() as int;
    lemma_affordable(fresh, CONTEXTUAL_LAYER_MAX_BYTES as nat);
    lemma_next_exceeds(fresh, CONTEXTUAL_LAYER_MAX_BYTES as nat);
    let w = lemma_filter_position(found, q, i);
    if w < n {
        assert(layer[w] == fresh[w]);
        assert(layer.contains(found[i]));
    }
    assert(layer.push(fresh[n]).drop_last() =~= layer);
    let k = lemma_filter_source(found, q, n);
    if k > i {
        lemma_filter_order(found, q, i, w, k, n);
    }
}

/// Position of a kept element among those that are kept.
proof fn lemma_filter_position(s: Seq<MemoryRow>, p: spec_fn(MemoryRow) -> bool, i: int) -> (w: int)
    requires
        0 <= i < s.len(),
        p(s[i]),
    ensures
        w == s.take(i).filter(p).len(),
        0 <= w < s.filter(p).len(),
        s.filter(p)[w] == s[i],
    decreases s.len(),
{
    reveal(Seq::filter);
    let rest = s.drop_last();
    if i == s.len() - 1 {
        assert(s.take(i) =~= rest);
        rest.filter(p).len() as int
    } else {
        assert(rest[i] == s[i]);
        assert(rest.take(i) =~= s.take(i));
        lemma_filter_position(rest, p, i)
    }
}

/// Where the element at position `w` of those that are kept comes from.
proof fn lemma_filter_source(s: Seq<MemoryRow>, p: spec_fn(MemoryRow) -> bool, w: int) -> (k: int)
    requires
        0 <= w < s.filter(p).len(),
    ensures
        0 <= k < s.len(),
        p(s[k]),
        s.filter(p)[w] == s[k],
        s.take(k).filter(p).len() == w,
    decreases s.len(),
{
    reveal(Seq::filter);
    let rest = s.drop_last();
    if w == rest.filter(p).len() {
        let k = s.len() - 1;
        assert(s.take(k) =~= rest);
        k
    } else {
        let k = lemma_filter_source(rest, p, w);
        assert(rest.take(k) =~= s.take(k));
        k
    }
}

proof fn lemma_filter_order(
    s: Seq<MemoryRow>,
    p: spec_fn(MemoryRow) -> bool,
    i: int,
    w: int,
    k: int,
    n: int,
)
    requires
        0 <= i < k < s.len(),
        p(s[i]),
        s.take(i).filter(p).len() == w,
        s.take(k).filter(p).len() == n,
    ensures
        w < n,
{
    let head = s.take(k);
    assert(head[i] == s[i]);
    assert(head.take(i) =~= s.take(i));
    let at = lemma_filter_position(head, p, i);
}

/// Bytes of the entries of `rows`.
pub open spec fn entries_bytes(rows: Seq<MemoryRow>, first: nat) -> nat
    decreases rows.len(),
{
    if rows.len() == 0 {
        0
    } else {
        entries_bytes(rows.drop_last(), first) + utf8_len(
            entry(rows.last(), (first + rows.len() - 1) as nat),
        )
    }
}

proof fn lemma_handle_number_bytes(n: nat)
    requires
        n <= 9_999,
    ensures
        utf8_len(decimal(n)) <= 4,
{
    reveal_with_fuel(decimal, 4);
    lemma_decimal_digits(n);
    let s = decimal(n);
    assert forall|i: int| 0 <= i < s.len() implies (#[trigger] s[i] as u32) < 0x80 by {
        assert(is_digit(s[i]));
    }
    lemma_ascii_len(s);
    assert(s.len() <= 4);
}

proof fn lemma_entry_bytes(r: MemoryRow, n: nat)
    requires
        n <= 9_999,
    ensures
        utf8_len(entry(r, n)) <= utf8_len(r.content@) + 32,
{
    lemma_handle_number_bytes(n);
    reveal_strlit("- [");
    reveal_strlit("M-");
    reveal_strlit(", ");
    reveal_strlit("] ");
    reveal_strlit("\n");
    reveal_strlit("core");
    reveal_strlit("validated");
    reveal_strlit("held");
    reveal_strlit("tentative");
    let word = state_word(r.state);
    lemma_ascii_len("- ["@);
    lemma_ascii_len("M-"@);
    lemma_ascii_len(", "@);
    lemma_ascii_len("] "@);
    lemma_ascii_len("\n"@);
    lemma_ascii_len(word);
    lemma_utf8_len_concat("M-"@, decimal(n));
    let a = "- ["@ + ("M-"@ + decimal(n));
    lemma_utf8_len_concat("- ["@, "M-"@ + decimal(n));
    lemma_utf8_len_concat(a, ", "@);
    lemma_utf8_len_concat(a + ", "@, word);
    lemma_utf8_len_concat(a + ", "@ + word, "] "@);
    lemma_utf8_len_concat(a + ", "@ + word + "] "@, r.content@);
    lemma_utf8_len_concat(a + ", "@ + word + "] "@ + r.content@, "\n"@);
}

/// What is charged for memories pays for their entries, whatever handles they get.
pub proof fn law_entries_are_paid_for(rows: Seq<MemoryRow>, first: nat)
    requires
        first + rows.len() <= 10_000,
    ensures
        entries_bytes(rows, first) <= cost(rows),
    decreases rows.len(),
{
    if rows.len() > 0 {
        law_entries_are_paid_for(rows.drop_last(), first);
        lemma_entry_bytes(rows.last(), (first + rows.len() - 1) as nat);
    }
}

/// However many memories an agent has and however long they are, what the section shows
/// of them takes a bounded number of bytes: eight KiB for the stable layer, four for
/// what was found.
pub proof fn law_section_stays_small(
    rows: Seq<MemoryRow>,
    found: Seq<MemoryRow>,
    order: Seq<usize>,
    first: nat,
)
    requires
        first + stable_layer(rows, order).len() <= 10_000,
        first + contextual_layer(found, stable_layer(rows, order)).len() <= 10_000,
    ensures
        entries_bytes(stable_layer(rows, order), first) <= 8_192,
        entries_bytes(contextual_layer(found, stable_layer(rows, order)), first) <= 4_096,
{
    let stable = stable_layer(rows, order);
    lemma_affordable(
        arranged(rows.filter(|r: MemoryRow| is_stable(r)), order),
        STABLE_LAYER_MAX_BYTES as nat,
    );
    lemma_affordable(
        found.filter(|r: MemoryRow| !has_id(stable, r.id)),
        CONTEXTUAL_LAYER_MAX_BYTES as nat,
    );
    law_entries_are_paid_for(stable, first);
    law_entries_are_paid_for(contextual_layer(found, stable), first);
}

/// A composed section shows what is in its layers: a memory of either layer has an entry
/// under some handle after the reserved ones, unless its own handle is reserved; and that
/// handle is bound to it.
pub proof fn law_layers_are_shown(
    rows: Seq<MemoryRow>,
    found: Seq<MemoryRow>,
    reserved: Seq<MemoryId>,
    order: Seq<usize>,
    r: MemoryRow,
)
    requires
        stable_layer(rows, order).contains(r) || contextual_layer(
            found,
            stable_layer(rows, order),
        ).contains(r),
        !reserved.contains(r.id),
    ensures
        exists|n: nat|
            {
                &&& reserved.len() < n <= bindings(
                    shown(rows, found, reserved, order),
                    reserved,
                ).len()
                &&& bindings(shown(rows, found, reserved, order), reserved)[n - 1] == r.id
                &&& has_substring(
                    section_text(shown(rows, found, reserved, order), reserved.len() + 1),
                    #[trigger] entry(r, n),
                )
            },
{
    let stable = stable_layer(rows, order);
    let context = contextual_layer(found, stable);
    let both = stable + context;
    let free = |r: MemoryRow| !reserved.contains(r.id);
    let all = shown(rows, found, reserved, order);
    if stable.contains(r) {
        let k = choose|k: int| 0 <= k < stable.len() && stable[k] == r;
        assert(both[k] == r);
    } else {
        let k = choose|k: int| 0 <= k < context.len() && context[k] == r;
        assert(both[stable.len() + k] == r);
    }
    let k = choose|k: int| 0 <= k < both.len() && both[k] == r;
    both.lemma_filter_contains(free, k);
    let i = choose|i: int| 0 <= i < all.len() && all[i] == r;
    law_each_memory_is_a_line(all, reserved.len() + 1, i);
    let n = (reserved.len() + 1 + i) as nat;
    assert(has_substring(section_text(all, reserved.len() + 1), entry(r, n)));
}

proof fn lemma_headings()
    ensures
        kind_heading(MemoryKind::Identity) == "\n### Self\n"@,
        kind_heading(MemoryKind::Other) == "\n### Other\n"@,
        kind_heading(MemoryKind::Procedure) == "\n### Procedure\n"@,
        kind_heading(MemoryKind::Open) == "\n### Open\n"@,
{
    reveal_strlit("\n### ");
    reveal_strlit("\n");
    reveal_strlit("Self");
    reveal_strlit("Other");
    reveal_strlit("Procedure");
    reveal_strlit("Open");
    reveal_strlit("\n### Self\n");
    reveal_strlit("\n### Other\n");
    reveal_strlit("\n### Procedure\n");
    reveal_strlit("\n### Open\n");
    assert("\n### "@ + "Self"@ + "\n"@ =~= "\n### Self\n"@);
    assert("\n### "@ + "Other"@ + "\n"@ =~= "\n### Other\n"@);
    assert("\n### "@ + "Procedure"@ + "\n"@ =~= "\n### Procedure\n"@);
    assert("\n### "@ + "Open"@ + "\n"@ =~= "\n### Open\n"@);
}

/// A memory stands under the heading of its kind: the heading comes in the text, and the memory
/// after it.
pub proof fn law_memories_stand_under_their_heading(
    rows: Seq<MemoryRow>,
    first: nat,
    i: int,
) -> (places: (int, int))
    requires
        0 <= i < rows.len(),
    ensures
        places.0 < places.1,
        occurs_at(
            section_text(rows, first),
            match rows[i].kind {
                MemoryKind::Identity => "\n### Self\n"@,
                MemoryKind::Other => "\n### Other\n"@,
                MemoryKind::Procedure => "\n### Procedure\n"@,
                MemoryKind::Open => "\n### Open\n"@,
            },
            places.0,
        ),
        occurs_at(section_text(rows, first), entry(rows[i], (first + i) as nat), places.1),
{
    let text = section_text(rows, first);
    law_every_memory_has_its_entry(rows, first);
    let (at, head) = choose|at: Seq<int>, head: Seq<int>| #[trigger]
        lays_out(text, rows, first, at, head);
    lemma_headings();
    assert(kind_heading(rows[i].kind).len() > 0) by {
        reveal_strlit("\n");
    }
    assert(occurs_at(text, kind_heading(rows[i].kind), head[i]));
    assert(occurs_at(text, entry(rows[i], (first + i) as nat), at[i]));
    (head[i], at[i])
}

/// Kinds come in turn: what the agent is about, then others, then procedures, then what is
/// open; and memories of a kind in the order in which they were handed over.
pub proof fn law_kinds_are_shown_in_turn(rows: Seq<MemoryRow>, first: nat, i: int, j: int)
    requires
        0 <= i < rows.len(),
        0 <= j < rows.len(),
        ({
            ||| rows[i].kind == rows[j].kind && i < j
            ||| rows[i].kind is Identity && !(rows[j].kind is Identity)
            ||| rows[i].kind is Other && (rows[j].kind is Procedure || rows[j].kind is Open)
            ||| rows[i].kind is Procedure && rows[j].kind is Open
        }),
    ensures
        exists|p: int, q: int| #![trigger occurs_at(
            section_text(rows, first),
            entry(rows[i], (first + i) as nat),
            p,
        ), occurs_at(section_text(rows, first), entry(rows[j], (first + j) as nat), q)]
            p < q && occurs_at(section_text(rows, first), entry(rows[i], (first + i) as nat), p)
                && occurs_at(
                section_text(rows, first),
                entry(rows[j], (first + j) as nat),
                q,
            ),
{
    let text = section_text(rows, first);
    law_every_memory_has_its_entry(rows, first);
    let (at, head) = choose|at: Seq<int>, head: Seq<int>| #[trigger]
        lays_out(text, rows, first, at, head);
    reveal_strlit("- [");
    assert(entry(rows[i], (first + i) as nat).len() > 0);
    assert(occurs_at(text, entry(rows[i], (first + i) as nat), at[i]));
    assert(occurs_at(text, entry(rows[j], (first + j) as nat), at[j]));
}

} // verus!
