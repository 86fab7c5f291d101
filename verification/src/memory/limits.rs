//! Caps of the memory subsystem.

use vstd::prelude::*;

verus! {

/// Maximum bytes of a single memory's content: one or two sentences.
pub const MEMORY_CONTENT_MAX_BYTES: usize = 4096;

/// Maximum bytes of the reason a contradiction was flagged or closed for.
pub const CONTRADICTION_REASON_MAX_BYTES: usize = 1024;

/// Maximum bytes of the evidence kept with a validation.
pub const VALIDATION_EVIDENCE_MAX_BYTES: usize = 1024;

/// Memory rows held per agent: what keeps rendering bounded, and the target
/// that eviction brings an agent back to.
pub const MAX_MEMORIES_PER_AGENT: usize = 1024;

/// Journal events on one page.
pub const MAX_EVENTS_PER_PAGE: usize = 1024;

/// Similar pairs looked at per agent in one sweep.
pub const MAX_SIMILAR_PAIRS_PER_AGENT: usize = 256;

/// Byte budget of the stable layer of the rendered section.
pub const STABLE_LAYER_MAX_BYTES: usize = 8192;

/// Byte budget of the contextual layer of the rendered section.
pub const CONTEXTUAL_LAYER_MAX_BYTES: usize = 4096;

/// Bytes charged to a rendered line besides its content: bullet, handle, state
/// and line break.
pub const RENDER_LINE_OVERHEAD_BYTES: usize = 32;

/// Rows that a contextual search asks for.
pub const CONTEXTUAL_TOP_K: usize = 8;

/// Microseconds after which a validation has gone stale: ninety days.
pub const VALIDATION_DECAY_MICROS: i64 = 7_776_000_000_000;

/// Agents swept in one tick of the librarian.
pub const LIBRARIAN_BATCH_LIMIT: usize = 64;

/// Microseconds without a message after which a session is reflected on:
/// thirty minutes.
pub const REFLECTION_IDLE_MICROS: i64 = 1_800_000_000;

/// Sessions queued for reflection in one tick of the scheduler.
pub const REFLECTION_SCHEDULER_BATCH_LIMIT: usize = 32;

} // verus!
