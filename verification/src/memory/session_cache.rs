//! Composed memory sections, cached per session and agent.

use crate::cache::{put_entry, CacheEntry, TtlCache};
use crate::ids::{AgentId, SessionId};
use crate::memory::composer::MemorySection;
use vstd::prelude::*;

verus! {

/// Composed sections by session and agent. A session that outlives its entry is
/// composed anew, and picks up what was written in between.
#[derive(Debug)]
pub struct SessionMemoryCache {
    inner: TtlCache<MemorySection>,
}

impl SessionMemoryCache {
    /// What the cache holds.
    pub closed spec fn inner(self) -> TtlCache<MemorySection> {
        self.inner
    }

    /// The cache keeps its cap.
    pub open spec fn wf(self) -> bool {
        self.inner().wf()
    }

    /// An empty cache of at most `cap` sections, each of which counts for `ttl`
    /// nanoseconds.
    pub fn new(cap: usize, ttl: u64) -> (c: SessionMemoryCache)
        requires
            cap > 0,
        ensures
            c.wf(),
            c.inner().entries() == Seq::<CacheEntry<MemorySection>>::empty(),
            c.inner().cap() == cap,
            c.inner().ttl() == ttl,
    {
        SessionMemoryCache { inner: TtlCache::new(cap, ttl) }
    }

    /// The section cached for the agent in the session: none where it has to be
    /// composed.
    pub fn lookup(&self, session: SessionId, agent: AgentId, now: u64) -> (r: Option<
        &MemorySection,
    >)
        ensures
            match r {
                Some(s) => self.inner().live((session.0, agent.0), now) == Some(*s),
                None => self.inner().live((session.0, agent.0), now) is None,
            },
    {
        self.inner.get((session.0, agent.0), now)
    }

    /// Caches the section composed for the agent in the session.
    pub fn store(&mut self, session: SessionId, agent: AgentId, section: MemorySection, now: u64)
        requires
            old(self).wf(),
            now + old(self).inner().ttl() <= u64::MAX,
        ensures
            final(self).wf(),
            final(self).inner().cap() == old(self).inner().cap(),
            final(self).inner().ttl() == old(self).inner().ttl(),
            final(self).inner().entries() == put_entry(
                if old(self).inner().entries().len() >= old(self).inner().cap() {
                    Seq::empty()
                } else {
                    old(self).inner().entries()
                },
                CacheEntry {
                    key: (session.0, agent.0),
                    value: section,
                    expires_at: (now + old(self).inner().ttl()) as u64,
                },
            ),
    {
        self.inner.insert((session.0, agent.0), section, now);
    }
}

} // verus!
