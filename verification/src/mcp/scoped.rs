//! What an agent sees of the catalogue.
//!
//! Strict by default: of a server that is not on the allowlist nothing is seen.

use crate::agents::{allowed_entry, AllowedMcpTools, AllowedServer};
use crate::mcp::registry::{all_offered, offers, McpRegistry};
use crate::mcp::tool::{McpTool, ToolView};
use crate::seqs::lemma_filter_step;
use crate::text::{lemma_text_lt_total, text_lt};
use crate::tools::ToolSpec;
use vstd::prelude::*;

verus! {

/// The tools that `allowed` lets an agent see.
pub open spec fn visible(tools: Seq<ToolView>, allowed: AllowedMcpTools) -> Seq<ToolView> {
    tools.filter(|t: ToolView| allowed.permits(t.server, t.remote_name))
}

/// The part of the catalogue that one agent sees.
#[derive(Debug)]
pub struct ScopedMcpSource<'a> {
    registry: &'a McpRegistry,
    allowed: &'a AllowedMcpTools,
}

impl<'a> ScopedMcpSource<'a> {
    /// The catalogue behind it.
    pub closed spec fn catalogue(self) -> Seq<ToolView> {
        self.registry@
    }

    /// What may be seen of it.
    pub closed spec fn allowed(self) -> AllowedMcpTools {
        *self.allowed
    }

    /// What `allowed` lets an agent see of `registry`.
    pub fn new(registry: &'a McpRegistry, allowed: &'a AllowedMcpTools) -> (s: ScopedMcpSource<'a>)
        ensures
            s.catalogue() == registry@,
            s.allowed() == *allowed,
    {
        ScopedMcpSource { registry, allowed }
    }

    /// The tools that the agent sees, as they are offered to a model.
    pub fn specs(&self) -> (specs: Vec<ToolSpec>)
        ensures
            all_offered(specs@, visible(self.catalogue(), self.allowed())),
    {
        let ghost all = self.catalogue();
        let ghost p = |t: ToolView| self.allowed().permits(t.server, t.remote_name);
        let mut kept: Vec<ToolSpec> = Vec::new();
        if self.allowed.is_empty() {
            proof {
                law_empty_allowlist_hides_all(all, self.allowed());
            }
            return kept;
        }
        let snapshot = self.registry.snapshot();
        let mut i: usize = 0;
        proof {
            reveal(Seq::filter);
            assert(all.take(0) =~= Seq::empty());
        }
        while i < snapshot.specs.len()
            invariant
                i <= all.len(),
                all == self.catalogue(),
                p == (|t: ToolView| self.allowed().permits(t.server, t.remote_name)),
                snapshot.shows(all),
                all_offered(kept@, all.take(i as int).filter(p)),
            decreases snapshot.specs.len() - i,
        {
            let ghost before = kept@;
            let ghost seen = all.take(i as int).filter(p);
            proof {
                lemma_filter_step(all, i as int, p);
            }
            let origin = &snapshot.tool_origins[i];
            if self.allowed.allows(origin.server, origin.remote_name.as_str()) {
                kept.push(snapshot.specs[i].clone());
                proof {
                    let now = all.take(i + 1).filter(p);
                    assert forall|j: int| 0 <= j < kept@.len() implies offers(
                        #[trigger] kept@[j],
                        now[j],
                    ) by {
                        if j < before.len() {
                            assert(kept@[j] == before[j]);
                            assert(now[j] == seen[j]);
                        }
                    }
                }
            }
            i += 1;
        }
        proof {
            assert(all.take(i as int) =~= all);
        }
        kept
    }

    /// The tool that is called `name`, if the agent sees it.
    pub fn get(&self, name: &str) -> (r: Option<&'a McpTool>)
        ensures
            match r {
                Some(t) => {
                    &&& t@.name == name@
                    &&& self.catalogue().contains(t@)
                    &&& self.allowed().permits(t@.server, t@.remote_name)
                },
                None => forall|i: int|
                    0 <= i < self.catalogue().len() && (#[trigger] self.catalogue()[i]).name == name@
                        ==> !self.allowed().permits(
                        self.catalogue()[i].server,
                        self.catalogue()[i].remote_name,
                    ),
            },
    {
        if self.allowed.is_empty() {
            return None;
        }
        match self.registry.lookup(name) {
            None => None,
            Some((tool, origin)) => {
                if self.allowed.allows(origin.server, origin.remote_name.as_str()) {
                    Some(tool)
                } else {
                    proof {
                        let all = self.catalogue();
                        let k = choose|k: int| 0 <= k < all.len() && all[k] == tool@;
                        assert forall|i: int|
                            0 <= i < all.len() && (#[trigger] all[i]).name
                                == name@ implies !self.allowed().permits(
                            all[i].server,
                            all[i].remote_name,
                        ) by {
                            lemma_text_lt_total(all[i].name, all[k].name);
                            if i < k {
                                assert(text_lt(all[i].name, all[k].name));
                            } else if k < i {
                                assert(text_lt(all[k].name, all[i].name));
                            }
                        }
                    }
                    None
                }
            },
        }
    }
}

/// An empty allowlist hides every tool.
pub proof fn law_empty_allowlist_hides_all(tools: Seq<ToolView>, allowed: AllowedMcpTools)
    requires
        allowed.entries().len() == 0,
    ensures
        visible(tools, allowed) == Seq::<ToolView>::empty(),
    decreases tools.len(),
{
    reveal(Seq::filter);
    if tools.len() > 0 {
        law_empty_allowlist_hides_all(tools.drop_last(), allowed);
    }
}

/// An agent sees a tool exactly when the catalogue has it and the allowlist
/// permits it: of a listed server every tool or those that are named, and of any
/// other server none.
pub proof fn law_seen_iff_permitted(tools: Seq<ToolView>, allowed: AllowedMcpTools, t: ToolView)
    ensures
        visible(tools, allowed).contains(t) <==> tools.contains(t) && allowed.permits(
            t.server,
            t.remote_name,
        ),
    decreases tools.len(),
{
    reveal(Seq::filter);
    let p = |t: ToolView| allowed.permits(t.server, t.remote_name);
    if tools.len() > 0 {
        let rest = tools.drop_last();
        law_seen_iff_permitted(rest, allowed, t);
        let before = rest.filter(p);
        let after = tools.filter(p);
        assert(before == visible(rest, allowed));
        assert(tools =~= rest.push(tools.last()));
        if tools.contains(t) {
            let i = choose|i: int| 0 <= i < tools.len() && tools[i] == t;
            if i < rest.len() {
                assert(rest[i] == t);
            }
        }
        if rest.contains(t) {
            let i = choose|i: int| 0 <= i < rest.len() && rest[i] == t;
            assert(tools[i] == t);
        }
        if after.contains(t) {
            let i = choose|i: int| 0 <= i < after.len() && after[i] == t;
            if i < before.len() {
                assert(before[i] == t);
            } else {
                assert(tools[tools.len() - 1] == t);
            }
        }
        if before.contains(t) {
            let i = choose|i: int| 0 <= i < before.len() && before[i] == t;
            assert(after[i] == t);
        }
        if t == tools.last() && p(t) {
            assert(after[after.len() - 1] == t);
        }
    }
}

/// An entry of the allowlist for a server without tools changes nothing: not an
/// error, and nothing more is seen.
pub proof fn law_dangling_entry_is_inert(
    tools: Seq<ToolView>,
    allowed: AllowedMcpTools,
    more: AllowedMcpTools,
    entry: AllowedServer,
)
    requires
        more.entries() == allowed.entries().push(entry),
        forall|i: int| 0 <= i < tools.len() ==> (#[trigger] tools[i]).server != entry.server,
    ensures
        visible(tools, more) == visible(tools, allowed),
    decreases tools.len(),
{
    reveal(Seq::filter);
    if tools.len() > 0 {
        let rest = tools.drop_last();
        assert forall|i: int| 0 <= i < rest.len() implies (#[trigger] rest[i]).server
            != entry.server by {
            assert(rest[i] == tools[i]);
        }
        law_dangling_entry_is_inert(rest, allowed, more, entry);
        let t = tools.last();
        assert(t == tools[tools.len() - 1]);
        assert(more.entries().drop_last() =~= allowed.entries());
        assert(allowed_entry(more.entries(), t.server) == allowed_entry(allowed.entries(), t.server));
    }
}

} // verus!
