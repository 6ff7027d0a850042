use vstd::prelude::*;

verus! {

/// Identifies one runtime instance.
#[derive(Clone, Copy, Debug, PartialEq, Eq, Structural)]
pub struct RuntimeId {
    pub id: u64,
}

/// Unique key of a scope within its runtime's scope table.
#[derive(Clone, Copy, Debug, PartialEq, Eq, Hash, Structural)]
pub struct ScopeId {
    pub index: usize,
}

/// Handle of a reactive node (trigger, signal, memo or effect).
#[derive(Clone, Copy, Debug, PartialEq, Eq, Structural)]
pub struct NodeId {
    pub id: u64,
}

/// Handle of an async resource.
#[derive(Clone, Copy, Debug, PartialEq, Eq, Hash, Structural)]
pub struct ResourceId {
    pub id: u64,
}

/// Handle of a stored value.
#[derive(Clone, Copy, Debug, PartialEq, Eq, Structural)]
pub struct StoredValueId {
    pub id: u64,
}

/// An entity owned by a scope.
#[derive(Clone, Copy, Debug, PartialEq, Eq, Structural)]
pub enum ScopeProperty {
    Trigger(NodeId),
    Signal(NodeId),
    Effect(NodeId),
    Resource(ResourceId),
    StoredValue(StoredValueId),
}

/// Names one registered cleanup callback: the scope it belongs to and its
/// position in that scope's cleanup list.
#[derive(Clone, Copy, Debug, PartialEq, Eq, Hash, Structural)]
pub struct CleanupId {
    pub scope: ScopeId,
    pub slot: usize,
}

/// One step of tearing a scope down, in the order disposal performs them.
#[derive(Clone, Copy, Debug, PartialEq, Eq, Structural)]
pub enum Teardown {
    /// Run the cleanup callback registered under this id.
    Cleanup(CleanupId),
    /// The entity becomes unreachable.
    Invalidate(ScopeProperty),
}

/// What the runtime records for one scope.
pub struct ScopeState {
    pub parent: Option<ScopeId>,
    pub properties: Vec<ScopeProperty>,
    /// Number of cleanup callbacks registered on this scope.
    pub cleanups: usize,
    pub disposed: bool,
}

/// A reactive runtime: the scope forest, the ambient tracking state, the
/// effect queue and the pending streaming fragments.
pub struct Runtime {
    pub id: RuntimeId,
    pub scopes: Vec<ScopeState>,
    /// The node currently recording its dependencies, if any.
    pub observer: Option<NodeId>,
    /// The scope currently accumulating new entities, if any.
    pub owner: Option<ScopeId>,
    /// While set, effects that become dirty wait in `pending_effects`.
    pub batching: bool,
    /// Recorded dependencies: `(observer, source)`.
    pub dependencies: Vec<(NodeId, NodeId)>,
    /// Effects that must rerun, each at most once.
    pub pending_effects: Vec<NodeId>,
    /// Every effect run so far, in order.
    pub effect_runs: Vec<NodeId>,
    pub fragments: Vec<crate::suspense::Fragment>,
    /// Resources still waiting for their value from the server.
    pub loading: Vec<ResourceId>,
    /// Pending count and readiness of every registered suspense boundary,
    /// kept when its fragment is taken.
    pub boundaries: Vec<crate::suspense::Boundary>,
}

impl ScopeProperty {
    pub open spec fn node_of(self) -> Option<NodeId> {
        match self {
            ScopeProperty::Trigger(n) => Some(n),
            ScopeProperty::Signal(n) => Some(n),
            ScopeProperty::Effect(n) => Some(n),
            _ => None,
        }
    }

    /// The reactive node behind this entity, if it is one.
    pub fn to_node_id(self) -> (r: Option<NodeId>)
        ensures
            r == self.node_of(),
    {
        match self {
            ScopeProperty::Trigger(node) => Some(node),
            ScopeProperty::Signal(node) => Some(node),
            ScopeProperty::Effect(node) => Some(node),
            _ => None,
        }
    }
}


/// Whether scope `s` is `root` or lies below it, following parent links.
pub open spec fn descends(scopes: Seq<ScopeState>, s: int, root: int) -> bool
    decreases s,
{
    if s == root {
        true
    } else if s <= root || s >= scopes.len() {
        false
    } else {
        match scopes[s].parent {
            Some(p) => p.index < s && descends(scopes, p.index as int, root),
            None => false,
        }
    }
}

/// What tearing down scope `i` itself performs: its cleanups in registration
/// order, then the invalidation of its entities in registration order.
pub open spec fn teardown_of(scopes: Seq<ScopeState>, i: int) -> Seq<Teardown> {
    Seq::new(
        scopes[i].cleanups as nat,
        |k: int| Teardown::Cleanup(CleanupId { scope: ScopeId { index: i as usize }, slot: k as usize }),
    ) + scopes[i].properties@.map_values(|p: ScopeProperty| Teardown::Invalidate(p))
}

/// The teardown of scope `i` during disposal of `root`: empty unless `i` is a
/// live scope of the subtree.
pub open spec fn step_of(scopes: Seq<ScopeState>, root: int, i: int) -> Seq<Teardown> {
    if !scopes[i].disposed && descends(scopes, i, root) {
        teardown_of(scopes, i)
    } else {
        Seq::empty()
    }
}

/// Teardown of the subtree members with index at least `i`, highest index
/// first. A child's index exceeds its parent's, so every scope comes after all
/// of its descendants.
pub open spec fn trace_from(scopes: Seq<ScopeState>, root: int, i: int) -> Seq<Teardown>
    decreases scopes.len() - i,
{
    if i < 0 || i >= scopes.len() {
        Seq::empty()
    } else {
        trace_from(scopes, root, i + 1) + step_of(scopes, root, i)
    }
}

/// Everything disposing `root` performs, in order.
pub open spec fn dispose_trace(scopes: Seq<ScopeState>, root: int) -> Seq<Teardown> {
    trace_from(scopes, root, root)
}

/// The scope table after disposing `root`.
pub open spec fn disposed_after(old_scopes: Seq<ScopeState>, new_scopes: Seq<ScopeState>, root: int) -> bool {
    &&& new_scopes.len() == old_scopes.len()
    &&& forall|j: int|
        0 <= j < old_scopes.len() ==> {
            &&& (#[trigger] new_scopes[j]).parent == old_scopes[j].parent
            &&& new_scopes[j].properties@ == old_scopes[j].properties@
            &&& new_scopes[j].cleanups == old_scopes[j].cleanups
            &&& new_scopes[j].disposed == (old_scopes[j].disposed || descends(old_scopes, j, root))
        }
}

/// The dependency list after a read of `source` under `observer`.
pub open spec fn after_read(
    deps: Seq<(NodeId, NodeId)>,
    observer: Option<NodeId>,
    source: NodeId,
) -> Seq<(NodeId, NodeId)> {
    match observer {
        Some(o) => deps.push((o, source)),
        None => deps,
    }
}

/// The pending effects after `effect` is marked: added unless already there.
pub open spec fn mark_dirty(pending: Seq<NodeId>, effect: NodeId) -> Seq<NodeId> {
    if pending.contains(effect) {
        pending
    } else {
        pending.push(effect)
    }
}

/// The resources among `props`, in order.
pub open spec fn resources_in(props: Seq<ScopeProperty>) -> Seq<ResourceId>
    decreases props.len(),
{
    if props.len() == 0 {
        Seq::empty()
    } else {
        resources_in(props.drop_last()) + match props.last() {
            ScopeProperty::Resource(r) => seq![r],
            _ => Seq::empty(),
        }
    }
}

/// The resources owned by the live scopes among the first `n`, in scope order.
pub open spec fn live_resources(scopes: Seq<ScopeState>, n: int) -> Seq<ResourceId>
    decreases n,
{
    if n <= 0 || n > scopes.len() {
        Seq::empty()
    } else {
        live_resources(scopes, n - 1) + if scopes[n - 1].disposed {
            Seq::empty()
        } else {
            resources_in(scopes[n - 1].properties@)
        }
    }
}

/// `s` with every occurrence of `id` removed.
pub open spec fn without(s: Seq<ResourceId>, id: ResourceId) -> Seq<ResourceId>
    decreases s.len(),
{
    if s.len() == 0 {
        Seq::empty()
    } else {
        without(s.drop_last(), id) + if s.last() == id {
            Seq::empty()
        } else {
            seq![s.last()]
        }
    }
}

pub open spec fn same_parents(a: Seq<ScopeState>, b: Seq<ScopeState>) -> bool {
    a.len() == b.len() && forall|j: int| 0 <= j < a.len() ==> (#[trigger] a[j]).parent == b[j].parent
}

pub proof fn lemma_descends_parents(a: Seq<ScopeState>, b: Seq<ScopeState>, s: int, root: int)
    requires
        same_parents(a, b),
    ensures
        descends(a, s, root) == descends(b, s, root),
    decreases s,
{
    if s == root || s <= root || s >= a.len() {
    } else {
        match a[s].parent {
            Some(p) => {
                if p.index < s {
                    lemma_descends_parents(a, b, p.index as int, root);
                }
            },
            None => {},
        }
    }
}

impl Runtime {
    /// The structural invariant: every parent was created before its children.
    pub open spec fn wf(&self) -> bool {
        &&& forall|i: int|
            0 <= i < self.scopes@.len() ==> match (#[trigger] self.scopes@[i]).parent {
                Some(p) => p.index < i,
                None => true,
            }
        &&& forall|a: int, b: int|
            0 <= a < b < self.pending_effects@.len() ==> self.pending_effects@[a]
                != self.pending_effects@[b]
        &&& forall|a: int, b: int|
            0 <= a < b < self.fragments@.len() ==> self.fragments@[a].key@
                != self.fragments@[b].key@
        &&& forall|a: int, b: int|
            0 <= a < b < self.boundaries@.len() ==> self.boundaries@[a].key@
                != self.boundaries@[b].key@
    }

    pub open spec fn has_scope(&self, s: ScopeId) -> bool {
        s.index < self.scopes@.len()
    }

    /// A fresh runtime with no scopes.
    pub fn new(id: RuntimeId) -> (r: Runtime)
        ensures
            r.wf(),
            r.id == id,
            r.scopes@.len() == 0,
            r.observer.is_none(),
            r.owner.is_none(),
            !r.batching,
            r.dependencies@.len() == 0,
            r.pending_effects@.len() == 0,
            r.effect_runs@.len() == 0,
            r.fragments@.len() == 0,
            r.loading@.len() == 0,
            r.boundaries@.len() == 0,
    {
        Runtime {
            id,
            scopes: Vec::new(),
            observer: None,
            owner: None,
            batching: false,
            dependencies: Vec::new(),
            pending_effects: Vec::new(),
            effect_runs: Vec::new(),
            fragments: Vec::new(),
            loading: Vec::new(),
            boundaries: Vec::new(),
        }
    }

    /// Adds a live scope with no entities under `parent` (a root when `None`).
    pub fn new_scope(&mut self, parent: Option<ScopeId>) -> (r: ScopeId)
        requires
            old(self).wf(),
            old(self).scopes@.len() < usize::MAX,
            parent matches Some(p) ==> old(self).has_scope(p) && !old(self).scopes@[p.index as int].disposed,
        ensures
            final(self).wf(),
            r.index == old(self).scopes@.len(),
            final(self).scopes@.len() == old(self).scopes@.len() + 1,
            final(self).scopes@.subrange(0, r.index as int) == old(self).scopes@,
            final(self).scopes@[r.index as int].parent == parent,
            final(self).scopes@[r.index as int].properties@.len() == 0,
            final(self).scopes@[r.index as int].cleanups == 0,
            !final(self).scopes@[r.index as int].disposed,
            final(self).id == old(self).id,
            final(self).observer == old(self).observer,
            final(self).owner == old(self).owner,
            final(self).batching == old(self).batching,
            final(self).dependencies@ == old(self).dependencies@,
            final(self).pending_effects@ == old(self).pending_effects@,
            final(self).effect_runs@ == old(self).effect_runs@,
            final(self).fragments@ == old(self).fragments@,
            final(self).loading@ == old(self).loading@,
            final(self).boundaries@ == old(self).boundaries@,
    {
        let r = ScopeId { index: self.scopes.len() };
        self.scopes.push(ScopeState { parent, properties: Vec::new(), cleanups: 0, disposed: false });
        assert(final(self).scopes@.subrange(0, r.index as int) =~= old(self).scopes@);
        r
    }

    /// Whether scope `s` is `root` or one of its descendants.
    pub fn within(&self, s: ScopeId, root: ScopeId) -> (r: bool)
        requires
            self.wf(),
            self.has_scope(s),
        ensures
            r == descends(self.scopes@, s.index as int, root.index as int),
    {
        let mut cur: usize = s.index;
        while cur > root.index
            invariant
                self.wf(),
                cur < self.scopes@.len(),
                descends(self.scopes@, s.index as int, root.index as int) == descends(
                    self.scopes@,
                    cur as int,
                    root.index as int,
                ),
            decreases cur,
        {
            match self.scopes[cur].parent {
                Some(p) => {
                    cur = p.index;
                },
                None => {
                    return false;
                },
            }
        }
        cur == root.index
    }

    /// Tears down scope `root` and its whole subtree.
    ///
    /// Every live scope of the subtree is torn down once, after all of its
    /// descendants: its cleanups run, then its entities are invalidated. The
    /// returned list is that sequence of steps. Scopes already disposed are
    /// skipped, so disposing twice is the same as disposing once; an unknown
    /// scope yields nothing.
    pub fn dispose_scope(&mut self, root: ScopeId) -> (r: Vec<Teardown>)
        requires
            old(self).wf(),
        ensures
            final(self).wf(),
            old(self).has_scope(root) ==> r@ == dispose_trace(old(self).scopes@, root.index as int),
            old(self).has_scope(root) ==> disposed_after(old(self).scopes@, final(self).scopes@, root.index as int),
            !old(self).has_scope(root) ==> r@.len() == 0 && final(self).scopes@ == old(self).scopes@,
            final(self).id == old(self).id,
            final(self).observer == old(self).observer,
            final(self).owner == old(self).owner,
            final(self).batching == old(self).batching,
            final(self).dependencies@ == old(self).dependencies@,
            final(self).pending_effects@ == old(self).pending_effects@,
            final(self).effect_runs@ == old(self).effect_runs@,
            final(self).fragments@ == old(self).fragments@,
            final(self).loading@ == old(self).loading@,
            final(self).boundaries@ == old(self).boundaries@,
    {
        let mut out: Vec<Teardown> = Vec::new();
        if root.index >= self.scopes.len() {
            return out;
        }
        let ghost old_scopes = self.scopes@;
        let ghost rt = root.index as int;
        let mut i: usize = self.scopes.len();
        while i > root.index
            invariant
                self.wf(),
                root.index <= i <= old_scopes.len(),
                rt == root.index as int,
                old_scopes == old(self).scopes@,
                self.scopes@.len() == old_scopes.len(),
                same_parents(self.scopes@, old_scopes),
                forall|j: int| 0 <= j < i ==> #[trigger] self.scopes@[j] == old_scopes[j],
                forall|j: int|
                    i <= j < old_scopes.len() ==> {
                        &&& (#[trigger] self.scopes@[j]).parent == old_scopes[j].parent
                        &&& self.scopes@[j].properties@ == old_scopes[j].properties@
                        &&& self.scopes@[j].cleanups == old_scopes[j].cleanups
                        &&& self.scopes@[j].disposed == (old_scopes[j].disposed || descends(old_scopes, j, rt))
                    },
                out@ == trace_from(old_scopes, rt, i as int),
                self.id == old(self).id,
                self.observer == old(self).observer,
                self.owner == old(self).owner,
                self.batching == old(self).batching,
                self.dependencies@ == old(self).dependencies@,
                self.pending_effects@ == old(self).pending_effects@,
                self.effect_runs@ == old(self).effect_runs@,
                self.fragments@ == old(self).fragments@,
                self.loading@ == old(self).loading@,
                self.boundaries@ == old(self).boundaries@,
            decreases i,
        {
            i = i - 1;
            let ghost before = self.scopes@;
            assert(before[i as int] == old_scopes[i as int]);
            let inside = self.within(ScopeId { index: i }, root);
            let live = !self.scopes[i].disposed && inside;
            proof {
                lemma_descends_parents(self.scopes@, old_scopes, i as int, rt);
            }
            if live {
                let ghost start = out@;
                let n = self.scopes[i].cleanups;
                let mut k: usize = 0;
                while k < n
                    invariant
                        k <= n,
                        self.scopes@ == before,
                        n == old_scopes[i as int].cleanups,
                        i < old_scopes.len(),
                        out@ == start + Seq::new(
                            k as nat,
                            |m: int| Teardown::Cleanup(CleanupId { scope: ScopeId { index: i as usize }, slot: m as usize }),
                        ),
                    decreases n - k,
                {
                    out.push(Teardown::Cleanup(CleanupId { scope: ScopeId { index: i }, slot: k }));
                    k = k + 1;
                    assert(out@ =~= start + Seq::new(
                        k as nat,
                        |m: int| Teardown::Cleanup(CleanupId { scope: ScopeId { index: i as usize }, slot: m as usize }),
                    ));
                }
                let ghost mid = out@;
                let mut q: usize = 0;
                while q < self.scopes[i].properties.len()
                    invariant
                        i < self.scopes@.len(),
                        self.scopes@ == before,
                        q <= self.scopes@[i as int].properties@.len(),
                        out@ == mid + self.scopes@[i as int].properties@.subrange(0, q as int).map_values(
                            |p: ScopeProperty| Teardown::Invalidate(p),
                        ),
                    decreases self.scopes@[i as int].properties@.len() - q,
                {
                    out.push(Teardown::Invalidate(self.scopes[i].properties[q]));
                    q = q + 1;
                    assert(out@ =~= mid + self.scopes@[i as int].properties@.subrange(0, q as int).map_values(
                        |p: ScopeProperty| Teardown::Invalidate(p),
                    ));
                }
                assert(self.scopes@[i as int].properties@.subrange(0, q as int) =~= self.scopes@[i as int].properties@);
                assert(out@ =~= trace_from(old_scopes, rt, i as int + 1) + teardown_of(old_scopes, i as int));
                assert(step_of(old_scopes, rt, i as int) == teardown_of(old_scopes, i as int));
                self.scopes[i].disposed = true;
                assert(self.scopes@[i as int].disposed);
                assert(self.scopes@[i as int].parent == old_scopes[i as int].parent);
            } else {
                assert(step_of(old_scopes, rt, i as int) =~= Seq::empty());
                assert(out@ =~= trace_from(old_scopes, rt, i as int + 1) + step_of(old_scopes, rt, i as int));
            }
            assert(out@ == trace_from(old_scopes, rt, i as int));
            assert(same_parents(self.scopes@, old_scopes));
        }
        proof {
            assert forall|j: int| 0 <= j < old_scopes.len() implies (#[trigger] self.scopes@[j]).disposed == (old_scopes[j].disposed || descends(old_scopes, j, rt)) by {
                if j < rt {
                }
            }
        }
        out
    }

    /// Every field but the scope table is as in `other`.
    pub open spec fn same_state_but_scopes(&self, other: &Runtime) -> bool {
        &&& self.id == other.id
        &&& self.observer == other.observer
        &&& self.owner == other.owner
        &&& self.batching == other.batching
        &&& self.dependencies@ == other.dependencies@
        &&& self.pending_effects@ == other.pending_effects@
        &&& self.effect_runs@ == other.effect_runs@
        &&& self.fragments@ == other.fragments@
        &&& self.loading@ == other.loading@
        &&& self.boundaries@ == other.boundaries@
    }

    /// Appends `prop` to the entities of the current owner; with no owner, or
    /// an owner unknown to this runtime, nothing is recorded.
    pub fn register_property(&mut self, prop: ScopeProperty)
        requires
            old(self).wf(),
        ensures
            final(self).wf(),
            final(self).same_state_but_scopes(old(self)),
            final(self).scopes@.len() == old(self).scopes@.len(),
            match old(self).owner {
                Some(o) if o.index < old(self).scopes@.len() => {
                    let s = old(self).scopes@[o.index as int];
                    &&& final(self).scopes@[o.index as int].properties@ == s.properties@.push(prop)
                    &&& final(self).scopes@[o.index as int].parent == s.parent
                    &&& final(self).scopes@[o.index as int].cleanups == s.cleanups
                    &&& final(self).scopes@[o.index as int].disposed == s.disposed
                    &&& forall|j: int| 0 <= j < old(self).scopes@.len() && j != o.index ==> #[trigger] final(self).scopes@[j] == old(self).scopes@[j]
                },
                _ => final(self).scopes@ == old(self).scopes@,
            },
    {
        if let Some(o) = self.owner {
            if o.index < self.scopes.len() {
                self.scopes[o.index].properties.push(prop);
            }
        }
    }

    /// A read of `source`: recorded as a dependency of the current observer,
    /// if there is one.
    pub fn record_read(&mut self, source: NodeId)
        requires
            old(self).wf(),
        ensures
            final(self).wf(),
            final(self).scopes@ == old(self).scopes@,
            final(self).id == old(self).id,
            final(self).observer == old(self).observer,
            final(self).owner == old(self).owner,
            final(self).batching == old(self).batching,
            final(self).pending_effects@ == old(self).pending_effects@,
            final(self).effect_runs@ == old(self).effect_runs@,
            final(self).fragments@ == old(self).fragments@,
            final(self).loading@ == old(self).loading@,
            final(self).boundaries@ == old(self).boundaries@,
            final(self).dependencies@ == after_read(old(self).dependencies@, old(self).observer, source),
    {
        if let Some(o) = self.observer {
            self.dependencies.push((o, source));
        }
    }

    /// Runs every pending effect once, in the order they became pending,
    /// unless a batch is open.
    pub fn run_effects(&mut self)
        requires
            old(self).wf(),
        ensures
            final(self).wf(),
            final(self).scopes@ == old(self).scopes@,
            final(self).id == old(self).id,
            final(self).observer == old(self).observer,
            final(self).owner == old(self).owner,
            final(self).batching == old(self).batching,
            final(self).dependencies@ == old(self).dependencies@,
            final(self).fragments@ == old(self).fragments@,
            final(self).loading@ == old(self).loading@,
            final(self).boundaries@ == old(self).boundaries@,
            old(self).batching ==> final(self).pending_effects@ == old(self).pending_effects@
                && final(self).effect_runs@ == old(self).effect_runs@,
            !old(self).batching ==> final(self).pending_effects@.len() == 0
                && final(self).effect_runs@ == old(self).effect_runs@ + old(self).pending_effects@,
    {
        if self.batching {
            return;
        }
        let mut k: usize = 0;
        while k < self.pending_effects.len()
            invariant
                self.wf(),
                !self.batching,
                k <= self.pending_effects@.len(),
                self.scopes@ == old(self).scopes@,
                self.id == old(self).id,
                self.observer == old(self).observer,
                self.owner == old(self).owner,
                self.dependencies@ == old(self).dependencies@,
                self.fragments@ == old(self).fragments@,
                self.loading@ == old(self).loading@,
                self.boundaries@ == old(self).boundaries@,
                self.pending_effects@ == old(self).pending_effects@,
                self.effect_runs@ == old(self).effect_runs@ + old(self).pending_effects@.subrange(0, k as int),
            decreases self.pending_effects@.len() - k,
        {
            let e = self.pending_effects[k];
            self.effect_runs.push(e);
            k = k + 1;
            assert(self.effect_runs@ =~= old(self).effect_runs@ + old(self).pending_effects@.subrange(0, k as int));
        }
        assert(old(self).pending_effects@.subrange(0, k as int) =~= old(self).pending_effects@);
        self.pending_effects = Vec::new();
    }

    /// Marks `effect` as needing to rerun (once, however often it is marked),
    /// then runs the pending effects unless a batch is open.
    pub fn notify_effect(&mut self, effect: NodeId)
        requires
            old(self).wf(),
        ensures
            final(self).wf(),
            final(self).scopes@ == old(self).scopes@,
            final(self).id == old(self).id,
            final(self).observer == old(self).observer,
            final(self).owner == old(self).owner,
            final(self).batching == old(self).batching,
            final(self).dependencies@ == old(self).dependencies@,
            final(self).fragments@ == old(self).fragments@,
            final(self).loading@ == old(self).loading@,
            final(self).boundaries@ == old(self).boundaries@,
            old(self).batching ==> final(self).effect_runs@ == old(self).effect_runs@
                && final(self).pending_effects@ == mark_dirty(old(self).pending_effects@, effect),
            !old(self).batching ==> final(self).pending_effects@.len() == 0
                && final(self).effect_runs@ == old(self).effect_runs@ + mark_dirty(old(self).pending_effects@, effect),
    {
        let mut found = false;
        let mut k: usize = 0;
        while k < self.pending_effects.len()
            invariant
                k <= self.pending_effects@.len(),
                found == self.pending_effects@.subrange(0, k as int).contains(effect),
            decreases self.pending_effects@.len() - k,
        {
            let ghost prev = self.pending_effects@.subrange(0, k as int);
            if self.pending_effects[k] == effect {
                found = true;
            }
            k = k + 1;
            let ghost cur = self.pending_effects@.subrange(0, k as int);
            assert(cur =~= prev.push(self.pending_effects@[k as int - 1]));
            proof {
            if found {
                if cur[k as int - 1] != effect {
                    let w = choose|w: int| 0 <= w < prev.len() && prev[w] == effect;
                    assert(cur[w] == effect);
                } else {
                    assert(cur[k as int - 1] == effect);
                }
            } else {
                assert forall|w: int| 0 <= w < cur.len() implies cur[w] != effect by {
                    if w < prev.len() {
                        assert(prev[w] == cur[w]);
                    }
                }
            }
            }
        }
        assert(self.pending_effects@.subrange(0, k as int) =~= self.pending_effects@);
        if !found {
            self.pending_effects.push(effect);
        }
        self.run_effects();
    }

    /// The resources owned by live scopes, in scope order and, within a
    /// scope, in registration order.
    pub fn live_resource_ids(&self) -> (r: Vec<ResourceId>)
        ensures
            r@ == live_resources(self.scopes@, self.scopes@.len() as int),
    {
        let mut out: Vec<ResourceId> = Vec::new();
        let mut i: usize = 0;
        while i < self.scopes.len()
            invariant
                i <= self.scopes@.len(),
                out@ == live_resources(self.scopes@, i as int),
            decreases self.scopes@.len() - i,
        {
            let ghost start = out@;
            if !self.scopes[i].disposed {
                let props = &self.scopes[i].properties;
                let mut q: usize = 0;
                while q < props.len()
                    invariant
                        q <= props@.len(),
                        out@ == start + resources_in(props@.subrange(0, q as int)),
                    decreases props@.len() - q,
                {
                    assert(props@.subrange(0, q as int + 1).drop_last() =~= props@.subrange(0, q as int));
                    match props[q] {
                        ScopeProperty::Resource(rid) => {
                            out.push(rid);
                            assert(out@ =~= start + resources_in(props@.subrange(0, q as int + 1)));
                        },
                        _ => {
                            assert(out@ =~= start + resources_in(props@.subrange(0, q as int + 1)));
                        },
                    }
                    q = q + 1;
                }
                assert(props@.subrange(0, q as int) =~= props@);
            } else {
                assert(out@ =~= start + Seq::empty());
            }
            i = i + 1;
        }
        out
    }

    /// Marks resource `id` as waiting for its value from the server, or as
    /// resolved.
    pub fn set_resource_loading(&mut self, id: ResourceId, loading: bool)
        requires
            old(self).wf(),
        ensures
            final(self).wf(),
            final(self).scopes@ == old(self).scopes@,
            final(self).id == old(self).id,
            final(self).observer == old(self).observer,
            final(self).owner == old(self).owner,
            final(self).batching == old(self).batching,
            final(self).dependencies@ == old(self).dependencies@,
            final(self).pending_effects@ == old(self).pending_effects@,
            final(self).effect_runs@ == old(self).effect_runs@,
            final(self).fragments@ == old(self).fragments@,
            final(self).loading@ == without(old(self).loading@, id) + if loading {
                seq![id]
            } else {
                Seq::empty()
            },
    {
        let mut kept: Vec<ResourceId> = Vec::new();
        let mut k: usize = 0;
        while k < self.loading.len()
            invariant
                k <= self.loading@.len(),
                kept@ == without(self.loading@.subrange(0, k as int), id),
            decreases self.loading@.len() - k,
        {
            let x = self.loading[k];
            assert(self.loading@.subrange(0, k as int + 1).drop_last() =~= self.loading@.subrange(0, k as int));
            if x != id {
                kept.push(x);
            }
            k = k + 1;
        }
        assert(self.loading@.subrange(0, k as int) =~= self.loading@);
        if loading {
            kept.push(id);
        }
        proof {
            if !loading {
                assert(kept@ =~= without(old(self).loading@, id) + Seq::empty());
            }
        }
        self.loading = kept;
    }

    /// Whether resource `id` is waiting for its value from the server.
    pub fn is_loading(&self, id: ResourceId) -> (r: bool)
        ensures
            r == self.loading@.contains(id),
    {
        let mut k: usize = 0;
        while k < self.loading.len()
            invariant
                k <= self.loading@.len(),
                forall|j: int| 0 <= j < k ==> self.loading@[j] != id,
            decreases self.loading@.len() - k,
        {
            if self.loading[k] == id {
                return true;
            }
            k = k + 1;
        }
        false
    }
}

} // verus!
