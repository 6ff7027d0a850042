use vstd::prelude::*;
use crate::runtime::{
    dispose_trace, disposed_after, CleanupId, Runtime, RuntimeId, ScopeId, ScopeProperty, Teardown,
};

verus! {

/// A copyable reference to one scope of one runtime; the unit of ownership
/// and disposal. All of its state lives in the runtime.
#[derive(Clone, Copy, Debug, PartialEq, Eq, Structural)]
pub struct Scope {
    pub runtime: RuntimeId,
    pub id: ScopeId,
}

/// A one-shot capability that disposes the scope it was issued for.
pub struct ScopeDisposer(pub Scope);

/// A step of user code run inside a scope keeps the runtime well formed, keeps
/// its identity and never removes scopes.
pub open spec fn keeps_runtime(before: Runtime, after: Runtime) -> bool {
    &&& after.wf()
    &&& after.id == before.id
    &&& after.scopes@.len() >= before.scopes@.len()
}

/// `f` may run on the runtime that entering a new scope under `parent` of
/// `before` gives, with that scope, and keeps the runtime well formed.
pub open spec fn runs_in_scope<T, F: FnOnce(Runtime, Scope) -> (Runtime, T)>(
    f: F,
    before: Runtime,
    parent: Option<ScopeId>,
) -> bool {
    &&& forall|mid: Runtime|
        entered(before, mid, parent) ==> #[trigger] f.requires(
            (mid, Scope { runtime: before.id, id: ScopeId { index: before.scopes@.len() as usize } }),
        )
    &&& forall|r: Runtime, s: Scope, res: (Runtime, T)|
        #[trigger] f.ensures((r, s), res) ==> keeps_runtime(r, res.0)
}

/// `rt` with a new live scope under `parent` appended, and that scope as owner.
pub open spec fn entered(before: Runtime, rt: Runtime, parent: Option<ScopeId>) -> bool {
    let n = before.scopes@.len();
    &&& rt.wf()
    &&& rt.id == before.id
    &&& rt.scopes@.len() == n + 1
    &&& rt.scopes@.subrange(0, n as int) == before.scopes@
    &&& rt.scopes@[n as int].parent == parent
    &&& rt.scopes@[n as int].properties@.len() == 0
    &&& rt.scopes@[n as int].cleanups == 0
    &&& !rt.scopes@[n as int].disposed
    &&& rt.owner == Some(ScopeId { index: n as usize })
    &&& rt.observer == before.observer
    &&& rt.batching == before.batching
    &&& rt.dependencies@ == before.dependencies@
    &&& rt.pending_effects@ == before.pending_effects@
    &&& rt.effect_runs@ == before.effect_runs@
    &&& rt.fragments@ == before.fragments@
    &&& rt.loading@ == before.loading@
    &&& rt.boundaries@ == before.boundaries@
}

/// The outcome of running `f` in a new scope under `parent`: `f` ran on the
/// entered runtime and gave `(after, value)`, and `out` is `after` with the
/// previous owner restored.
pub open spec fn ran_in_scope<T, F: FnOnce(Runtime, Scope) -> (Runtime, T)>(
    before: Runtime,
    parent: Option<ScopeId>,
    f: F,
    out: Runtime,
    value: T,
) -> bool {
    exists|mid: Runtime, after: Runtime|
        {
            &&& entered(before, mid, parent)
            &&& #[trigger] f.ensures(
                (mid, Scope { runtime: before.id, id: ScopeId { index: before.scopes@.len() as usize } }),
                (after, value),
            )
            &&& out == (Runtime { owner: before.owner, ..after })
        }
}

/// Creates a scope under `parent`, runs `f` with it as owner, then restores
/// the previous owner.
fn run_in_new_scope<T, F: FnOnce(Runtime, Scope) -> (Runtime, T)>(
    runtime: Runtime,
    parent: Option<ScopeId>,
    f: F,
) -> (r: (Runtime, T, ScopeId))
    requires
        runtime.wf(),
        runtime.scopes@.len() < usize::MAX,
        parent matches Some(p) ==> runtime.has_scope(p) && !runtime.scopes@[p.index as int].disposed,
        runs_in_scope(f, runtime, parent),
    ensures
        r.2.index == runtime.scopes@.len(),
        r.0.wf(),
        r.0.id == runtime.id,
        r.0.owner == runtime.owner,
        r.0.has_scope(r.2),
        ran_in_scope(runtime, parent, f, r.0, r.1),
{
    let ghost before = runtime;
    let mut rt = runtime;
    let prev_owner = rt.owner;
    let id = rt.new_scope(parent);
    rt.owner = Some(id);
    let cx = Scope { runtime: rt.id, id };
    let ghost mid = rt;
    let (after, value) = f(rt, cx);
    let ghost after_g = after;
    let mut out = after;
    out.owner = prev_owner;
    proof {
        assert(entered(before, mid, parent));
        assert(out == (Runtime { owner: before.owner, ..after_g }));
    }
    (out, value, id)
}

/// Creates a root scope, runs `f` in it and returns the runtime with the
/// disposer of the new scope.
pub fn create_scope<F: FnOnce(Runtime, Scope) -> (Runtime, ())>(runtime: Runtime, f: F) -> (r: (Runtime, ScopeDisposer))
    requires
        runtime.wf(),
        runtime.scopes@.len() < usize::MAX,
        runs_in_scope(f, runtime, None),
    ensures
        r.0.wf(),
        r.0.owner == runtime.owner,
        r.1.0 == (Scope { runtime: runtime.id, id: ScopeId { index: runtime.scopes@.len() as usize } }),
        r.0.has_scope(r.1.0.id),
        ran_in_scope(runtime, None, f, r.0, ()),
{
    let id = runtime.id;
    let (rt, _, sid) = run_in_new_scope(runtime, None, f);
    (rt, ScopeDisposer(Scope { runtime: id, id: sid }))
}

/// Creates a root scope without running anything in it.
pub fn raw_scope_and_disposer(runtime: &mut Runtime) -> (r: (Scope, ScopeDisposer))
    requires
        old(runtime).wf(),
        old(runtime).scopes@.len() < usize::MAX,
    ensures
        final(runtime).wf(),
        r.0 == (Scope { runtime: old(runtime).id, id: ScopeId { index: old(runtime).scopes@.len() as usize } }),
        r.1.0 == r.0,
        final(runtime).scopes@.len() == old(runtime).scopes@.len() + 1,
        final(runtime).scopes@.subrange(0, old(runtime).scopes@.len() as int) == old(runtime).scopes@,
        final(runtime).scopes@[r.0.id.index as int].parent.is_none(),
        final(runtime).scopes@[r.0.id.index as int].properties@.len() == 0,
        final(runtime).scopes@[r.0.id.index as int].cleanups == 0,
        !final(runtime).scopes@[r.0.id.index as int].disposed,
        final(runtime).same_state_but_scopes(old(runtime)),
{
    let id = runtime.new_scope(None);
    let cx = Scope { runtime: runtime.id, id };
    (cx, ScopeDisposer(cx))
}

/// Creates a root scope, runs `f` in it, disposes the scope and returns what
/// `f` returned together with the teardown that disposal performed.
pub fn run_scope<T, F: FnOnce(Runtime, Scope) -> (Runtime, T)>(runtime: Runtime, f: F) -> (r: (Runtime, T, Vec<Teardown>))
    requires
        runtime.wf(),
        runtime.scopes@.len() < usize::MAX,
        runs_in_scope(f, runtime, None),
    ensures
        r.0.wf(),
        r.0.owner == runtime.owner,
        exists|ran: Runtime|
            {
                &&& #[trigger] ran_in_scope(runtime, None, f, ran, r.1)
                &&& r.2@ == dispose_trace(ran.scopes@, runtime.scopes@.len() as int)
                &&& disposed_after(ran.scopes@, r.0.scopes@, runtime.scopes@.len() as int)
            },
{
    let (rt, value, sid) = run_in_new_scope(runtime, None, f);
    let ghost ran = rt;
    let mut rt = rt;
    let trace = rt.dispose_scope(sid);
    let r = (rt, value, trace);
    assert(ran_in_scope(runtime, None, f, ran, r.1));
    assert(exists|ran: Runtime|
            {
                &&& #[trigger] ran_in_scope(runtime, None, f, ran, r.1)
                &&& r.2@ == dispose_trace(ran.scopes@, runtime.scopes@.len() as int)
                &&& disposed_after(ran.scopes@, r.0.scopes@, runtime.scopes@.len() as int)
            });
    r
}

/// Creates a root scope and runs `f` in it without disposing it.
pub fn run_scope_undisposed<T, F: FnOnce(Runtime, Scope) -> (Runtime, T)>(
    runtime: Runtime,
    f: F,
) -> (r: (Runtime, T, ScopeId, ScopeDisposer))
    requires
        runtime.wf(),
        runtime.scopes@.len() < usize::MAX,
        runs_in_scope(f, runtime, None),
    ensures
        r.0.wf(),
        r.0.owner == runtime.owner,
        r.2.index == runtime.scopes@.len(),
        r.3.0 == (Scope { runtime: runtime.id, id: r.2 }),
        r.0.has_scope(r.2),
        ran_in_scope(runtime, None, f, r.0, r.1),
{
    let id = runtime.id;
    let (rt, value, sid) = run_in_new_scope(runtime, None, f);
    (rt, value, sid, ScopeDisposer(Scope { runtime: id, id: sid }))
}

impl Scope {
    /// The unique identifier of this scope.
    pub fn id(&self) -> (r: ScopeId)
        ensures
            r == self.id,
    {
        self.id
    }

    /// Creates a child scope, runs `f` in it and returns its disposer.
    pub fn child_scope<F: FnOnce(Runtime, Scope) -> (Runtime, ())>(self, runtime: Runtime, f: F) -> (r: (Runtime, ScopeDisposer))
        requires
            runtime.wf(),
            runtime.scopes@.len() < usize::MAX,
            self.runtime == runtime.id,
            runtime.has_scope(self.id),
            !runtime.scopes@[self.id.index as int].disposed,
            runs_in_scope(f, runtime, Some(self.id)),
        ensures
            r.0.wf(),
            r.0.owner == runtime.owner,
            r.1.0 == (Scope { runtime: runtime.id, id: ScopeId { index: runtime.scopes@.len() as usize } }),
            r.0.has_scope(r.1.0.id),
            ran_in_scope(runtime, Some(self.id), f, r.0, ()),
    {
        let (rt, _, disposer) = self.run_child_scope(runtime, f);
        (rt, disposer)
    }

    /// Creates a child scope, runs `f` in it and returns what `f` returned and
    /// the child's disposer. The child is disposed with this scope unless it
    /// was disposed before.
    pub fn run_child_scope<T, F: FnOnce(Runtime, Scope) -> (Runtime, T)>(
        self,
        runtime: Runtime,
        f: F,
    ) -> (r: (Runtime, T, ScopeDisposer))
        requires
            runtime.wf(),
            runtime.scopes@.len() < usize::MAX,
            self.runtime == runtime.id,
            runtime.has_scope(self.id),
            !runtime.scopes@[self.id.index as int].disposed,
            runs_in_scope(f, runtime, Some(self.id)),
        ensures
            r.0.wf(),
            r.0.owner == runtime.owner,
            r.2.0 == (Scope { runtime: runtime.id, id: ScopeId { index: runtime.scopes@.len() as usize } }),
            r.0.has_scope(r.2.0.id),
            ran_in_scope(runtime, Some(self.id), f, r.0, r.1),
    {
        let (rt, value, sid) = run_in_new_scope(runtime, Some(self.id), f);
        (rt, value, ScopeDisposer(Scope { runtime: self.runtime, id: sid }))
    }

    /// Disposes this scope: first every live descendant, deepest first, then
    /// this scope's cleanups in registration order, then its entities. A scope
    /// of another runtime, or one already disposed, is left as it is.
    pub fn dispose(self, runtime: &mut Runtime) -> (r: Vec<Teardown>)
        requires
            old(runtime).wf(),
        ensures
            final(runtime).wf(),
            self.runtime == old(runtime).id && old(runtime).has_scope(self.id) ==> {
                &&& r@ == dispose_trace(old(runtime).scopes@, self.id.index as int)
                &&& disposed_after(old(runtime).scopes@, final(runtime).scopes@, self.id.index as int)
            },
            !(self.runtime == old(runtime).id && old(runtime).has_scope(self.id)) ==> {
                &&& r@.len() == 0
                &&& final(runtime).scopes@ == old(runtime).scopes@
            },
            final(runtime).id == old(runtime).id,
            final(runtime).observer == old(runtime).observer,
            final(runtime).owner == old(runtime).owner,
            final(runtime).batching == old(runtime).batching,
            final(runtime).dependencies@ == old(runtime).dependencies@,
            final(runtime).pending_effects@ == old(runtime).pending_effects@,
            final(runtime).effect_runs@ == old(runtime).effect_runs@,
            final(runtime).fragments@ == old(runtime).fragments@,
            final(runtime).loading@ == old(runtime).loading@,
            final(runtime).boundaries@ == old(runtime).boundaries@,
    {
        if self.runtime != runtime.id {
            return Vec::new();
        }
        runtime.dispose_scope(self.id)
    }
}

/// `f` may run on `start` and keeps the runtime well formed.
pub open spec fn runs_on<T, F: FnOnce(Runtime) -> (Runtime, T)>(f: F, start: Runtime) -> bool {
    &&& f.requires((start,))
    &&& forall|r: Runtime, res: (Runtime, T)| #[trigger] f.ensures((r,), res) ==> keeps_runtime(r, res.0)
}

/// The outcome of `untrack`: `f` ran on `before` with no observer and gave
/// `(after, value)`; `out` is `after` with the previous observer restored.
pub open spec fn ran_untracked<T, F: FnOnce(Runtime) -> (Runtime, T)>(before: Runtime, f: F, out: Runtime, value: T) -> bool {
    exists|after: Runtime|
        {
            &&& #[trigger] f.ensures((Runtime { observer: None, ..before },), (after, value))
            &&& out == (Runtime { observer: before.observer, ..after })
        }
}

/// The outcome of `batch` before effects run: `f` ran on `before` with
/// batching on and gave `(after, value)`; `closed` is `after` with the
/// previous batching flag restored.
pub open spec fn ran_batched<T, F: FnOnce(Runtime) -> (Runtime, T)>(before: Runtime, f: F, closed: Runtime, value: T) -> bool {
    exists|after: Runtime|
        {
            &&& #[trigger] f.ensures((Runtime { batching: true, ..before },), (after, value))
            &&& closed == (Runtime { batching: before.batching, ..after })
        }
}

/// `out` is `closed` after one pass of effect reruns: with batching off every
/// pending effect ran once, in order; inside an outer batch nothing ran.
pub open spec fn effects_flushed(closed: Runtime, out: Runtime) -> bool {
    &&& out.scopes@ == closed.scopes@
    &&& out.id == closed.id
    &&& out.observer == closed.observer
    &&& out.owner == closed.owner
    &&& out.batching == closed.batching
    &&& out.dependencies@ == closed.dependencies@
    &&& out.fragments@ == closed.fragments@
    &&& out.loading@ == closed.loading@
    &&& out.boundaries@ == closed.boundaries@
    &&& closed.batching ==> out.pending_effects@ == closed.pending_effects@
        && out.effect_runs@ == closed.effect_runs@
    &&& !closed.batching ==> out.pending_effects@.len() == 0
        && out.effect_runs@ == closed.effect_runs@ + closed.pending_effects@
}

impl Scope {
    /// Runs `f` with dependency tracking suspended: `f` sees no observer, so
    /// its reads are recorded against nothing, and the previous observer is in
    /// place again afterwards.
    pub fn untrack<T, F: FnOnce(Runtime) -> (Runtime, T)>(&self, runtime: Runtime, f: F) -> (r: (Runtime, T))
        requires
            runtime.wf(),
            self.runtime == runtime.id,
            runs_on(f, Runtime { observer: None, ..runtime }),
        ensures
            r.0.wf(),
            r.0.id == runtime.id,
            r.0.observer == runtime.observer,
            ran_untracked(runtime, f, r.0, r.1),
    {
        let mut rt = runtime;
        let prev = rt.observer;
        rt.observer = None;
        let (after, value) = f(rt);
        let mut out = after;
        out.observer = prev;
        (out, value)
    }

    /// Runs `f` with batching on, restores the previous batching flag, then
    /// runs one pass of pending effects. Effects marked inside `f` therefore
    /// run once, after `f`, and not while an outer batch is still open.
    pub fn batch<T, F: FnOnce(Runtime) -> (Runtime, T)>(&self, runtime: Runtime, f: F) -> (r: (Runtime, T))
        requires
            runtime.wf(),
            self.runtime == runtime.id,
            runs_on(f, Runtime { batching: true, ..runtime }),
        ensures
            r.0.wf(),
            r.0.id == runtime.id,
            r.0.batching == runtime.batching,
            exists|closed: Runtime|
                #[trigger] ran_batched(runtime, f, closed, r.1) && effects_flushed(closed, r.0),
    {
        let mut rt = runtime;
        let prev = rt.batching;
        rt.batching = true;
        let (after, value) = f(rt);
        let mut out = after;
        out.batching = prev;
        let ghost closed = out;
        out.run_effects();
        let r = (out, value);
        assert(ran_batched(runtime, f, closed, r.1) && effects_flushed(closed, r.0));
        r
    }

    /// Records `prop` as an entity of the current owner scope.
    pub fn push_scope_property(&self, runtime: &mut Runtime, prop: ScopeProperty)
        requires
            old(runtime).wf(),
            self.runtime == old(runtime).id,
        ensures
            final(runtime).wf(),
            final(runtime).same_state_but_scopes(old(runtime)),
            final(runtime).scopes@.len() == old(runtime).scopes@.len(),
            match old(runtime).owner {
                Some(o) if o.index < old(runtime).scopes@.len() => {
                    &&& final(runtime).scopes@[o.index as int].properties@
                        == old(runtime).scopes@[o.index as int].properties@.push(prop)
                    &&& forall|j: int| 0 <= j < old(runtime).scopes@.len() && j != o.index
                        ==> #[trigger] final(runtime).scopes@[j] == old(runtime).scopes@[j]
                },
                _ => final(runtime).scopes@ == old(runtime).scopes@,
            },
    {
        runtime.register_property(prop);
    }
}

/// The state change of registering a cleanup: with a current owner known to
/// the runtime, one more callback on the owner's list, named by `r`; with
/// none, nothing changes and `r` is `None`.
pub open spec fn pushed_cleanup(before: Runtime, after: Runtime, r: Option<CleanupId>) -> bool {
    &&& after.wf()
    &&& after.same_state_but_scopes(&before)
    &&& after.scopes@.len() == before.scopes@.len()
    &&& match before.owner {
        Some(o) if o.index < before.scopes@.len() => {
            let s = before.scopes@[o.index as int];
            &&& r == Some(CleanupId { scope: o, slot: s.cleanups })
            &&& after.scopes@[o.index as int].cleanups == s.cleanups + 1
            &&& after.scopes@[o.index as int].parent == s.parent
            &&& after.scopes@[o.index as int].properties@ == s.properties@
            &&& after.scopes@[o.index as int].disposed == s.disposed
            &&& forall|j: int| 0 <= j < before.scopes@.len() && j != o.index
                ==> #[trigger] after.scopes@[j] == before.scopes@[j]
        },
        _ => r.is_none() && after.scopes@ == before.scopes@,
    }
}

/// The owner's cleanup list can take one more callback.
pub open spec fn cleanup_room(rt: Runtime) -> bool {
    match rt.owner {
        Some(o) => o.index < rt.scopes@.len() ==> rt.scopes@[o.index as int].cleanups < usize::MAX,
        None => true,
    }
}

/// Adds one cleanup callback to the list of the current owner scope and
/// returns its id; with no owner nothing is registered.
pub fn push_cleanup(cx: Scope, runtime: &mut Runtime) -> (r: Option<CleanupId>)
    requires
        old(runtime).wf(),
        cx.runtime == old(runtime).id,
        cleanup_room(*old(runtime)),
    ensures
        pushed_cleanup(*old(runtime), *final(runtime), r),
{
    match runtime.owner {
        Some(o) => {
            if o.index < runtime.scopes.len() {
                let slot = runtime.scopes[o.index].cleanups;
                runtime.scopes[o.index].cleanups = slot + 1;
                Some(CleanupId { scope: o, slot })
            } else {
                None
            }
        },
        None => None,
    }
}

/// Registers a cleanup callback on the current owner scope (inside the
/// function run for scope `cx`, that is `cx`); it runs when that scope is
/// disposed, after its child scopes and before its entities are invalidated.
/// The returned id is what disposal reports when the callback is due.
pub fn on_cleanup(cx: Scope, runtime: &mut Runtime) -> (r: Option<CleanupId>)
    requires
        old(runtime).wf(),
        cx.runtime == old(runtime).id,
        cleanup_room(*old(runtime)),
    ensures
        pushed_cleanup(*old(runtime), *final(runtime), r),
{
    push_cleanup(cx, runtime)
}

impl ScopeDisposer {
    /// Disposes the scope this disposer was issued for, as [`Scope::dispose`].
    pub fn dispose(self, runtime: &mut Runtime) -> (r: Vec<Teardown>)
        requires
            old(runtime).wf(),
        ensures
            final(runtime).wf(),
            self.0.runtime == old(runtime).id && old(runtime).has_scope(self.0.id) ==> {
                &&& r@ == dispose_trace(old(runtime).scopes@, self.0.id.index as int)
                &&& disposed_after(old(runtime).scopes@, final(runtime).scopes@, self.0.id.index as int)
            },
            !(self.0.runtime == old(runtime).id && old(runtime).has_scope(self.0.id)) ==> {
                &&& r@.len() == 0
                &&& final(runtime).scopes@ == old(runtime).scopes@
            },
            final(runtime).same_state_but_scopes(old(runtime)),
    {
        self.0.dispose(runtime)
    }
}

} // verus!
