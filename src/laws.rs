//! Properties that relate several operations of the runtime, proved over the
//! spec functions that the operations' own contracts use.
use vstd::prelude::*;
use crate::runtime::{
    after_read, descends, dispose_trace, disposed_after, mark_dirty, same_parents, step_of,
    teardown_of, trace_from, lemma_descends_parents, CleanupId, NodeId, ScopeState, Teardown,
};
use crate::scope::effects_flushed;
use crate::suspense::{has_key, next_ready, take_outcome, Fragment};
use crate::runtime::Runtime;

verus! {

/// Every parent index is below its child's, as in a well-formed runtime.
pub open spec fn parents_first(scopes: Seq<ScopeState>) -> bool {
    forall|i: int|
        0 <= i < scopes.len() ==> match (#[trigger] scopes[i]).parent {
            Some(p) => p.index < i,
            None => true,
        }
}

/// Where the teardown of scope `d` starts in a disposal trace.
pub open spec fn block_start(scopes: Seq<ScopeState>, root: int, d: int) -> int {
    trace_from(scopes, root, d + 1).len() as int
}

/// Where the teardown of scope `d` ends in a disposal trace.
pub open spec fn block_end(scopes: Seq<ScopeState>, root: int, d: int) -> int {
    trace_from(scopes, root, d).len() as int
}

proof fn lemma_trace_prefix(scopes: Seq<ScopeState>, root: int, i: int, j: int)
    requires
        0 <= i <= j,
    ensures
        trace_from(scopes, root, j).len() <= trace_from(scopes, root, i).len(),
        trace_from(scopes, root, i).subrange(0, trace_from(scopes, root, j).len() as int)
            == trace_from(scopes, root, j),
    decreases j - i,
{
    if i < j && i < scopes.len() {
        lemma_trace_prefix(scopes, root, i + 1, j);
        let a = trace_from(scopes, root, i + 1);
        let b = trace_from(scopes, root, j);
        assert(trace_from(scopes, root, i) == a + step_of(scopes, root, i));
        assert((a + step_of(scopes, root, i)).subrange(0, b.len() as int) =~= a.subrange(0, b.len() as int));
    } else if i < j {
        assert(trace_from(scopes, root, i) =~= Seq::empty());
        assert(trace_from(scopes, root, j) =~= Seq::empty());
    } else {
        assert(trace_from(scopes, root, i).subrange(0, trace_from(scopes, root, i).len() as int) =~= trace_from(scopes, root, i));
    }
}

proof fn lemma_cleanups_in_block(scopes: Seq<ScopeState>, root: int, i: int, x: int)
    requires
        0 <= i,
        scopes.len() <= usize::MAX,
        0 <= x < trace_from(scopes, root, i).len(),
    ensures
        trace_from(scopes, root, i)[x] matches Teardown::Cleanup(c) ==> {
            let d = c.scope.index as int;
            &&& i <= d < scopes.len()
            &&& block_start(scopes, root, d) <= x < block_end(scopes, root, d)
        },
    decreases scopes.len() - i,
{
    if i < scopes.len() {
        let a = trace_from(scopes, root, i + 1);
        if x < a.len() {
            lemma_cleanups_in_block(scopes, root, i + 1, x);
            assert(trace_from(scopes, root, i)[x] == a[x]);
        } else {
            let st = step_of(scopes, root, i);
            assert(trace_from(scopes, root, i)[x] == st[x - a.len()]);
            if !scopes[i].disposed && descends(scopes, i, root) {
                let n = scopes[i].cleanups as int;
                if x - a.len() < n {
                    assert(st[x - a.len()] == Teardown::Cleanup(CleanupId { scope: crate::runtime::ScopeId { index: i as usize }, slot: (x - a.len()) as usize }));
                } else {
                    assert(st[x - a.len()] == scopes[i].properties@.map_values(|p: crate::runtime::ScopeProperty| Teardown::Invalidate(p))[x - a.len() - n]);
                }
            }
        }
    }
}

/// Disposing `root` tears down each live scope of its subtree exactly once:
/// the teardown of a live descendant `d` (its cleanups in registration order,
/// then the invalidation of its entities) fills one block of the trace, a
/// cleanup of `d` appears nowhere outside that block, and the block of a
/// scope lies wholly before the block of any scope created before it, in
/// particular before its parent's and every ancestor's. The same holds of
/// the block of `a`, which may be the root itself.
pub proof fn law_dispose_tears_down_each_once_children_first(
    scopes: Seq<ScopeState>,
    root: int,
    d: int,
    a: int,
)
    requires
        parents_first(scopes),
        scopes.len() <= usize::MAX,
        0 <= root <= a < d < scopes.len(),
    ensures
        ({
            let trace = dispose_trace(scopes, root);
            &&& 0 <= block_start(scopes, root, d) <= block_end(scopes, root, d) <= block_start(scopes, root, a)
            &&& block_end(scopes, root, a) <= trace.len()
            &&& !scopes[d].disposed && descends(scopes, d, root) ==> trace.subrange(
                block_start(scopes, root, d),
                block_end(scopes, root, d),
            ) == teardown_of(scopes, d)
            &&& !scopes[a].disposed && descends(scopes, a, root) ==> trace.subrange(
                block_start(scopes, root, a),
                block_end(scopes, root, a),
            ) == teardown_of(scopes, a)
            &&& forall|x: int| 0 <= x < trace.len() ==> (#[trigger] trace[x] matches Teardown::Cleanup(c)
                ==> block_start(scopes, root, c.scope.index as int) <= x < block_end(scopes, root, c.scope.index as int))
        }),
{
    lemma_trace_prefix(scopes, root, root, d);
    lemma_trace_prefix(scopes, root, a + 1, d);
    lemma_trace_prefix(scopes, root, root, a);
    lemma_trace_prefix(scopes, root, a, a + 1);
    lemma_trace_prefix(scopes, root, d, d + 1);
    let trace = dispose_trace(scopes, root);
    let td = trace_from(scopes, root, d);
    let td1 = trace_from(scopes, root, d + 1);
    assert(td == td1 + step_of(scopes, root, d));
    assert(trace.subrange(block_start(scopes, root, d), block_end(scopes, root, d)) =~= td.subrange(td1.len() as int, td.len() as int));
    assert(td.subrange(td1.len() as int, td.len() as int) =~= step_of(scopes, root, d));
    let ta = trace_from(scopes, root, a);
    let ta1 = trace_from(scopes, root, a + 1);
    assert(ta == ta1 + step_of(scopes, root, a));
    assert(trace.subrange(block_start(scopes, root, a), block_end(scopes, root, a)) =~= ta.subrange(ta1.len() as int, ta.len() as int));
    assert(ta.subrange(ta1.len() as int, ta.len() as int) =~= step_of(scopes, root, a));
    assert forall|x: int| 0 <= x < trace.len() implies (#[trigger] trace[x] matches Teardown::Cleanup(c)
        ==> block_start(scopes, root, c.scope.index as int) <= x < block_end(scopes, root, c.scope.index as int)) by {
        lemma_cleanups_in_block(scopes, root, root, x);
    }
}

proof fn lemma_trace_empty_when_disposed(scopes: Seq<ScopeState>, root: int, i: int)
    requires
        0 <= i,
        forall|j: int| i <= j < scopes.len() && descends(scopes, j, root) ==> (#[trigger] scopes[j]).disposed,
    ensures
        trace_from(scopes, root, i).len() == 0,
    decreases scopes.len() - i,
{
    if i < scopes.len() {
        lemma_trace_empty_when_disposed(scopes, root, i + 1);
        assert(step_of(scopes, root, i).len() == 0);
    }
}

/// Disposing a scope a second time performs nothing and leaves the scope
/// table as the first disposal left it.
pub proof fn law_dispose_is_idempotent(
    first: Seq<ScopeState>,
    once: Seq<ScopeState>,
    twice: Seq<ScopeState>,
    root: int,
)
    requires
        0 <= root < first.len(),
        disposed_after(first, once, root),
        disposed_after(once, twice, root),
    ensures
        dispose_trace(once, root).len() == 0,
        twice.len() == once.len(),
        forall|j: int| 0 <= j < once.len() ==> {
            &&& (#[trigger] twice[j]).parent == once[j].parent
            &&& twice[j].properties@ == once[j].properties@
            &&& twice[j].cleanups == once[j].cleanups
            &&& twice[j].disposed == once[j].disposed
        },
{
    assert(same_parents(first, once));
    assert forall|j: int| 0 <= j < once.len() implies descends(once, j, root) == descends(first, j, root) by {
        lemma_descends_parents(once, first, j, root);
    }
    lemma_trace_empty_when_disposed(once, root, root);
}

/// The dependency list after reading each of `sources` in turn under
/// `observer`.
pub open spec fn after_reads(
    deps: Seq<(NodeId, NodeId)>,
    observer: Option<NodeId>,
    sources: Seq<NodeId>,
) -> Seq<(NodeId, NodeId)>
    decreases sources.len(),
{
    if sources.len() == 0 {
        deps
    } else {
        after_read(after_reads(deps, observer, sources.drop_last()), observer, sources.last())
    }
}

/// Reads made while tracking is suspended (the state in which `untrack` runs
/// its callback, with no observer) record no dependency at all, so none for
/// the computation that was tracking before.
pub proof fn law_untracked_reads_record_nothing(deps: Seq<(NodeId, NodeId)>, sources: Seq<NodeId>)
    ensures
        after_reads(deps, None, sources) == deps,
    decreases sources.len(),
{
    if sources.len() > 0 {
        law_untracked_reads_record_nothing(deps, sources.drop_last());
    }
}

/// The pending effects after marking each of `effects` in turn.
pub open spec fn mark_all(pending: Seq<NodeId>, effects: Seq<NodeId>) -> Seq<NodeId>
    decreases effects.len(),
{
    if effects.len() == 0 {
        pending
    } else {
        mark_dirty(mark_all(pending, effects.drop_last()), effects.last())
    }
}

pub open spec fn no_duplicates(s: Seq<NodeId>) -> bool {
    forall|a: int, b: int| 0 <= a < b < s.len() ==> s[a] != s[b]
}

/// However many times effects are marked while a batch is open, each marked
/// effect is pending exactly once.
pub proof fn law_marks_coalesce(pending: Seq<NodeId>, effects: Seq<NodeId>)
    requires
        no_duplicates(pending),
    ensures
        no_duplicates(mark_all(pending, effects)),
        forall|k: int| 0 <= k < effects.len() ==> mark_all(pending, effects).contains(#[trigger] effects[k]),
    decreases effects.len(),
{
    if effects.len() > 0 {
        let init = effects.drop_last();
        law_marks_coalesce(pending, init);
        let m = mark_all(pending, init);
        let e = effects.last();
        if !m.contains(e) {
            assert forall|a: int, b: int| 0 <= a < b < m.push(e).len() implies m.push(e)[a] != m.push(e)[b] by {
                if b == m.len() {
                    assert(m[a] == m.push(e)[a]);
                }
            }
        }
        assert forall|k: int| 0 <= k < effects.len() implies mark_all(pending, effects).contains(#[trigger] effects[k]) by {
            if k < init.len() {
                assert(init[k] == effects[k]);
                assert(m.contains(init[k]));
                let w = choose|w: int| 0 <= w < m.len() && m[w] == init[k];
                if !m.contains(e) {
                    assert(m.push(e)[w] == m[w]);
                }
            } else {
                if !m.contains(e) {
                    assert(m.push(e)[m.len() as int] == e);
                }
            }
        }
    }
}

/// When a batch closes, each effect runs at most once: with no outer batch
/// the effects that ran are exactly the pending ones, none twice; inside an
/// outer batch none runs yet, so nesting gives the single run of the outer
/// batch.
pub proof fn law_batch_runs_each_effect_once(closed: Runtime, out: Runtime)
    requires
        closed.wf(),
        effects_flushed(closed, out),
    ensures
        ({
            let ran = out.effect_runs@.subrange(closed.effect_runs@.len() as int, out.effect_runs@.len() as int);
            &&& closed.batching ==> ran.len() == 0
            &&& !closed.batching ==> ran == closed.pending_effects@ && no_duplicates(ran)
        }),
{
    let ran = out.effect_runs@.subrange(closed.effect_runs@.len() as int, out.effect_runs@.len() as int);
    if closed.batching {
        assert(ran =~= Seq::empty());
    } else {
        assert(ran =~= closed.pending_effects@);
    }
}

/// Marking the effects of `first`, then those of `second`, leaves the same
/// pending effects as marking all of them in one go. With the closing of an
/// inner batch running nothing while the outer one is open (see
/// [`law_batch_runs_each_effect_once`]), a batch nested inside another ends
/// with the same pending effects, and so the same single run, as one flat
/// batch over the same writes.
pub proof fn law_nested_marks_same_as_flat(pending: Seq<NodeId>, first: Seq<NodeId>, second: Seq<NodeId>)
    ensures
        mark_all(mark_all(pending, first), second) == mark_all(pending, first + second),
    decreases second.len(),
{
    if second.len() == 0 {
        assert(first + second =~= first);
    } else {
        law_nested_marks_same_as_flat(pending, first, second.drop_last());
        assert((first + second).drop_last() =~= first + second.drop_last());
        assert((first + second).last() == second.last());
    }
}

/// Readiness after the pending count is observed as each of `counts` in turn.
pub open spec fn ready_after(ready: bool, counts: Seq<u64>) -> bool
    decreases counts.len(),
{
    if counts.len() == 0 {
        ready
    } else {
        next_ready(ready_after(ready, counts.drop_last()), counts.last())
    }
}

/// A fragment registered with `start` pending resources is ready after the
/// count takes the values `counts` exactly when one of those counts, or the
/// start, is zero; once ready it stays ready, so its consumers are released
/// once, and never if the count never reaches zero.
pub proof fn law_fragment_ready_once_count_is_zero(start: u64, counts: Seq<u64>)
    ensures
        ready_after(start == 0, counts) == (start == 0 || exists|k: int| 0 <= k < counts.len() && counts[k] == 0),
        ready_after(true, counts),
    decreases counts.len(),
{
    if counts.len() > 0 {
        let init = counts.drop_last();
        law_fragment_ready_once_count_is_zero(start, init);
        if exists|k: int| 0 <= k < init.len() && init[k] == 0 {
            let k = choose|k: int| 0 <= k < init.len() && init[k] == 0;
            assert(counts[k] == 0);
        }
        if exists|k: int| 0 <= k < counts.len() && counts[k] == 0 {
            let k = choose|k: int| 0 <= k < counts.len() && counts[k] == 0;
            if k < init.len() {
                assert(init[k] == 0);
            }
        }
    }
}

/// Taking a fragment twice: the first take hands out the registered fragment
/// when there is one, the second hands out nothing and changes nothing.
pub proof fn law_take_fragment_at_most_once(
    f0: Seq<Fragment>,
    key: Seq<char>,
    r1: Option<Fragment>,
    f1: Seq<Fragment>,
    r2: Option<Fragment>,
    f2: Seq<Fragment>,
)
    requires
        take_outcome(f0, key, r1, f1),
        take_outcome(f1, key, r2, f2),
    ensures
        has_key(f0, key) ==> (r1 matches Some(f) && f.key@ == key),
        r2.is_none(),
        f2 == f1,
{
}

} // verus!
