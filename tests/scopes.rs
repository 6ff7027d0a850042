use leptos_reactive::{
    create_scope, on_cleanup, raw_scope_and_disposer, run_scope, run_scope_undisposed, CleanupId,
    NodeId, ResourceId, Runtime, RuntimeId, Scope, ScopeId, ScopeProperty, StoredValueId, Teardown,
};

fn rt() -> Runtime {
    Runtime::new(RuntimeId { id: 1 })
}

fn cleanup(scope: usize, slot: usize) -> Teardown {
    Teardown::Cleanup(CleanupId { scope: ScopeId { index: scope }, slot })
}

#[test]
fn nested_cleanups_run_deepest_first() {
    let mut rt = rt();
    let (s0, d0) = raw_scope_and_disposer(&mut rt);
    let (rt, _s1_disposer) = s0.child_scope(rt, |mut rt: Runtime, s1: Scope| {
        let c1 = on_cleanup(s1, &mut rt);
        assert_eq!(c1, Some(CleanupId { scope: s1.id(), slot: 0 }));
        let (rt, _) = s1.child_scope(rt, |mut rt: Runtime, s2: Scope| {
            on_cleanup(s2, &mut rt);
            rt.register_property(ScopeProperty::Signal(NodeId { id: 7 }));
            (rt, ())
        });
        (rt, ())
    });
    let mut rt = rt;
    assert_eq!(rt.owner, None);
    let trace = d0.dispose(&mut rt);
    assert_eq!(
        trace,
        vec![
            cleanup(2, 0),
            Teardown::Invalidate(ScopeProperty::Signal(NodeId { id: 7 })),
            cleanup(1, 0),
        ]
    );
    assert!(rt.scopes.iter().all(|s| s.disposed));
}

#[test]
fn disposing_twice_does_nothing_more() {
    let mut rt = rt();
    let (s0, _) = raw_scope_and_disposer(&mut rt);
    rt.owner = Some(s0.id());
    on_cleanup(s0, &mut rt);
    rt.owner = None;
    let first = s0.dispose(&mut rt);
    assert_eq!(first, vec![cleanup(0, 0)]);
    let second = s0.dispose(&mut rt);
    assert!(second.is_empty());
    assert!(rt.scopes[0].disposed);
}

#[test]
fn child_disposed_early_is_skipped_by_parent() {
    let mut rt = rt();
    let (s0, d0) = raw_scope_and_disposer(&mut rt);
    let (rt, child) = s0.child_scope(rt, |mut rt: Runtime, s1: Scope| {
        on_cleanup(s1, &mut rt);
        (rt, ())
    });
    let mut rt = rt;
    rt.owner = Some(s0.id());
    on_cleanup(s0, &mut rt);
    assert_eq!(child.dispose(&mut rt), vec![cleanup(1, 0)]);
    assert_eq!(d0.dispose(&mut rt), vec![cleanup(0, 0)]);
}

#[test]
fn siblings_and_cleanup_order_within_scope() {
    let mut rt = rt();
    let (s0, d0) = raw_scope_and_disposer(&mut rt);
    rt.owner = Some(s0.id());
    on_cleanup(s0, &mut rt);
    on_cleanup(s0, &mut rt);
    rt.owner = None;
    let (rt, _) = s0.child_scope(rt, |rt: Runtime, _| (rt, ()));
    let (rt, _) = s0.child_scope(rt, |mut rt: Runtime, s2: Scope| {
        on_cleanup(s2, &mut rt);
        (rt, ())
    });
    let mut rt = rt;
    let trace = d0.dispose(&mut rt);
    assert_eq!(trace, vec![cleanup(2, 0), cleanup(0, 0), cleanup(0, 1)]);
}

#[test]
fn properties_go_to_the_current_owner() {
    let (rt, disposer) = create_scope(rt(), |mut rt: Runtime, cx: Scope| {
        cx.push_scope_property(&mut rt, ScopeProperty::Resource(ResourceId { id: 3 }));
        cx.push_scope_property(&mut rt, ScopeProperty::StoredValue(StoredValueId { id: 4 }));
        (rt, ())
    });
    let mut rt = rt;
    assert_eq!(rt.owner, None);
    assert_eq!(rt.scopes[0].properties.len(), 2);
    let trace = disposer.dispose(&mut rt);
    assert_eq!(
        trace,
        vec![
            Teardown::Invalidate(ScopeProperty::Resource(ResourceId { id: 3 })),
            Teardown::Invalidate(ScopeProperty::StoredValue(StoredValueId { id: 4 })),
        ]
    );
}

#[test]
fn no_owner_records_no_property() {
    let mut rt = rt();
    let (s0, _) = raw_scope_and_disposer(&mut rt);
    s0.push_scope_property(&mut rt, ScopeProperty::Effect(NodeId { id: 1 }));
    assert!(rt.scopes[0].properties.is_empty());
}

#[test]
fn run_scope_disposes_after_running() {
    let (rt, value, trace) = run_scope(rt(), |mut rt: Runtime, cx: Scope| {
        on_cleanup(cx, &mut rt);
        (rt, 42)
    });
    assert_eq!(value, 42);
    assert_eq!(trace, vec![cleanup(0, 0)]);
    assert!(rt.scopes[0].disposed);
}

#[test]
fn run_scope_undisposed_keeps_scope() {
    let (mut rt, value, id, disposer) = run_scope_undisposed(rt(), |rt: Runtime, cx: Scope| {
        let owner = rt.owner;
        (rt, (cx.id(), owner))
    });
    assert_eq!(id, ScopeId { index: 0 });
    assert_eq!(value, (ScopeId { index: 0 }, Some(ScopeId { index: 0 })));
    assert_eq!(disposer.0, Scope { runtime: RuntimeId { id: 1 }, id });
    assert!(!rt.scopes[0].disposed);
    disposer.dispose(&mut rt);
    assert!(rt.scopes[0].disposed);
}

#[test]
fn run_child_scope_returns_value_and_parent_link() {
    let mut rt = rt();
    let (s0, _) = raw_scope_and_disposer(&mut rt);
    let (rt, v, d) = s0.run_child_scope(rt, |rt: Runtime, cx: Scope| (rt, cx.id().index * 10));
    assert_eq!(v, 10);
    assert_eq!(rt.scopes[1].parent, Some(s0.id()));
    assert_eq!(d.0.id, ScopeId { index: 1 });
}

#[test]
fn dispose_with_other_runtime_is_ignored() {
    let mut rt = rt();
    let (s0, _) = raw_scope_and_disposer(&mut rt);
    let foreign = Scope { runtime: RuntimeId { id: 9 }, id: s0.id() };
    assert!(foreign.dispose(&mut rt).is_empty());
    assert!(!rt.scopes[0].disposed);
    let unknown = Scope { runtime: RuntimeId { id: 1 }, id: ScopeId { index: 5 } };
    assert!(unknown.dispose(&mut rt).is_empty());
}

#[test]
fn to_node_id_picks_nodes_only() {
    let n = NodeId { id: 5 };
    assert_eq!(ScopeProperty::Trigger(n).to_node_id(), Some(n));
    assert_eq!(ScopeProperty::Signal(n).to_node_id(), Some(n));
    assert_eq!(ScopeProperty::Effect(n).to_node_id(), Some(n));
    assert_eq!(ScopeProperty::Resource(ResourceId { id: 5 }).to_node_id(), None);
    assert_eq!(ScopeProperty::StoredValue(StoredValueId { id: 5 }).to_node_id(), None);
}

#[test]
fn every_descendant_torn_down_once_before_its_ancestors() {
    let mut rt = rt();
    let (s0, d0) = raw_scope_and_disposer(&mut rt);
    let (rt, _) = s0.child_scope(rt, |mut rt: Runtime, a: Scope| {
        on_cleanup(a, &mut rt);
        let (rt, _) = a.child_scope(rt, |mut rt: Runtime, a1: Scope| {
            on_cleanup(a1, &mut rt);
            on_cleanup(a1, &mut rt);
            (rt, ())
        });
        (rt, ())
    });
    let (rt, _) = s0.child_scope(rt, |mut rt: Runtime, b: Scope| {
        on_cleanup(b, &mut rt);
        (rt, ())
    });
    let mut rt = rt;
    rt.owner = Some(s0.id());
    on_cleanup(s0, &mut rt);
    let trace = d0.dispose(&mut rt);
    assert_eq!(trace.len(), 5);
    let pos = |t: Teardown| trace.iter().position(|x| *x == t).expect("present");
    for t in &trace {
        assert_eq!(trace.iter().filter(|x| *x == t).count(), 1);
    }
    assert!(pos(cleanup(2, 0)) < pos(cleanup(2, 1)));
    assert!(pos(cleanup(2, 1)) < pos(cleanup(1, 0)));
    assert!(pos(cleanup(1, 0)) < pos(cleanup(0, 0)));
    assert!(pos(cleanup(3, 0)) < pos(cleanup(0, 0)));
    assert!(rt.scopes.iter().all(|s| s.disposed));
}

#[test]
fn cleanup_without_owner_registers_nothing() {
    let mut rt = rt();
    let (s0, d0) = raw_scope_and_disposer(&mut rt);
    assert_eq!(on_cleanup(s0, &mut rt), None);
    assert_eq!(rt.scopes[0].cleanups, 0);
    assert!(d0.dispose(&mut rt).is_empty());
}

#[test]
fn cleanup_goes_to_current_owner() {
    let mut rt = rt();
    let (s0, _) = raw_scope_and_disposer(&mut rt);
    let (s1, _) = raw_scope_and_disposer(&mut rt);
    rt.owner = Some(s1.id());
    assert_eq!(on_cleanup(s0, &mut rt), Some(CleanupId { scope: s1.id(), slot: 0 }));
    assert_eq!(rt.scopes[0].cleanups, 0);
    assert_eq!(rt.scopes[1].cleanups, 1);
}
