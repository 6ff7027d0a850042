use leptos_reactive::{raw_scope_and_disposer, NodeId, Runtime, RuntimeId};

#[test]
fn untrack_hides_observer_and_restores_it() {
    let mut rt = Runtime::new(RuntimeId { id: 1 });
    let (cx, _) = raw_scope_and_disposer(&mut rt);
    let memo = NodeId { id: 1 };
    rt.observer = Some(memo);
    rt.record_read(NodeId { id: 10 });
    let (mut rt, seen) = cx.untrack(rt, |mut rt: Runtime| {
        let seen = rt.observer;
        rt.record_read(NodeId { id: 11 });
        (rt, seen)
    });
    assert_eq!(seen, None);
    assert_eq!(rt.observer, Some(memo));
    rt.record_read(NodeId { id: 12 });
    assert_eq!(rt.dependencies, vec![(memo, NodeId { id: 10 }), (memo, NodeId { id: 12 })]);
}

#[test]
fn read_without_observer_records_nothing() {
    let mut rt = Runtime::new(RuntimeId { id: 1 });
    rt.record_read(NodeId { id: 3 });
    assert!(rt.dependencies.is_empty());
}

#[test]
fn effect_outside_batch_runs_at_once() {
    let mut rt = Runtime::new(RuntimeId { id: 1 });
    rt.notify_effect(NodeId { id: 4 });
    rt.notify_effect(NodeId { id: 4 });
    assert_eq!(rt.effect_runs, vec![NodeId { id: 4 }, NodeId { id: 4 }]);
    assert!(rt.pending_effects.is_empty());
}

#[test]
fn batch_coalesces_effect_runs() {
    let mut rt = Runtime::new(RuntimeId { id: 1 });
    let (cx, _) = raw_scope_and_disposer(&mut rt);
    let e1 = NodeId { id: 1 };
    let e2 = NodeId { id: 2 };
    let (rt, during) = cx.batch(rt, |mut rt: Runtime| {
        rt.notify_effect(e1);
        rt.notify_effect(e2);
        rt.notify_effect(e1);
        rt.notify_effect(e1);
        let during = rt.effect_runs.len();
        (rt, during)
    });
    assert_eq!(during, 0);
    assert_eq!(rt.effect_runs, vec![e1, e2]);
    assert!(!rt.batching);
    assert!(rt.pending_effects.is_empty());
}

#[test]
fn nested_batch_runs_once_after_outer() {
    let mut rt = Runtime::new(RuntimeId { id: 1 });
    let (cx, _) = raw_scope_and_disposer(&mut rt);
    let e = NodeId { id: 9 };
    let (rt, after_inner) = cx.batch(rt, |mut rt: Runtime| {
        rt.notify_effect(e);
        let (mut rt, _) = cx.batch(rt, |mut rt: Runtime| {
            rt.notify_effect(e);
            (rt, ())
        });
        assert!(rt.batching);
        let after_inner = rt.effect_runs.len();
        rt.notify_effect(e);
        (rt, after_inner)
    });
    assert_eq!(after_inner, 0);
    assert_eq!(rt.effect_runs, vec![e]);
    assert!(!rt.batching);
}
