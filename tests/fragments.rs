use leptos_reactive::{
    raw_scope_and_disposer, NodeId, ResourceId, Runtime, RuntimeId, Scope, ScopeId, ScopeProperty,
};

fn setup() -> (Runtime, Scope) {
    let mut rt = Runtime::new(RuntimeId { id: 1 });
    let (cx, _) = raw_scope_and_disposer(&mut rt);
    (rt, cx)
}

#[test]
fn blocking_wait_ends_after_second_decrement() {
    let (mut rt, cx) = setup();
    cx.register_suspense(&mut rt, "frag-A", true, 2);
    let keys = cx.blocking_fragments_ready(&mut rt);
    assert_eq!(keys, vec!["frag-A".to_string()]);
    assert!(!cx.fragments_ready(&rt, &keys));
    cx.set_pending_resources(&mut rt, "frag-A", 1);
    assert!(!cx.fragments_ready(&rt, &keys));
    cx.set_pending_resources(&mut rt, "frag-A", 0);
    assert!(cx.fragments_ready(&rt, &keys));
}

#[test]
fn ready_once_and_for_good() {
    let (mut rt, cx) = setup();
    cx.register_suspense(&mut rt, "k", false, 1);
    assert!(!rt.boundaries[0].ready);
    cx.set_pending_resources(&mut rt, "k", 0);
    assert!(rt.boundaries[0].ready);
    cx.set_pending_resources(&mut rt, "k", 3);
    assert!(rt.boundaries[0].ready);
    assert_eq!(rt.boundaries[0].pending, 3);
}

#[test]
fn never_zero_never_ready() {
    let (mut rt, cx) = setup();
    cx.register_suspense(&mut rt, "k", false, 2);
    cx.set_pending_resources(&mut rt, "k", 3);
    cx.set_pending_resources(&mut rt, "k", 1);
    assert!(!rt.boundaries[0].ready);
}

#[test]
fn zero_at_registration_is_ready() {
    let (mut rt, cx) = setup();
    cx.register_suspense(&mut rt, "k", false, 0);
    assert!(rt.boundaries[0].ready);
}

#[test]
fn take_fragment_once() {
    let (mut rt, cx) = setup();
    cx.register_suspense(&mut rt, "a", false, 1);
    cx.register_suspense(&mut rt, "b", true, 0);
    let first = cx.take_pending_fragment(&mut rt, "a").expect("registered");
    assert_eq!(first.key, "a");
    assert!(!first.should_block);
    assert!(cx.take_pending_fragment(&mut rt, "a").is_none());
    assert_eq!(rt.fragments.len(), 1);
    assert_eq!(rt.fragments[0].key, "b");
}

#[test]
fn reregistration_replaces() {
    let (mut rt, cx) = setup();
    cx.register_suspense(&mut rt, "a", false, 1);
    cx.register_suspense(&mut rt, "a", true, 4);
    assert_eq!(rt.fragments.len(), 1);
    assert!(rt.fragments[0].should_block);
    assert_eq!(rt.boundaries.len(), 1);
    assert_eq!(rt.boundaries[0].pending, 4);
}

#[test]
fn pending_fragments_drains_all() {
    let (mut rt, cx) = setup();
    cx.register_suspense(&mut rt, "a", false, 1);
    cx.register_suspense(&mut rt, "b", true, 1);
    let all = cx.pending_fragments(&mut rt);
    let keys: Vec<&str> = all.iter().map(|f| f.key.as_str()).collect();
    assert_eq!(keys, vec!["a", "b"]);
    assert!(cx.pending_fragments(&mut rt).is_empty());
}

#[test]
fn non_blocking_fragments_are_left_alone() {
    let (mut rt, cx) = setup();
    cx.register_suspense(&mut rt, "a", false, 1);
    cx.register_suspense(&mut rt, "b", true, 1);
    cx.register_suspense(&mut rt, "c", true, 1);
    assert_eq!(cx.blocking_fragments_ready(&mut rt), vec!["b".to_string(), "c".to_string()]);
    assert!(!rt.fragments[0].ready_taken);
    assert!(cx.blocking_fragments_ready(&mut rt).is_empty());
}

#[test]
fn unknown_key_is_not_ready() {
    let (rt, cx) = setup();
    assert!(!cx.fragments_ready(&rt, &vec!["missing".to_string()]));
    assert!(cx.fragments_ready(&rt, &vec![]));
}

#[test]
fn foreign_scope_sees_nothing() {
    let (mut rt, cx) = setup();
    cx.register_suspense(&mut rt, "a", false, 1);
    let other = Scope { runtime: RuntimeId { id: 2 }, id: ScopeId { index: 0 } };
    assert!(other.take_pending_fragment(&mut rt, "a").is_none());
    assert!(other.pending_fragments(&mut rt).is_empty());
    assert!(other.all_resources(&rt).is_empty());
    assert_eq!(rt.fragments.len(), 1);
}

#[test]
fn resources_of_live_scopes() {
    let (mut rt, cx) = setup();
    rt.owner = Some(cx.id());
    rt.register_property(ScopeProperty::Resource(ResourceId { id: 1 }));
    rt.register_property(ScopeProperty::Signal(NodeId { id: 5 }));
    rt.register_property(ScopeProperty::Resource(ResourceId { id: 2 }));
    rt.set_resource_loading(ResourceId { id: 2 }, true);
    assert_eq!(cx.all_resources(&rt), vec![ResourceId { id: 1 }, ResourceId { id: 2 }]);
    assert_eq!(cx.pending_resources(&rt), vec![ResourceId { id: 2 }]);
    rt.set_resource_loading(ResourceId { id: 2 }, false);
    assert!(cx.pending_resources(&rt).is_empty());
    cx.dispose(&mut rt);
    assert!(cx.all_resources(&rt).is_empty());
}

#[test]
fn readiness_kept_after_take() {
    let (mut rt, cx) = setup();
    cx.register_suspense(&mut rt, "k", true, 2);
    let keys = cx.blocking_fragments_ready(&mut rt);
    let taken = cx.take_pending_fragment(&mut rt, "k");
    assert!(taken.is_some());
    cx.set_pending_resources(&mut rt, "k", 0);
    assert!(rt.boundaries[0].ready);
    assert!(cx.fragments_ready(&rt, &keys));
}

#[test]
fn readiness_kept_after_drain() {
    let (mut rt, cx) = setup();
    cx.register_suspense(&mut rt, "a", false, 1);
    let drained = cx.pending_fragments(&mut rt);
    assert_eq!(drained.len(), 1);
    cx.set_pending_resources(&mut rt, "a", 0);
    assert!(cx.fragments_ready(&rt, &vec!["a".to_string()]));
}
