use rust_di::{
    Factory, ResolveCause, ResolveError, ResolveErrorKind, ServiceCollection, ServiceKey,
    ServiceProvider,
};

fn key(token: u64, label: &str) -> ServiceKey {
    ServiceKey { token, label: String::from(label) }
}

fn factory(token: u64, label: &str, deps: Vec<ServiceKey>, payload: &str) -> Factory {
    Factory { key: key(token, label), deps, outcome: Ok(String::from(payload)) }
}

fn failing_factory(token: u64, label: &str, deps: Vec<ServiceKey>, cause: &str) -> Factory {
    Factory { key: key(token, label), deps, outcome: Err(String::from(cause)) }
}

fn unwrap_nested(e: ResolveError) -> ResolveError {
    match e.kind {
        ResolveErrorKind::ErrorWhileResolving(cause) => match *cause {
            ResolveCause::Nested(inner) => *inner,
            ResolveCause::Domain(d) => panic!("expected a nested cause, got domain error {d}"),
        },
        other => panic!("expected ErrorWhileResolving, got {other:?}"),
    }
}

#[test]
fn resolve() {
    let factories: Vec<Factory> = vec![
        factory(1, "Test1", vec![], "Lila"),
        factory(2, "Test2", vec![key(1, "Test1")], "Kuh"),
    ];

    let mut services = ServiceProvider::new(factories);

    let test1 = services.resolve(&key(1, "Test1")).unwrap();

    assert_eq!(services.instance(test1).payload, "Lila");
}

#[test]
fn demo() {
    let mut services = ServiceCollection::new();

    services.register_factory(factory(1, "Test1", vec![], "Lila"));

    let mut services = services.build();

    let test1 = services.resolve(&key(1, "Test1")).unwrap();

    assert_eq!(services.instance(test1).payload, String::from("Lila"));
}

#[test]
fn unregistered_type_is_not_found() {
    let mut services = ServiceProvider::new(vec![]);

    let err = services.resolve(&key(7, "Missing")).unwrap_err();
    assert!(matches!(err.kind, ResolveErrorKind::NotFound));
    assert_eq!(err.label, "Missing");

    // No entry was created as a side effect: a second request fails the
    // same way, and registering afterwards still works.
    let err = services.resolve(&key(7, "Missing")).unwrap_err();
    assert!(matches!(err.kind, ResolveErrorKind::NotFound));

    services.insert_factory(factory(7, "Missing", vec![], "NowHere"));
    let h = services.resolve(&key(7, "Missing")).unwrap();
    assert_eq!(services.instance(h).payload, "NowHere");
}

#[test]
fn resolving_twice_returns_the_identical_instance() {
    let mut services = ServiceProvider::new(vec![factory(1, "Test1", vec![], "Lila")]);

    let first = services.resolve(&key(1, "Test1")).unwrap();
    let second = services.resolve(&key(1, "Test1")).unwrap();

    assert_eq!(first, second);
}

#[test]
fn self_cycle_is_detected() {
    let mut services =
        ServiceProvider::new(vec![factory(1, "Selfish", vec![key(1, "Selfish")], "never")]);

    let err = services.resolve(&key(1, "Selfish")).unwrap_err();
    assert_eq!(err.label, "Selfish");
    let inner = unwrap_nested(err);
    assert!(matches!(inner.kind, ResolveErrorKind::CircularReferenceFound));
    assert_eq!(inner.label, "Selfish");
}

#[test]
fn mutual_cycle_is_detected() {
    let mut services = ServiceProvider::new(vec![
        factory(1, "A", vec![key(2, "B")], "a"),
        factory(2, "B", vec![key(1, "A")], "b"),
    ]);

    let err = services.resolve(&key(1, "A")).unwrap_err();
    assert_eq!(err.label, "A");
    let err_b = unwrap_nested(err);
    assert_eq!(err_b.label, "B");
    let err_a = unwrap_nested(err_b);
    assert!(matches!(err_a.kind, ResolveErrorKind::CircularReferenceFound));
    assert_eq!(err_a.label, "A");
}

#[test]
fn longer_cycle_is_detected() {
    let mut services = ServiceProvider::new(vec![
        factory(1, "A", vec![key(2, "B")], "a"),
        factory(2, "B", vec![key(3, "C")], "b"),
        factory(3, "C", vec![key(1, "A")], "c"),
    ]);

    let err = services.resolve(&key(1, "A")).unwrap_err();
    let err_b = unwrap_nested(err);
    let err_c = unwrap_nested(err_b);
    let err_a = unwrap_nested(err_c);
    assert!(matches!(err_a.kind, ResolveErrorKind::CircularReferenceFound));
    assert_eq!(err_a.label, "A");
}

#[test]
fn diamond_dependency_shares_one_instance() {
    let mut services = ServiceProvider::new(vec![
        factory(1, "Base", vec![], "base"),
        factory(2, "Left", vec![key(1, "Base")], "left"),
        factory(3, "Right", vec![key(1, "Base")], "right"),
        factory(4, "Top", vec![key(2, "Left"), key(3, "Right")], "top"),
    ]);

    let top = services.resolve(&key(4, "Top")).unwrap();
    let top_deps = services.instance(top).deps.clone();
    let left_base = services.instance(top_deps[0]).deps[0];
    let right_base = services.instance(top_deps[1]).deps[0];
    assert_eq!(left_base, right_base);
    assert_eq!(services.instance(left_base).payload, "base");
}

#[test]
fn factory_failure_is_wrapped_with_its_cause() {
    let mut services =
        ServiceProvider::new(vec![failing_factory(1, "Broken", vec![], "boom")]);

    let err = services.resolve(&key(1, "Broken")).unwrap_err();
    assert_eq!(err.label, "Broken");
    match err.kind {
        ResolveErrorKind::ErrorWhileResolving(cause) => match *cause {
            ResolveCause::Domain(d) => assert_eq!(d, "boom"),
            ResolveCause::Nested(inner) => panic!("expected a domain cause, got {inner:?}"),
        },
        other => panic!("expected ErrorWhileResolving, got {other:?}"),
    }
}

#[test]
fn failed_entry_stays_in_progress() {
    let mut services =
        ServiceProvider::new(vec![failing_factory(1, "Broken", vec![], "boom")]);

    let err = services.resolve(&key(1, "Broken")).unwrap_err();
    assert!(matches!(err.kind, ResolveErrorKind::ErrorWhileResolving(_)));

    // The entry is deliberately left in progress: there is no retry, so
    // a later request observes the sentinel as a circular reference.
    let err = services.resolve(&key(1, "Broken")).unwrap_err();
    assert!(matches!(err.kind, ResolveErrorKind::CircularReferenceFound));
}

#[test]
fn prebuilt_instance_skips_the_factory() {
    let mut services = ServiceCollection::new();
    services.register_factory(failing_factory(1, "Clock", vec![], "factory must not run"));
    let prebuilt = services.register_instance(key(1, "Clock"), String::from("Prebuilt"));

    let mut services = services.build();

    let resolved = services.resolve(&key(1, "Clock")).unwrap();
    assert_eq!(resolved, prebuilt);
    assert_eq!(services.instance(resolved).payload, "Prebuilt");
}

#[test]
fn engine_and_car_share_one_engine() {
    let mut services = ServiceProvider::new(vec![
        factory(1, "Engine", vec![], "E1"),
        factory(2, "Car", vec![key(1, "Engine")], "Car"),
    ]);

    let car = services.resolve(&key(2, "Car")).unwrap();
    let car_engine = services.instance(car).deps[0];
    assert_eq!(services.instance(car_engine).payload, "E1");

    let engine = services.resolve(&key(1, "Engine")).unwrap();
    assert_eq!(engine, car_engine);
}

#[test]
fn dependencies_resolve_depth_first_in_request_order() {
    let mut services = ServiceProvider::new(vec![
        factory(1, "A", vec![], "a"),
        factory(2, "B", vec![key(1, "A")], "b"),
        factory(3, "C", vec![key(2, "B"), key(1, "A")], "c"),
    ]);

    let c = services.resolve(&key(3, "C")).unwrap();
    let c_deps = services.instance(c).deps.clone();
    assert_eq!(c_deps.len(), 2);
    assert_eq!(services.instance(c_deps[0]).payload, "b");
    assert_eq!(services.instance(c_deps[1]).payload, "a");

    // B was constructed fully, including its own dependency on A,
    // before C's second request returned the memoized A.
    let b_deps = services.instance(c_deps[0]).deps.clone();
    assert_eq!(services.instance(b_deps[0]).payload, "a");
    assert_eq!(b_deps[0], c_deps[1]);
}

#[test]
fn last_registration_wins() {
    let mut services = ServiceProvider::new(vec![
        factory(1, "Test1", vec![], "First"),
        factory(1, "Test1", vec![], "Second"),
    ]);

    let h = services.resolve(&key(1, "Test1")).unwrap();
    assert_eq!(services.instance(h).payload, "Second");
}

#[test]
fn dependency_failure_aborts_the_whole_construction() {
    let mut services = ServiceProvider::new(vec![
        failing_factory(1, "Engine", vec![], "no fuel"),
        factory(2, "Car", vec![key(1, "Engine")], "Car"),
    ]);

    let err = services.resolve(&key(2, "Car")).unwrap_err();
    assert_eq!(err.label, "Car");
    let inner = unwrap_nested(err);
    assert_eq!(inner.label, "Engine");

    // Nothing was marked resolved for the car: its entry is stuck in
    // progress, and no car instance exists.
    let err = services.resolve(&key(2, "Car")).unwrap_err();
    assert!(matches!(err.kind, ResolveErrorKind::CircularReferenceFound));
}
