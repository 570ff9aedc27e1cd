use turbostroi::registry::TrainRegistry;

#[test]
fn initialize_and_find_train() {
    let mut r: TrainRegistry<&str> = TrainRegistry::new();
    assert!(!r.is_initialized(7));
    assert_eq!(r.initialize_train(7, "a"), None);
    assert!(r.is_initialized(7));
    assert_eq!(r.train(7), Some(&"a"));
    assert_eq!(r.train(8), None);
}

#[test]
fn initializing_a_running_id_changes_nothing() {
    let mut r = TrainRegistry::new();
    assert_eq!(r.initialize_train(1, 10), None);
    assert_eq!(r.initialize_train(1, 20), Some(20));
    assert_eq!(r.train(1), Some(&10));
}

#[test]
fn deinitialize_hands_back_and_frees_id() {
    let mut r = TrainRegistry::new();
    r.initialize_train(-3, 'x');
    r.initialize_train(4, 'y');
    assert_eq!(r.deinitialize_train(-3), Some('x'));
    assert!(!r.is_initialized(-3));
    assert_eq!(r.train(4), Some(&'y'));
    assert_eq!(r.deinitialize_train(-3), None);
    assert_eq!(r.initialize_train(-3, 'z'), None);
    assert_eq!(r.train(-3), Some(&'z'));
}
