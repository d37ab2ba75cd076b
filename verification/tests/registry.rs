use sidl_session::registry::{ObjectEventRegistry, RegistryError};

#[test]
fn listener_requires_live_object() {
    let mut r = ObjectEventRegistry::new();
    assert_eq!(r.add_listener(7, 3, 1, 100), Err(RegistryError::NoSuchObject));
    assert!(r.register_object(7, 3));
    assert_eq!(r.add_listener(7, 3, 1, 100), Ok(()));
}

#[test]
fn registering_twice_changes_nothing() {
    let mut r = ObjectEventRegistry::new();
    assert!(r.register_object(7, 3));
    assert!(!r.register_object(7, 3));
    assert!(r.contains_object(7, 3));
}

#[test]
fn duplicate_listener_is_refused_without_corruption() {
    let mut r = ObjectEventRegistry::new();
    r.register_object(7, 3);
    assert_eq!(r.add_listener(7, 3, 1, 100), Ok(()));
    assert_eq!(r.add_listener(7, 3, 1, 100), Err(RegistryError::AlreadyRegistered));
    // Still exactly one registration.
    assert_eq!(r.listeners_for(7, 3, 1), vec![100]);
}

#[test]
fn removing_an_absent_listener_fails() {
    let mut r = ObjectEventRegistry::new();
    r.register_object(7, 3);
    assert_eq!(r.remove_listener(7, 3, 1, 100), Err(RegistryError::NotRegistered));
    assert_eq!(r.add_listener(7, 3, 1, 100), Ok(()));
    assert_eq!(r.remove_listener(7, 3, 1, 100), Ok(()));
    assert_eq!(r.remove_listener(7, 3, 1, 100), Err(RegistryError::NotRegistered));
}

#[test]
fn fan_out_is_in_registration_order() {
    let mut r = ObjectEventRegistry::new();
    r.register_object(7, 3);
    r.register_object(7, 4);
    assert_eq!(r.add_listener(7, 3, 1, 30), Ok(()));
    assert_eq!(r.add_listener(7, 4, 1, 99), Ok(()));
    assert_eq!(r.add_listener(7, 3, 1, 10), Ok(()));
    assert_eq!(r.add_listener(7, 3, 2, 50), Ok(()));
    assert_eq!(r.listeners_for(7, 3, 1), vec![30, 10]);
    assert_eq!(r.listeners_for(7, 4, 1), vec![99]);
    // Nobody listens: an empty fan-out, not an error.
    assert_eq!(r.listeners_for(7, 3, 9), Vec::<u64>::new());
}

#[test]
fn release_clears_listeners_of_that_object_only() {
    let mut r = ObjectEventRegistry::new();
    r.register_object(7, 3);
    r.register_object(7, 4);
    assert_eq!(r.add_listener(7, 3, 1, 10), Ok(()));
    assert_eq!(r.add_listener(7, 3, 2, 20), Ok(()));
    assert_eq!(r.add_listener(7, 4, 1, 40), Ok(()));
    assert!(r.release_object(7, 3));
    assert_eq!(r.listeners_for(7, 3, 1), Vec::<u64>::new());
    assert_eq!(r.listeners_for(7, 3, 2), Vec::<u64>::new());
    assert_eq!(r.listeners_for(7, 4, 1), vec![40]);
    assert!(!r.contains_object(7, 3));
    assert!(r.contains_object(7, 4));
}
