use portguard::registry::Registry;

#[test]
fn a_new_registry_is_empty() {
    let r = Registry::new();
    assert!(!r.is_online(0));
    assert!(!r.is_online(7));
    assert_eq!(r.lookup(7), None);
}

#[test]
fn the_first_provider_holds_the_service() {
    let mut r = Registry::new();
    assert!(r.register(7, 100));
    assert!(r.is_online(7));
    assert_eq!(r.lookup(7), Some(100));
    assert!(!r.register(7, 200));
    assert_eq!(r.lookup(7), Some(100));
}

#[test]
fn services_do_not_touch_each_other() {
    let mut r = Registry::new();
    assert!(r.register(1, 10));
    assert!(r.register(2, 20));
    assert_eq!(r.lookup(1), Some(10));
    assert_eq!(r.lookup(2), Some(20));
    assert_eq!(r.unregister(1), Some(10));
    assert_eq!(r.lookup(1), None);
    assert_eq!(r.lookup(2), Some(20));
}

#[test]
fn a_service_that_went_offline_can_be_registered_anew() {
    let mut r = Registry::new();
    assert!(r.register(7, 1));
    assert_eq!(r.unregister(7), Some(1));
    assert_eq!(r.unregister(7), None);
    assert!(!r.is_online(7));
    assert!(r.register(7, 2));
    assert_eq!(r.lookup(7), Some(2));
}

#[test]
fn only_the_holder_releases_a_service() {
    let mut r = Registry::new();
    assert!(r.register(7, 1));
    assert!(!r.release(7, 2));
    assert_eq!(r.lookup(7), Some(1));
    assert!(!r.release(8, 1));
    assert!(r.release(7, 1));
    assert_eq!(r.lookup(7), None);
    assert!(!r.release(7, 1));
}
