use sidl_session::directory::ServiceDirectory;

#[test]
fn bind_then_lookup() {
    let mut d = ServiceDirectory::new();
    assert!(d.bind(String::from("settings"), 7));
    assert_eq!(d.lookup(&String::from("settings")), Some(7));
    assert_eq!(d.lookup(&String::from("telemetry")), None);
}

#[test]
fn a_name_keeps_its_first_binding() {
    let mut d = ServiceDirectory::new();
    assert!(d.bind(String::from("settings"), 7));
    assert!(!d.bind(String::from("settings"), 9));
    assert_eq!(d.lookup(&String::from("settings")), Some(7));
}

#[test]
fn bindings_are_independent() {
    let mut d = ServiceDirectory::new();
    assert!(d.bind(String::from("settings"), 7));
    assert!(d.bind(String::from("power"), 8));
    assert_eq!(d.lookup(&String::from("settings")), Some(7));
    assert_eq!(d.lookup(&String::from("power")), Some(8));
}
