use greasy_registry::{
    apply_events, decode_c_string, dispatch, encode_c_string, resolve_socket_path,
    ConnectionError, Global, RegistryEvent, RegistryState,
};

fn added(name: u32, interface: &str, version: u32) -> RegistryEvent {
    RegistryEvent::Global { name, interface: interface.to_string(), version }
}

fn names(state: &RegistryState) -> Vec<u32> {
    let mut out: Vec<u32> = state.snapshot().iter().map(|g| g.name).collect();
    out.sort();
    out
}

#[test]
fn new_registry_is_empty() {
    let state = RegistryState::new();
    assert!(state.is_empty());
    assert_eq!(state.len(), 0);
    assert!(state.snapshot().is_empty());
}

#[test]
fn no_events_leave_an_empty_snapshot() {
    let mut state = RegistryState::new();
    let results = apply_events(&mut state, &Vec::new());
    assert!(results.is_empty());
    assert!(state.snapshot().is_empty());
}

#[test]
fn add_add_remove_leaves_second_clock() {
    let mut state = RegistryState::new();
    let events = vec![added(1, "clock", 1), added(2, "clock", 1), RegistryEvent::GlobalRemove { name: 1 }];
    let results = apply_events(&mut state, &events);
    assert_eq!(results, vec![Ok(()), Ok(()), Ok(())]);
    let snapshot = state.snapshot();
    assert_eq!(snapshot.len(), 1);
    assert_eq!(snapshot[0].name, 2);
    assert_eq!(snapshot[0].interface, "clock");
    assert_eq!(snapshot[0].version, 1);
}

#[test]
fn final_names_are_added_and_not_removed() {
    let mut state = RegistryState::new();
    let events = vec![
        added(5, "wl_output", 4),
        added(7, "wl_seat", 7),
        added(9, "wl_compositor", 6),
        RegistryEvent::GlobalRemove { name: 7 },
        RegistryEvent::Unrecognized { opcode: 3 },
        added(7, "wl_seat", 8),
        RegistryEvent::GlobalRemove { name: 5 },
    ];
    apply_events(&mut state, &events);
    assert_eq!(names(&state), vec![7, 9]);
    let seat = state.find("wl_seat", 1).unwrap();
    assert_eq!(seat.version, 8);
}

#[test]
fn removing_an_unknown_name_is_reported_and_harmless() {
    let mut state = RegistryState::new();
    assert_eq!(dispatch(&mut state, added(3, "wl_shm", 1)), Ok(()));
    let outcome = dispatch(&mut state, RegistryEvent::GlobalRemove { name: 42 });
    assert_eq!(outcome, Err(ConnectionError::ProtocolConsistencyViolation { name: 42 }));
    assert_eq!(names(&state), vec![3]);
    assert_eq!(state.remove(42).unwrap_err(), ConnectionError::ProtocolConsistencyViolation { name: 42 });
}

#[test]
fn repeated_announcement_is_rejected() {
    let mut state = RegistryState::new();
    assert_eq!(dispatch(&mut state, added(1, "wl_output", 3)), Ok(()));
    let outcome = dispatch(&mut state, added(1, "wl_output", 4));
    assert_eq!(outcome, Err(ConnectionError::ProtocolConsistencyViolation { name: 1 }));
    let snapshot = state.snapshot();
    assert_eq!(snapshot.len(), 1);
    assert_eq!(snapshot[0].version, 3);
}

#[test]
fn unrecognized_events_are_ignored() {
    let mut state = RegistryState::new();
    assert_eq!(dispatch(&mut state, RegistryEvent::Unrecognized { opcode: 9 }), Ok(()));
    assert!(state.is_empty());
}

#[test]
fn remove_hands_back_the_global() {
    let mut state = RegistryState::new();
    state.add(Global { name: 4, interface: "wl_output".to_string(), version: 4 }).unwrap();
    state.add(Global { name: 6, interface: "wl_seat".to_string(), version: 7 }).unwrap();
    assert!(state.contains_name(6));
    let g = state.remove(6).unwrap();
    assert_eq!(g.interface, "wl_seat");
    assert_eq!(g.version, 7);
    assert!(!state.contains_name(6));
    assert_eq!(state.position_of(4), Some(0));
}

#[test]
fn find_respects_interface_and_minimum_version() {
    let mut state = RegistryState::new();
    state.add(Global { name: 1, interface: "wl_output".to_string(), version: 3 }).unwrap();
    state.add(Global { name: 2, interface: "wl_output".to_string(), version: 4 }).unwrap();
    state.add(Global { name: 3, interface: "wl_output".to_string(), version: 4 }).unwrap();
    assert_eq!(state.find("wl_output", 4).unwrap().name, 2);
    assert_eq!(state.find("wl_output", 1).unwrap().name, 1);
    assert!(state.find("wl_output", 5).is_none());
    assert!(state.find("wl_seat", 1).is_none());
}

#[test]
fn path_from_runtime_dir_and_display() {
    let path = resolve_socket_path(None, Some("/run/user/1000".to_string()), Some("wayland-0".to_string()));
    assert_eq!(path, Ok("/run/user/1000/wayland-0".to_string()));
}

#[test]
fn path_with_trailing_separator_gets_no_second_one() {
    let path = resolve_socket_path(None, Some("/run/user/1000/".to_string()), Some("wayland-1".to_string()));
    assert_eq!(path, Ok("/run/user/1000/wayland-1".to_string()));
}

#[test]
fn absolute_display_name_stands_for_itself() {
    let path = resolve_socket_path(None, Some("/run/user/1000".to_string()), Some("/tmp/wl.sock".to_string()));
    assert_eq!(path, Ok("/tmp/wl.sock".to_string()));
}

#[test]
fn explicit_path_wins() {
    let path = resolve_socket_path(Some("/tmp/explicit".to_string()), None, None);
    assert_eq!(path, Ok("/tmp/explicit".to_string()));
}

#[test]
fn missing_configuration_is_reported() {
    assert_eq!(
        resolve_socket_path(None, None, Some("wayland-0".to_string())),
        Err(ConnectionError::ConfigurationMissing)
    );
    assert_eq!(
        resolve_socket_path(None, Some("/run/user/1000".to_string()), None),
        Err(ConnectionError::ConfigurationMissing)
    );
}

#[test]
fn c_string_round_trip_for_printable_ascii() {
    let samples = ["", "a", "wl_output", "Hello, World! ~{}[]", " !\"#$%&'()*+,-./0123456789:;<=>?@"];
    for text in samples.iter() {
        let wire = encode_c_string(text).unwrap();
        assert_eq!(wire.len(), text.len() + 1);
        assert_eq!(*wire.last().unwrap(), 0u8);
        assert_eq!(decode_c_string(&wire), Some(text.to_string()));
    }
}

#[test]
fn c_string_decoding_rejects_bad_framing() {
    assert_eq!(decode_c_string(b""), None);
    assert_eq!(decode_c_string(b"abc"), None);
    assert_eq!(decode_c_string(b"a\0bc\0"), None);
    assert_eq!(decode_c_string(&[0xff, 0xfe, 0]), None);
    assert_eq!(decode_c_string(b"clock\0"), Some("clock".to_string()));
    assert_eq!(decode_c_string("h\u{e9}\0".as_bytes()), Some("h\u{e9}".to_string()));
}

#[test]
fn c_string_encoding_rejects_interior_nul() {
    assert_eq!(encode_c_string("a\0b"), None);
    assert_eq!(encode_c_string("wl"), Some(vec![b'w', b'l', 0]));
}
