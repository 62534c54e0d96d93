use busd::address::{
    canonical_address, parse_address, resolve_address, AddressError, BusAddress, Transport,
    UnixSocket,
};
use busd::bus::{
    default_address, listener_plan, AcceptEvent, AuthMechanism, Bus, ListenError, ListenPlan,
    LoopAction,
};
use busd::guid::check_guid;

fn is_hex(s: &str) -> bool {
    !s.is_empty() && s.chars().all(|c| c.is_ascii_hexdigit())
}

#[test]
fn parse_unix_path_with_guid() {
    let guid = "0123456789abcdef0123456789abcdef";
    let a = parse_address(&format!("unix:path=/tmp/sock,guid={guid}")).unwrap();
    match &a.transport {
        Transport::Unix(UnixSocket::File(p)) => assert_eq!(p, "/tmp/sock"),
        _ => panic!("wrong transport"),
    }
    assert_eq!(a.guid.as_deref(), Some(guid));
}

#[test]
fn parse_unix_submodes() {
    assert!(matches!(
        parse_address("unix:abstract=my-bus").unwrap().transport,
        Transport::Unix(UnixSocket::Abstract(ref n)) if n == "my-bus"
    ));
    assert!(matches!(
        parse_address("unix:dir=/tmp/d").unwrap().transport,
        Transport::Unix(UnixSocket::Dir(ref d)) if d == "/tmp/d"
    ));
    assert!(matches!(
        parse_address("unix:tmpdir=/tmp/d").unwrap().transport,
        Transport::Unix(UnixSocket::TmpDir(ref d)) if d == "/tmp/d"
    ));
}

#[test]
fn parse_tcp() {
    let a = parse_address("tcp:host=127.0.0.1,port=4242").unwrap();
    match &a.transport {
        Transport::Tcp(t) => {
            assert_eq!(t.host, "127.0.0.1");
            assert_eq!(t.port, 4242);
            assert!(t.nonce_file.is_none());
        },
        _ => panic!("wrong transport"),
    }
    assert!(a.guid.is_none());
}

#[test]
fn parse_rejects_malformed() {
    assert_eq!(parse_address(""), Err(AddressError::Malformed));
    assert_eq!(parse_address("unix"), Err(AddressError::Malformed));
    assert_eq!(parse_address(":path=/a"), Err(AddressError::Malformed));
    assert_eq!(parse_address("unix:"), Err(AddressError::Malformed));
    assert_eq!(parse_address("unix:foo=blah"), Err(AddressError::Malformed));
    assert_eq!(
        parse_address("unix:path=/a,abstract=b"),
        Err(AddressError::Malformed)
    );
    assert_eq!(parse_address("unix:path="), Err(AddressError::Malformed));
    assert_eq!(parse_address("tcp:host=localhost"), Err(AddressError::Malformed));
    assert_eq!(
        parse_address("tcp:host=localhost,port=32f"),
        Err(AddressError::Malformed)
    );
    assert_eq!(
        parse_address("tcp:host=localhost,port=65536"),
        Err(AddressError::Malformed)
    );
    assert_eq!(
        parse_address("unix:path=/a,guid=tooshort"),
        Err(AddressError::Malformed)
    );
    assert_eq!(parse_address("unix:path=/a,"), Err(AddressError::Malformed));
}

#[test]
fn parse_rejects_unsupported_transport() {
    assert_eq!(parse_address("foo:opt=1"), Err(AddressError::Unsupported));
    assert_eq!(
        parse_address("vsock:cid=1,port=2"),
        Err(AddressError::Unsupported)
    );
    assert_eq!(
        parse_address("autolaunch:scope=user"),
        Err(AddressError::Unsupported)
    );
}

#[test]
fn parse_port_bounds() {
    assert!(matches!(
        parse_address("tcp:host=h,port=0").unwrap().transport,
        Transport::Tcp(ref t) if t.port == 0
    ));
    assert!(matches!(
        parse_address("tcp:host=h,port=65535").unwrap().transport,
        Transport::Tcp(ref t) if t.port == 65535
    ));
}

#[test]
fn parse_duplicate_key_last_wins() {
    let a = parse_address("unix:path=/a,path=/b").unwrap();
    assert!(matches!(
        a.transport,
        Transport::Unix(UnixSocket::File(ref p)) if p == "/b"
    ));
}

#[test]
fn parse_ignores_unknown_keys() {
    let a = parse_address("unix:path=/a,flavour=strong").unwrap();
    assert!(matches!(
        a.transport,
        Transport::Unix(UnixSocket::File(ref p)) if p == "/a"
    ));
}

#[test]
fn canonical_text_round_trips() {
    let guid = "00112233445566778899aabbccddeeff";
    let spec = format!("unix:path=/run/bus/sock,guid={guid}");
    let a = parse_address(&spec).unwrap();
    let rendered = canonical_address(&a);
    assert_eq!(rendered, spec);
    let b = parse_address(&rendered).unwrap();
    assert_eq!(canonical_address(&b), spec);
}

#[test]
fn canonical_text_tcp() {
    let a = parse_address("tcp:host=1.2.3.4,port=7000").unwrap();
    assert_eq!(canonical_address(&a), "tcp:host=1.2.3.4,port=7000");
}

#[test]
fn resolve_preserves_explicit_guid() {
    let guid = "a1b2c3d4e5f6a7b8c9d0e1f2a3b4c5d6";
    let r = resolve_address(&format!("unix:path=/tmp/x,guid={guid}")).unwrap();
    assert_eq!(r.guid.as_deref(), Some(guid));
}

#[test]
fn resolve_generates_fresh_valid_guids() {
    let r1 = resolve_address("unix:path=/tmp/x").unwrap();
    let r2 = resolve_address("unix:path=/tmp/x").unwrap();
    let g1 = r1.guid.unwrap();
    let g2 = r2.guid.unwrap();
    assert_eq!(g1.len(), 32);
    assert_eq!(g2.len(), 32);
    assert!(is_hex(&g1));
    assert!(is_hex(&g2));
    assert!(check_guid(&g1));
    assert_ne!(g1, g2);
}

#[test]
fn resolve_dir_hint_synthesizes_distinct_paths() {
    let r1 = resolve_address("unix:dir=/tmp/testbus").unwrap();
    let r2 = resolve_address("unix:dir=/tmp/testbus").unwrap();
    let p1 = match &r1.transport {
        Transport::Unix(UnixSocket::File(p)) => p.clone(),
        _ => panic!("dir hint must resolve to a concrete path"),
    };
    let p2 = match &r2.transport {
        Transport::Unix(UnixSocket::File(p)) => p.clone(),
        _ => panic!("dir hint must resolve to a concrete path"),
    };
    assert_ne!(p1, p2);
    for p in [&p1, &p2] {
        let suffix = p.strip_prefix("/tmp/testbus/dbus-").unwrap();
        assert!(!suffix.is_empty());
        assert!(suffix.chars().all(|c| c.is_ascii_digit()));
        let n: u64 = suffix.parse().unwrap();
        assert!((1_000_000..u32::MAX as u64).contains(&n));
    }
}

#[test]
fn resolved_dir_address_is_dialable_verbatim() {
    let r = resolve_address("unix:dir=/tmp/testbus").unwrap();
    let rendered = canonical_address(&r);
    let guid = r.guid.clone().unwrap();
    let path = match &r.transport {
        Transport::Unix(UnixSocket::File(p)) => p.clone(),
        _ => panic!("dir hint must resolve to a concrete path"),
    };
    assert_eq!(rendered, format!("unix:path={path},guid={guid}"));
    let back: BusAddress = parse_address(&rendered).unwrap();
    assert!(matches!(
        back.transport,
        Transport::Unix(UnixSocket::File(ref p)) if *p == path
    ));
    assert_eq!(back.guid.as_deref(), Some(guid.as_str()));
}

#[test]
fn default_address_uses_runtime_dir() {
    assert_eq!(
        default_address(Some("/run/user/1000"), 0),
        "unix:dir=/run/user/1000"
    );
}

#[test]
fn default_address_falls_back_to_uid_path() {
    assert_eq!(default_address(None, 1234), "unix:dir=/run/user/1234");
}

#[test]
fn for_address_unix_picks_external_auth() {
    let bus = Bus::for_address(Some("unix:dir=/tmp/testbus"), None, 0).unwrap();
    assert_eq!(bus.auth_mechanism(), AuthMechanism::External);
    assert_eq!(bus.guid().len(), 32);
    assert!(is_hex(bus.guid()));
    assert!(matches!(
        bus.address().transport,
        Transport::Unix(UnixSocket::File(_))
    ));
}

#[test]
fn for_address_tcp_picks_anonymous_auth() {
    let bus = Bus::for_address(Some("tcp:host=127.0.0.1,port=4242"), None, 0).unwrap();
    assert_eq!(bus.auth_mechanism(), AuthMechanism::Anonymous);
    assert!(bus.cleanup_target().is_none());
}

#[test]
fn for_address_default_is_runtime_dir_hint() {
    let bus = Bus::for_address(None, Some("/tmp/rtd"), 0).unwrap();
    let target = bus.cleanup_target().unwrap();
    assert!(target.starts_with("/tmp/rtd/dbus-"));
}

#[test]
fn for_address_reports_bad_specs() {
    assert_eq!(
        Bus::for_address(Some("nope"), None, 0).err(),
        Some(AddressError::Malformed)
    );
    assert_eq!(
        Bus::for_address(Some("vsock:cid=3"), None, 0).err(),
        Some(AddressError::Unsupported)
    );
}

#[test]
fn listener_plan_covers_both_transports() {
    let a = parse_address("unix:path=/tmp/s").unwrap();
    assert!(matches!(
        listener_plan(&a),
        Ok(ListenPlan::UnixPath(ref p)) if p == "/tmp/s"
    ));
    let b = parse_address("unix:abstract=busname").unwrap();
    assert!(matches!(
        listener_plan(&b),
        Ok(ListenPlan::UnixAbstract(ref n)) if n == "busname"
    ));
    let c = parse_address("tcp:host=::1,port=11").unwrap();
    assert!(matches!(
        listener_plan(&c),
        Ok(ListenPlan::Tcp(ref h, 11)) if h == "::1"
    ));
}

#[test]
fn listener_plan_rejects_nonce_tcp() {
    let a = parse_address("tcp:host=h,port=1,noncefile=/tmp/nonce").unwrap();
    assert_eq!(listener_plan(&a), Err(ListenError::NonceTcpUnsupported));
}

#[test]
fn listener_plan_rejects_unresolved_hint() {
    let a = parse_address("unix:dir=/tmp/d").unwrap();
    assert_eq!(listener_plan(&a), Err(ListenError::UnresolvedAddress));
}

#[test]
fn cleanup_target_only_for_socket_files() {
    let file = Bus::for_address(Some("unix:path=/tmp/cleanme"), None, 0).unwrap();
    assert_eq!(file.cleanup_target().as_deref(), Some("/tmp/cleanme"));
    let abs = Bus::for_address(Some("unix:abstract=nofile"), None, 0).unwrap();
    assert!(abs.cleanup_target().is_none());
    let tcp = Bus::for_address(Some("tcp:host=h,port=1"), None, 0).unwrap();
    assert!(tcp.cleanup_target().is_none());
}

#[test]
fn peer_ids_start_at_one_and_increase() {
    let mut bus = Bus::for_address(Some("unix:path=/tmp/ids"), None, 0).unwrap();
    assert_eq!(bus.next_id(), 1);
    assert_eq!(bus.next_id(), 2);
    assert_eq!(bus.next_id(), 3);
}

#[test]
fn accept_loop_swallows_admission_failures() {
    let mut bus = Bus::for_address(Some("unix:path=/tmp/loop"), None, 0).unwrap();
    assert_eq!(bus.accept_step(AcceptEvent::Accepted), LoopAction::Admit(1));
    assert_eq!(
        bus.accept_step(AcceptEvent::AdmissionFailed),
        LoopAction::Continue
    );
    assert_eq!(bus.accept_step(AcceptEvent::Accepted), LoopAction::Admit(2));
    assert_eq!(
        bus.accept_step(AcceptEvent::AdmissionFailed),
        LoopAction::Continue
    );
    assert_eq!(bus.accept_step(AcceptEvent::Accepted), LoopAction::Admit(3));
    assert_eq!(
        bus.accept_step(AcceptEvent::AcceptFailed),
        LoopAction::Terminate
    );
}

#[test]
fn guid_checks() {
    assert!(check_guid("0123456789abcdef0123456789ABCDEF"));
    assert!(!check_guid(""));
    assert!(!check_guid("0123456789abcdef0123456789abcde"));
    assert!(!check_guid("0123456789abcdef0123456789abcdeg"));
}
