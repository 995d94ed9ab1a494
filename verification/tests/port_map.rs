use flowlens::port_map::{be_port, program_for, PortCache, PortKey};

#[test]
fn program_lookup_goes_through_pid() {
    let mut cache = PortCache::new();
    assert_eq!(program_for(&cache, true, true, 443), None);
    cache.set_owner(PortKey { is_tcp: true, is_v4: true, port: 443 }, 10);
    assert_eq!(program_for(&cache, true, true, 443), None);
    cache.set_name(10, "svc.exe".to_string());
    assert_eq!(program_for(&cache, true, true, 443).as_deref(), Some("svc.exe"));
    assert_eq!(program_for(&cache, false, true, 443), None);
    assert_eq!(program_for(&cache, true, false, 443), None);
    cache.set_owner(PortKey { is_tcp: true, is_v4: true, port: 443 }, 11);
    cache.set_name(11, "other.exe".to_string());
    assert_eq!(program_for(&cache, true, true, 443).as_deref(), Some("other.exe"));
    let owners = cache.owners();
    assert_eq!(owners, vec![11]);
}

#[test]
fn ports_are_read_in_network_order() {
    assert_eq!(be_port(0x0000_BB01), u16::from_be(0xBB01));
    assert_eq!(be_port(0xFFFF_5000), u16::from_be(0x5000));
    assert_eq!(u16::from_be_bytes(be_port(0x0000_BB01).to_ne_bytes()), 0xBB01);
}
