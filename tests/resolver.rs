use netmon::resolver::{resolved_name, AddressResolver};

#[test]
fn fixed_names_regardless_of_state() {
    for on in [true, false] {
        let mut r = AddressResolver::new(on);
        assert_eq!(r.resolve_address("0.0.0.0:*").0, "ANY");
        assert_eq!(r.resolve_address("*:*").0, "ANY");
        assert_eq!(r.resolve_address("[::]:*").0, "ANY");
        assert_eq!(r.resolve_address("127.0.0.1:80").0, "LOCALHOST");
        assert_eq!(r.resolve_address("[::1]:443").0, "LOCALHOST");
        assert_eq!(r.resolve_address("224.0.0.251:5353").0, "MDNS");
        assert!(r.resolve_address("127.0.0.1:80").1.is_none());
    }
}

#[test]
fn disabled_resolver_shows_address() {
    let mut r = AddressResolver::new(false);
    let (shown, request) = r.resolve_address("93.184.216.34:443");
    assert_eq!(shown, "93.184.216.34:443");
    assert!(request.is_none());
    assert!(!r.get_resolve_hosts());
}

#[test]
fn one_pending_lookup_per_ip() {
    let mut r = AddressResolver::new(true);
    let mut lookups = 0;
    for _ in 0..2 {
        let (shown, request) = r.resolve_address("93.184.216.34:443");
        assert_eq!(shown, "93.184.216.34:443");
        if request.is_some() {
            lookups += 1;
        }
    }
    let (_, other_port) = r.resolve_address("93.184.216.34:80");
    assert!(other_port.is_none());
    assert_eq!(lookups, 1);
}

#[test]
fn completed_lookup_is_cached_and_releases_ip() {
    let mut r = AddressResolver::new(true);
    let (_, request) = r.resolve_address("[2606:2800:220:1::]:443");
    let request = request.unwrap();
    assert_eq!(request.ip, "2606:2800:220:1::");
    assert_eq!(request.port, "443");
    let output = "1.0.0.0.0.0.0.0.0.0.0.0.0.0.0.0.1.0.0.0.0.2.2.0.0.0.8.2.6.0.6.2.ip6.arpa domain name pointer example.org.\n";
    r.complete_lookup(&request, Some(output));
    assert_eq!(r.resolve_address("[2606:2800:220:1::]:443").0, "example.org:443");
    let (_, again) = r.resolve_address("[2606:2800:220:1::]:80");
    assert!(again.is_some());
}

#[test]
fn failed_lookup_caches_address_and_releases_ip() {
    let mut r = AddressResolver::new(true);
    let request = r.resolve_address("10.0.0.7:22").1.unwrap();
    r.complete_lookup(&request, None);
    assert_eq!(r.resolve_address("10.0.0.7:22").0, "10.0.0.7:22");
    assert!(r.resolve_address("10.0.0.7:23").1.is_some());
}

#[test]
fn disabling_clears_cache() {
    let mut r = AddressResolver::new(true);
    let request = r.resolve_address("10.0.0.8:22").1.unwrap();
    r.complete_lookup(&request, Some("8.0.0.10.in-addr.arpa domain name pointer box.lan.\n"));
    assert_eq!(r.resolve_address("10.0.0.8:22").0, "box.lan:22");
    r.set_resolve_hosts(false);
    r.set_resolve_hosts(true);
    assert!(r.get_resolve_hosts());
    assert_eq!(r.resolve_address("10.0.0.8:22").0, "10.0.0.8:22");
    r.clear_cache();
    assert_eq!(r.resolve_address("10.0.0.8:22").0, "10.0.0.8:22");
}

#[test]
fn lookup_output_parsing() {
    assert_eq!(resolved_name(Some("x domain name pointer host.example.com.\n"), "1.2.3.4:80", "80"), "host.example.com:80");
    assert_eq!(resolved_name(Some("x domain name pointer b.a.com.\nb.a.com has address 1.2.3.4\n"), "1.2.3.4", ""), "b.a.com");
    assert_eq!(resolved_name(Some("Host 4.3.2.1.in-addr.arpa. not found: 3(NXDOMAIN)\n"), "1.2.3.4:80", "80"), "1.2.3.4:80");
    assert_eq!(resolved_name(Some("a domain name pointer one.\nb domain name pointer two..\n"), "a", "1"), "two:1");
    assert_eq!(resolved_name(None, "1.2.3.4:80", "80"), "1.2.3.4:80");
}
