use ipcalc6::classify::AddressKind;
use ipcalc6::errors::CalcError;
use ipcalc6::expand::expand_address;
use ipcalc6::pipeline::compute;
use ipcalc6::render::render_address;

#[test]
fn render_link_local_64() {
    let groups = expand_address("fe80::1").unwrap();
    let out = render_address(&groups, 64);
    assert_eq!(out.addr, "fe80:0000:0000:0000:0000:0000:0000:0001");
    assert_eq!(
        out.addr_binary_network,
        "1111111010000000.0000000000000000.0000000000000000."
    );
    assert_eq!(
        out.netmask_binary_network,
        "1111111111111111.1111111111111111.1111111111111111."
    );
    assert_eq!(out.addr_binary_subnet, "0000000000000000.");
    assert_eq!(out.netmask_binary_subnet, "1111111111111111.");
    assert_eq!(
        out.addr_binary_client,
        "0000000000000000.0000000000000000.0000000000000000.0000000000000001"
    );
    assert_eq!(
        out.netmask_binary_client,
        "0000000000000000.0000000000000000.0000000000000000.0000000000000000"
    );
    assert_eq!(
        out.host_max_client,
        "1111111111111111.1111111111111111.1111111111111111.1111111111111111"
    );
    // host-count law at p = 64: exactly 2^64
    assert_eq!(out.num_of_host, 18446744073709551616u128);
}

#[test]
fn render_full_prefix_has_empty_host_segment() {
    let groups = expand_address("::1").unwrap();
    let out = render_address(&groups, 128);
    assert_eq!(out.addr_binary_client, "");
    assert_eq!(out.netmask_binary_client, "");
    assert_eq!(out.host_max_client, "");
    assert_eq!(out.num_of_host, 1u128);
}

#[test]
fn render_at_network_boundary() {
    let groups = expand_address("2001:db8::ff00:42:8329").unwrap();
    let out = render_address(&groups, 48);
    assert_eq!(out.addr_binary_subnet, "");
    assert_eq!(out.netmask_binary_subnet, "");
    // 2^80 host addresses
    assert_eq!(out.num_of_host, 1208925819614629174706176u128);
}

#[test]
fn render_segment_bit_counts() {
    let groups = expand_address("2001:db8::ff00:42:8329").unwrap();
    let out = render_address(&groups, 50);
    let count_bits = |s: &str| s.chars().filter(|c| *c != '.').count();
    assert_eq!(count_bits(&out.addr_binary_network), 48);
    assert_eq!(count_bits(&out.addr_binary_subnet), 2);
    assert_eq!(count_bits(&out.addr_binary_client), 78);
    assert_eq!(count_bits(&out.netmask_binary_network), 48);
    assert_eq!(count_bits(&out.netmask_binary_subnet), 2);
    assert_eq!(count_bits(&out.netmask_binary_client), 78);
}

#[test]
fn render_short_prefix_keeps_fixed_network_region() {
    // below the 48-bit boundary the network region keeps its 48 bits and the
    // host region starts at bit 48
    let groups = expand_address("fd00::1").unwrap();
    let out = render_address(&groups, 7);
    let count_bits = |s: &str| s.chars().filter(|c| *c != '.').count();
    assert_eq!(count_bits(&out.addr_binary_network), 48);
    assert_eq!(count_bits(&out.addr_binary_subnet), 0);
    assert_eq!(count_bits(&out.addr_binary_client), 80);
    assert_eq!(out.num_of_host, 1208925819614629174706176u128);
}

#[test]
fn host_min_and_max_bits() {
    let groups = expand_address("2a01:e34:eca7:c661::").unwrap();
    let out = render_address(&groups, 64);
    assert_eq!(out.netmask_binary_client.len(), out.host_max_client.len());
    for (lo, hi) in out
        .netmask_binary_client
        .chars()
        .zip(out.host_max_client.chars())
    {
        if lo == '.' {
            assert_eq!(hi, '.');
        } else {
            assert_eq!(lo, '0');
            assert_eq!(hi, '1');
        }
    }
}

#[test]
fn compute_link_local_accepts_only_64() {
    let rep = compute("fe80::1", 64).unwrap();
    assert_eq!(rep.kind, AddressKind::LinkLocal);
    assert_eq!(rep.type_label, "Link-Local Address");
    assert!(!rep.advisory);
    assert!(matches!(compute("fe80::1", 63), Err(CalcError::InvalidPrefix)));
    assert!(matches!(compute("fe80::1", 48), Err(CalcError::InvalidPrefix)));
}

#[test]
fn compute_loopback_accepts_only_128() {
    let rep = compute("::1", 128).unwrap();
    assert_eq!(rep.kind, AddressKind::Loopback);
    assert_eq!(rep.type_label, "Loopback Address");
    assert!(!rep.advisory);
    assert!(matches!(compute("::1", 64), Err(CalcError::InvalidPrefix)));
    assert!(matches!(compute("::1", 127), Err(CalcError::InvalidPrefix)));
}

#[test]
fn compute_unique_local_boundaries() {
    let rep = compute("fd00::1", 7).unwrap();
    assert_eq!(rep.kind, AddressKind::UniqueLocal);
    assert!(rep.advisory);
    assert!(matches!(compute("fd00::1", 6), Err(CalcError::InvalidPrefix)));
    assert!(matches!(compute("fd00::1", 127), Ok(_)));
}

#[test]
fn compute_rejects_malformed_address() {
    assert!(matches!(compute("not-an-ip", 64), Err(CalcError::MalformedAddress)));
    assert!(matches!(compute("1:2:3", 64), Err(CalcError::MalformedAddress)));
}

#[test]
fn compute_unicast_global_report() {
    let rep = compute("2001:db8::ff00:42:8329", 32).unwrap();
    assert_eq!(rep.kind, AddressKind::UnicastGlobal);
    assert_eq!(rep.type_label, "Unicast Global");
    assert!(rep.advisory);
    assert_eq!(
        rep.groups,
        vec!["2001", "0db8", "0000", "0000", "0000", "ff00", "0042", "8329"]
    );
}

#[test]
fn compute_is_idempotent() {
    let a = compute("2001:db8::ff00:42:8329", 64).unwrap();
    let b = compute("2001:db8::ff00:42:8329", 64).unwrap();
    assert_eq!(a.groups, b.groups);
    assert_eq!(a.kind, b.kind);
    assert_eq!(a.type_label, b.type_label);
    assert_eq!(a.advisory, b.advisory);
    assert_eq!(a.output.addr, b.output.addr);
    assert_eq!(a.output.addr_binary_network, b.output.addr_binary_network);
    assert_eq!(a.output.netmask_binary_network, b.output.netmask_binary_network);
    assert_eq!(a.output.addr_binary_subnet, b.output.addr_binary_subnet);
    assert_eq!(a.output.netmask_binary_subnet, b.output.netmask_binary_subnet);
    assert_eq!(a.output.addr_binary_client, b.output.addr_binary_client);
    assert_eq!(a.output.netmask_binary_client, b.output.netmask_binary_client);
    assert_eq!(a.output.host_max_client, b.output.host_max_client);
    assert_eq!(a.output.num_of_host, b.output.num_of_host);
}
