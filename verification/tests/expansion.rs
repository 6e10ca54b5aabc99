use ipcalc6::classify::detect_type;
use ipcalc6::classify::AddressKind;
use ipcalc6::errors::CalcError;
use ipcalc6::expand::expand_address;
use ipcalc6::expand::pad_section;
use ipcalc6::prefix::is_mask_valid;
use ipcalc6::prefix::is_mask_valid_local_link;
use ipcalc6::prefix::is_mask_valid_loopback;
use ipcalc6::prefix::validate_prefix;
use ipcalc6::prefix::PrefixValidity;
use ipcalc6::render::hex_to_bin;

fn groups_of(lit: &str) -> Vec<String> {
    expand_address(lit).expect("literal should be valid")
}

#[test]
fn pad_section_restores_leading_zeros() {
    assert_eq!(pad_section("e34"), "0e34");
    assert_eq!(pad_section("1"), "0001");
    assert_eq!(pad_section(""), "0000");
    assert_eq!(pad_section("abcd"), "abcd");
    assert_eq!(pad_section("12345"), "12345");
}

#[test]
fn hex_to_bin_fixed_width() {
    assert_eq!(hex_to_bin('0'), "0000");
    assert_eq!(hex_to_bin('7'), "0111");
    assert_eq!(hex_to_bin('a'), "1010");
    assert_eq!(hex_to_bin('F'), "1111");
    assert_eq!(hex_to_bin('8'), "1000");
}

#[test]
fn expand_full_form() {
    assert_eq!(
        groups_of("fe80:0:0:0:0:0:0:1"),
        vec!["fe80", "0000", "0000", "0000", "0000", "0000", "0000", "0001"]
    );
}

#[test]
fn expand_elision_position_invariant() {
    // the compressed and the fully written literal expand identically
    assert_eq!(groups_of("fe80::1"), groups_of("fe80:0:0:0:0:0:0:1"));
    assert_eq!(
        groups_of("fe80::1"),
        vec!["fe80", "0000", "0000", "0000", "0000", "0000", "0000", "0001"]
    );
}

#[test]
fn expand_leading_elision() {
    assert_eq!(
        groups_of("::1"),
        vec!["0000", "0000", "0000", "0000", "0000", "0000", "0000", "0001"]
    );
}

#[test]
fn expand_trailing_elision() {
    assert_eq!(
        groups_of("2a01:e34:eca7:c661::"),
        vec!["2a01", "0e34", "eca7", "c661", "0000", "0000", "0000", "0000"]
    );
}

#[test]
fn expand_double_colon_only() {
    assert_eq!(
        groups_of("::"),
        vec!["0000", "0000", "0000", "0000", "0000", "0000", "0000", "0000"]
    );
}

#[test]
fn expand_inner_elision() {
    // three zero groups inserted at the elision point
    assert_eq!(
        groups_of("2001:db8::ff00:42:8329"),
        vec!["2001", "0db8", "0000", "0000", "0000", "ff00", "0042", "8329"]
    );
}

#[test]
fn expand_elision_with_zero_implied_groups() {
    assert_eq!(
        groups_of("1:2:3:4:5:6:7::8"),
        vec!["0001", "0002", "0003", "0004", "0005", "0006", "0007", "0008"]
    );
    assert_eq!(
        groups_of("1:2:3:4:5:6:7:8::"),
        vec!["0001", "0002", "0003", "0004", "0005", "0006", "0007", "0008"]
    );
}

#[test]
fn expand_always_eight_groups_of_four() {
    for lit in [
        "::",
        "::1",
        "fe80::1",
        "1:2:3:4:5:6:7:8",
        "2001:db8::ff00:42:8329",
        "2a01:e34:eca7:c661::",
    ] {
        let groups = groups_of(lit);
        assert_eq!(groups.len(), 8);
        for g in &groups {
            assert_eq!(g.len(), 4);
            assert!(g.chars().all(|c| c.is_ascii_hexdigit()));
        }
    }
}

#[test]
fn expand_rejects_malformed_literals() {
    for lit in [
        "",
        ":",
        ":::",
        "1:2:3",
        "1:2:3:4:5:6:7",
        "1:2:3:4:5:6:7:8:9",
        "1::2::3",
        ":1:2:3:4:5:6:7:8",
        "1:2:3:4:5:6:7:8:",
        "12345::",
        "g::1",
        "::1:2:3:4:5:6:7:8:9",
    ] {
        assert_eq!(
            expand_address(lit),
            Err(CalcError::MalformedAddress),
            "literal {:?} should be rejected",
            lit
        );
    }
}

#[test]
fn detect_type_link_local() {
    let groups = groups_of("fe80::1");
    assert_eq!(detect_type("fe80::1", &groups), "Link-Local Address");
}

#[test]
fn detect_type_loopback() {
    let groups = groups_of("::1");
    assert_eq!(detect_type("::1", &groups), "Loopback Address");
}

#[test]
fn detect_type_unicast_global() {
    let groups = groups_of("2001:db8::ff00:42:8329");
    assert_eq!(detect_type("2001:db8::ff00:42:8329", &groups), "Unicast Global");
    let groups = groups_of("3fff::1");
    assert_eq!(detect_type("3fff::1", &groups), "Unicast Global");
}

#[test]
fn detect_type_unique_local() {
    let groups = groups_of("fd12:3456::1");
    assert_eq!(detect_type("fd12:3456::1", &groups), "Unique-Local Address");
}

#[test]
fn detect_type_multicast() {
    let groups = groups_of("ff02::1");
    assert_eq!(detect_type("ff02::1", &groups), "Multicast Address");
}

#[test]
fn detect_type_no_rule_matches() {
    let groups = groups_of("abcd::1");
    assert_eq!(detect_type("abcd::1", &groups), "");
    // a short first group reads as its padded nibbles, not the raw text
    let groups = groups_of("2::1");
    assert_eq!(detect_type("2::1", &groups), "");
}

#[test]
fn general_mask_rule_boundaries() {
    assert_eq!(is_mask_valid(6), PrefixValidity::Invalid);
    assert_eq!(is_mask_valid(7), PrefixValidity::ValidWithAdvisory);
    assert_eq!(is_mask_valid(47), PrefixValidity::ValidWithAdvisory);
    assert_eq!(is_mask_valid(48), PrefixValidity::Valid);
    assert_eq!(is_mask_valid(64), PrefixValidity::Valid);
    assert_eq!(is_mask_valid(128), PrefixValidity::Valid);
    assert_eq!(is_mask_valid(129), PrefixValidity::Invalid);
    assert_eq!(is_mask_valid(0), PrefixValidity::Invalid);
    assert_eq!(is_mask_valid(-5), PrefixValidity::Invalid);
}

#[test]
fn link_local_and_loopback_overrides() {
    assert!(is_mask_valid_local_link(64));
    assert!(!is_mask_valid_local_link(63));
    assert!(is_mask_valid_loopback(128));
    assert!(!is_mask_valid_loopback(64));

    assert_eq!(validate_prefix(AddressKind::LinkLocal, 64), PrefixValidity::Valid);
    assert_eq!(validate_prefix(AddressKind::LinkLocal, 48), PrefixValidity::Invalid);
    assert_eq!(validate_prefix(AddressKind::Loopback, 128), PrefixValidity::Valid);
    assert_eq!(validate_prefix(AddressKind::Loopback, 64), PrefixValidity::Invalid);
}

#[test]
fn unique_local_boundary_prefixes() {
    // 7 is the smallest accepted prefix, with an advisory; 6 and 129 are fatal
    assert_eq!(
        validate_prefix(AddressKind::UniqueLocal, 7),
        PrefixValidity::ValidWithAdvisory
    );
    assert_eq!(validate_prefix(AddressKind::UniqueLocal, 6), PrefixValidity::Invalid);
    assert_eq!(validate_prefix(AddressKind::UniqueLocal, 129), PrefixValidity::Invalid);
}
