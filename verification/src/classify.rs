use vstd::prelude::*;
use vstd::string::*;

use crate::chars::hex_val;
use crate::chars::spec_hex_val;
use crate::chars::views;
use crate::expand::spec_wf_groups;

verus! {

/// The closed set of address-type categories the calculator distinguishes.
#[derive(Clone, Copy, Debug, PartialEq, Eq, Structural)]
pub enum AddressKind {
    UnicastGlobal,
    LinkLocal,
    UniqueLocal,
    Multicast,
    Loopback,
    Unknown,
}

/// The category of an address, decided by the textual loopback form `::1`
/// and otherwise by the four leading hexadecimal nibbles of the first
/// expanded group. The rules are disjoint: the unicast-global rule asks for a
/// leading nibble of 2 or 3, the three `f`-prefixed rules for distinct second
/// nibbles.
pub open spec fn spec_kind(lit: Seq<char>, g0: Seq<char>) -> AddressKind {
    if lit == seq![':', ':', '1'] {
        AddressKind::Loopback
    } else {
        let n0 = spec_hex_val(g0[0]);
        let n1 = spec_hex_val(g0[1]);
        let n2 = spec_hex_val(g0[2]);
        let n3 = spec_hex_val(g0[3]);
        if n0 == 15 && n1 == 15 {
            AddressKind::Multicast
        } else if n0 == 15 && n1 == 13 {
            AddressKind::UniqueLocal
        } else if n0 == 15 && n1 == 14 && n2 == 8 && n3 == 0 {
            AddressKind::LinkLocal
        } else if n0 == 2 || n0 == 3 {
            AddressKind::UnicastGlobal
        } else {
            AddressKind::Unknown
        }
    }
}

/// The display label of each category; the empty string when no rule matched.
pub open spec fn spec_label(k: AddressKind) -> Seq<char> {
    match k {
        AddressKind::UnicastGlobal => "Unicast Global"@,
        AddressKind::LinkLocal => "Link-Local Address"@,
        AddressKind::UniqueLocal => "Unique-Local Address"@,
        AddressKind::Multicast => "Multicast Address"@,
        AddressKind::Loopback => "Loopback Address"@,
        AddressKind::Unknown => Seq::<char>::empty(),
    }
}

/// Whether the literal is exactly the loopback form `::1`.
fn is_loopback_literal(ipv6: &str) -> (b: bool)
    ensures
        b == (ipv6@ == seq![':', ':', '1']),
{
    let n = ipv6.unicode_len();
    if n != 3 {
        return false;
    }
    let b = ipv6.get_char(0) == ':' && ipv6.get_char(1) == ':' && ipv6.get_char(2) == '1';
    proof {
        if b {
            assert(ipv6@ =~= seq![':', ':', '1']);
        }
    }
    b
}

/// Assigns the address-type category from the original literal and its
/// expanded groups: the loopback form is recognised textually, every other
/// rule reads the four nibbles of the first group. Later rules take
/// precedence over earlier ones, in the fixed order unicast-global,
/// link-local, unique-local, multicast.
pub fn classify_kind(ipv6: &str, groups: &Vec<String>) -> (k: AddressKind)
    requires
        spec_wf_groups(views(groups@)),
    ensures
        k == spec_kind(ipv6@, groups@[0]@),
{
    if is_loopback_literal(ipv6) {
        return AddressKind::Loopback;
    }
    let g0 = &groups[0];
    proof {
        assert(views(groups@)[0] == groups@[0]@);
    }
    let n0 = hex_val(g0.as_str().get_char(0));
    let n1 = hex_val(g0.as_str().get_char(1));
    let n2 = hex_val(g0.as_str().get_char(2));
    let n3 = hex_val(g0.as_str().get_char(3));
    let mut kind = AddressKind::Unknown;
    if n0 == 2 || n0 == 3 {
        kind = AddressKind::UnicastGlobal;
    }
    if n0 == 15 && n1 == 14 && n2 == 8 && n3 == 0 {
        kind = AddressKind::LinkLocal;
    }
    if n0 == 15 && n1 == 13 {
        kind = AddressKind::UniqueLocal;
    }
    if n0 == 15 && n1 == 15 {
        kind = AddressKind::Multicast;
    }
    kind
}

/// The display label of a category, as a fresh string.
pub fn label_of(k: AddressKind) -> (r: String)
    ensures
        r@ == spec_label(k),
{
    match k {
        AddressKind::UnicastGlobal => String::from_str("Unicast Global"),
        AddressKind::LinkLocal => String::from_str("Link-Local Address"),
        AddressKind::UniqueLocal => String::from_str("Unique-Local Address"),
        AddressKind::Multicast => String::from_str("Multicast Address"),
        AddressKind::Loopback => String::from_str("Loopback Address"),
        AddressKind::Unknown => {
            let r = String::new();
            proof {
                assert(r@ =~= Seq::<char>::empty());
            }
            r
        },
    }
}

/// Detects the address type and returns its display label: the empty string
/// when no classification rule matches.
pub fn detect_type(ipv6: &str, groups: &Vec<String>) -> (r: String)
    requires
        spec_wf_groups(views(groups@)),
    ensures
        r@ == spec_label(spec_kind(ipv6@, groups@[0]@)),
{
    let k = classify_kind(ipv6, groups);
    label_of(k)
}

} // verus!
