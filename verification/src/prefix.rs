use vstd::prelude::*;

use crate::classify::AddressKind;

verus! {

/// The outcome of checking a requested prefix length.
#[derive(Clone, Copy, Debug, PartialEq, Eq, Structural)]
pub enum PrefixValidity {
    /// Accepted without remark.
    Valid,
    /// Accepted, but a non-fatal advisory is surfaced: such a short prefix is
    /// unusual for globally routed or link-local address types.
    ValidWithAdvisory,
    /// Rejected: a fatal input error with no recovery path.
    Invalid,
}

/// The general prefix rule, applied when no category override is in force:
/// 7 to 47 is accepted with an advisory, 48 to 128 is accepted silently,
/// anything else is rejected.
pub open spec fn spec_general_validity(m: int) -> PrefixValidity {
    if 7 <= m < 48 {
        PrefixValidity::ValidWithAdvisory
    } else if 48 <= m <= 128 {
        PrefixValidity::Valid
    } else {
        PrefixValidity::Invalid
    }
}

/// The per-category prefix rule. Link-local addresses accept only /64 and
/// loopback only /128; these overrides are stricter than the general rule and
/// take precedence over it. Every other category follows the general rule.
pub open spec fn spec_prefix_validity(k: AddressKind, m: int) -> PrefixValidity {
    match k {
        AddressKind::LinkLocal => if m == 64 {
            PrefixValidity::Valid
        } else {
            PrefixValidity::Invalid
        },
        AddressKind::Loopback => if m == 128 {
            PrefixValidity::Valid
        } else {
            PrefixValidity::Invalid
        },
        _ => spec_general_validity(m),
    }
}

/// Checks a prefix against the general rule.
pub fn is_mask_valid(int_mask: i16) -> (r: PrefixValidity)
    ensures
        r == spec_general_validity(int_mask as int),
{
    if 7 <= int_mask && int_mask < 48 {
        PrefixValidity::ValidWithAdvisory
    } else if 48 <= int_mask && int_mask <= 128 {
        PrefixValidity::Valid
    } else {
        PrefixValidity::Invalid
    }
}

/// Whether a prefix is acceptable for a link-local address: only /64 is.
pub fn is_mask_valid_local_link(int_mask: i16) -> (r: bool)
    ensures
        r == (int_mask == 64),
{
    int_mask == 64
}

/// Whether a prefix is acceptable for the loopback address: only /128 is.
pub fn is_mask_valid_loopback(int_mask: i16) -> (r: bool)
    ensures
        r == (int_mask == 128),
{
    int_mask == 128
}

/// Checks a prefix against the rule of the detected category, combining the
/// general rule with the link-local and loopback overrides.
pub fn validate_prefix(kind: AddressKind, int_mask: i16) -> (r: PrefixValidity)
    ensures
        r == spec_prefix_validity(kind, int_mask as int),
{
    match kind {
        AddressKind::LinkLocal => {
            if is_mask_valid_local_link(int_mask) {
                PrefixValidity::Valid
            } else {
                PrefixValidity::Invalid
            }
        },
        AddressKind::Loopback => {
            if is_mask_valid_loopback(int_mask) {
                PrefixValidity::Valid
            } else {
                PrefixValidity::Invalid
            }
        },
        _ => is_mask_valid(int_mask),
    }
}

} // verus!
