use vstd::prelude::*;

use crate::chars::views;
use crate::classify::classify_kind;
use crate::classify::label_of;
use crate::classify::spec_kind;
use crate::classify::spec_label;
use crate::classify::AddressKind;
use crate::errors::CalcError;
use crate::expand::expand_address;
use crate::expand::spec_expand;
use crate::expand::spec_valid_literal;
use crate::expand::spec_wf_groups;
use crate::prefix::spec_prefix_validity;
use crate::prefix::validate_prefix;
use crate::prefix::PrefixValidity;
use crate::render::render_address;
use crate::render::spec_renders;
use crate::render::RenderedOutput;

verus! {

/// Everything one run of the calculator derives from a literal and a prefix.
pub struct SubnetReport {
    /// The eight expanded groups, four hexadecimal digits each.
    pub groups: Vec<String>,
    /// The detected address-type category.
    pub kind: AddressKind,
    /// Its display label; empty when no rule matched.
    pub type_label: String,
    /// Whether the prefix was accepted only with the short-prefix advisory.
    pub advisory: bool,
    /// The rendered binary segments and host-count statistic.
    pub output: RenderedOutput,
}

/// The whole pipeline of one run: expansion, classification, prefix
/// validation against the detected category, and segment rendering. Fails
/// with `MalformedAddress` exactly on invalid literals, and with
/// `InvalidPrefix` exactly when the prefix breaks the rule of the detected
/// category; the advisory for a short prefix is reported, not fatal.
pub fn compute(ipv6: &str, int_mask: i16) -> (r: Result<SubnetReport, CalcError>)
    ensures
        match r {
            Ok(rep) => {
                &&& spec_valid_literal(ipv6@)
                &&& views(rep.groups@) == spec_expand(ipv6@)
                &&& spec_wf_groups(views(rep.groups@))
                &&& rep.kind == spec_kind(ipv6@, spec_expand(ipv6@)[0])
                &&& rep.type_label@ == spec_label(rep.kind)
                &&& spec_prefix_validity(rep.kind, int_mask as int) != PrefixValidity::Invalid
                &&& rep.advisory == (spec_prefix_validity(rep.kind, int_mask as int)
                    == PrefixValidity::ValidWithAdvisory)
                &&& spec_renders(spec_expand(ipv6@), int_mask as int, rep.output)
            },
            Err(e) => {
                &&& (e == CalcError::MalformedAddress <==> !spec_valid_literal(ipv6@))
                &&& (e == CalcError::InvalidPrefix <==> spec_valid_literal(ipv6@)
                    && spec_prefix_validity(
                    spec_kind(ipv6@, spec_expand(ipv6@)[0]),
                    int_mask as int,
                ) == PrefixValidity::Invalid)
            },
        },
{
    let groups = match expand_address(ipv6) {
        Ok(g) => g,
        Err(e) => {
            return Err(e);
        },
    };
    let kind = classify_kind(ipv6, &groups);
    proof {
        assert(views(groups@)[0] == groups@[0]@);
    }
    let validity = validate_prefix(kind, int_mask);
    if matches!(validity, PrefixValidity::Invalid) {
        return Err(CalcError::InvalidPrefix);
    }
    let advisory = matches!(validity, PrefixValidity::ValidWithAdvisory);
    let type_label = label_of(kind);
    let output = render_address(&groups, int_mask);
    Ok(SubnetReport { groups, kind, type_label, advisory, output })
}

} // verus!
