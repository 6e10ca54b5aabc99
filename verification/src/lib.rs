//! IPv6 subnet calculator core.
//!
//! Expands a compressed IPv6 literal into its canonical eight-group form,
//! classifies the address into a named address-type category, validates a
//! requested prefix length against rules specific to that category, and
//! partitions the 128 address bits into network, subnet and host regions,
//! rendered as annotated binary text together with the host count.

pub mod chars;
pub mod classify;
pub mod errors;
pub mod expand;
pub mod pipeline;
pub mod prefix;
pub mod render;
