//! Settings of the bridge.

use vstd::prelude::*;

use crate::text::{
    chars_of, decimal, law_decimal_reads_back, law_only_digits_are_a_number, parse_number, parse_u16,
};

verus! {

/// Port of the service manager, which the client has built in.
pub const DEFAULT_SERVICE_MANAGER_PORT: u16 = 50000;

/// Port of the core server.
pub const CORE_PORT: u16 = 50001;

/// Version that the client is told.
pub const DEFAULT_SERVICE_VERSION: &'static str = "2.0.1.1";

/// The number that the setting `value` gives, or `default` if the setting is
/// not there or is no number of 16 bits.
pub open spec fn setting(value: Option<&str>, default: nat) -> nat {
    match value {
        Some(v) => match parse_number(v@, 0xffff) {
            Some(n) => n,
            None => default,
        },
        None => default,
    }
}

/// Reads a setting of 16 bits.
pub fn u16_setting(value: Option<&str>, default: u16) -> (r: u16)
    ensures
        r == setting(value, default as nat),
{
    match value {
        Some(v) => {
            let cs = chars_of(v);
            match parse_u16(cs.as_slice()) {
                Some(n) => n,
                None => default,
            }
        },
        None => default,
    }
}

// ---------------------------------------------------------------------------
// Laws
// ---------------------------------------------------------------------------

/// A setting that writes a number of 16 bits gives that number, and one that is not
/// there the default.
pub proof fn law_setting_is_what_it_writes(value: &str, n: u16, default: nat)
    ensures
        value@ == decimal(n as nat) ==> setting(Some(value), default) == n,
        value@.len() == 0 ==> setting(Some(value), default) == default,
        setting(None, default) == default,
{
    law_decimal_reads_back(n as nat, 0xffff);
    law_only_digits_are_a_number(value@, 0xffff);
}

} // verus!
