//! Permission check on the sensitive credentials file.

use vstd::prelude::*;

verus! {

/// The path whose permission bits are inspected.
pub const SENSITIVE_FILE: &'static str = "/etc/shadow";

/// The permission bits of the "others" class (read, write, execute).
pub open spec fn others_bits(mode: u32) -> nat {
    (mode % 8) as nat
}

/// A mode is secure when it grants the "others" class no access at all.
pub open spec fn mode_is_secure(mode: u32) -> bool {
    others_bits(mode) == 0
}

/// The verdict for a file whose mode is `mode`, or `None` when the file could
/// not be inspected: such a file counts as secure.
pub open spec fn verdict(mode: Option<u32>) -> bool {
    match mode {
        Some(m) => mode_is_secure(m),
        None => true,
    }
}

/// Decides whether the sensitive file is secure, from its permission mode
/// (`None` when it is missing or cannot be inspected).
pub fn check_integrity(mode: Option<u32>) -> (secure: bool)
    ensures
        secure == verdict(mode),
{
    match mode {
        Some(m) => {
            let others = m & 0o007;
            assert(m & 7u32 == m % 8u32) by (bit_vector);
            others == 0
        },
        None => true,
    }
}

} // verus!
