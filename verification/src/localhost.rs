//! Which callers are trusted to change captions.

use vstd::prelude::*;

use crate::text::same_text;

verus! {

/// The address from which a caller is trusted.
pub const LOCALHOST: &'static str = "127.0.0.1";

/// Whether a caller is trusted, by the address that its connection was made
/// to: only the loopback address is. The empty text stands for an address
/// that could not be found out.
pub fn is_localhost(client_ip: &str) -> (r: bool)
    ensures
        r == (client_ip@ == LOCALHOST@),
{
    same_text(client_ip, LOCALHOST)
}

} // verus!
