//! Network address validation.

use vstd::prelude::*;
use crate::types::DiagError;
use vstd::string::StrSliceExecFns;

verus! {

/// Validates an endpoint address. A parseable socket address always
/// contains a colon, and the hostname fallback accepts any string with
/// one, so acceptance reduces to exactly that: the address must have
/// the `host:port` shape, with a colon separating the two.
pub fn validate_ip_port(addr: &str) -> (r: Result<(), DiagError>)
    ensures
        r is Ok <==> (exists|i: int| 0 <= i < addr@.len() && addr@[i] == ':'),
        r is Err ==> r == Err::<(), DiagError>(DiagError::InvalidAddress),
{
    let n = addr.unicode_len();
    let mut i: usize = 0;
    while i < n
        invariant
            n == addr@.len(),
            i <= n,
            forall|j: int| 0 <= j < i ==> addr@[j] != ':',
        decreases n - i,
    {
        if addr.get_char(i) == ':' {
            return Ok(());
        }
        i = i + 1;
    }
    Err(DiagError::InvalidAddress)
}

} // verus!
