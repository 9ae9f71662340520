//! The port allocator: derives the next available port from the ports the
//! registry has already handed out, scanning the configured closed-open
//! range in ascending order.

use vstd::prelude::*;

use crate::errors::ClientError;

verus! {

/// The first free port of `[min_port, max_port)`, if one exists: the least
/// port of the range that `used` does not contain.
pub open spec fn is_first_free_port(p: i64, min_port: i64, max_port: i64, used: Seq<i64>) -> bool {
    &&& min_port <= p < max_port
    &&& !used.contains(p)
    &&& forall|q: i64| min_port <= q < p ==> used.contains(q)
}

/// Whether a port remains free in `[min_port, max_port)`.
pub open spec fn some_port_free(min_port: i64, max_port: i64, used: Seq<i64>) -> bool {
    exists|q: i64| min_port <= q < max_port && !(#[trigger] used.contains(q))
}

/// Whether `v` holds `p`.
fn contains_port(v: &Vec<i64>, p: i64) -> (r: bool)
    ensures
        r == v@.contains(p),
{
    let n = v.len();
    let mut i: usize = 0;
    while i < n
        invariant
            i <= n,
            n == v@.len(),
            forall|k: int| 0 <= k < i ==> v@[k] != p,
        decreases n - i,
    {
        if v[i] == p {
            return true;
        }
        i += 1;
    }
    false
}

/// Allocation: the first port of `[min_port, max_port)` not yet used, or
/// `NoPortAvailable` when every port of the range is taken (in particular
/// when the range is empty). Deterministic and side-effect-free; reserving
/// the chosen port is the caller's concern.
pub fn allocate(min_port: i64, max_port: i64, used: &Vec<i64>) -> (r: Result<i64, ClientError>)
    ensures
        r matches Ok(p) ==> is_first_free_port(p, min_port, max_port, used@),
        r matches Err(e) ==> e matches ClientError::NoPortAvailable,
        r is Ok <==> some_port_free(min_port, max_port, used@),
{
    if min_port >= max_port {
        return Err(ClientError::NoPortAvailable);
    }
    let mut p: i64 = min_port;
    while p < max_port
        invariant
            min_port <= p <= max_port,
            forall|q: i64| min_port <= q < p ==> used@.contains(q),
        decreases max_port - p,
    {
        if !contains_port(used, p) {
            return Ok(p);
        }
        p += 1;
    }
    Err(ClientError::NoPortAvailable)
}

} // verus!
