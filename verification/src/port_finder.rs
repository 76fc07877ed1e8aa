//! The port allocator: the first free port of a range, ascending.
//!
//! Whether a port is free is the host's business, so the caller hands in a
//! probe (the binary binds a TCP listener on the loopback interface and
//! reports whether that worked). The contract pins everything that does not
//! depend on the probe: a returned port lies in the range, is not excluded,
//! was accepted by the probe, and every smaller non-excluded candidate was
//! probed and turned down — the ascending scan makes the first free port win.

use vstd::prelude::*;

verus! {

fn slice_contains_u16(s: &[u16], x: u16) -> (r: bool)
    ensures
        r == s@.contains(x),
{
    let mut i: usize = 0;
    while i < s.len()
        invariant
            i <= s@.len(),
            forall|j: int| 0 <= j < i ==> s@[j] != x,
        decreases s@.len() - i,
    {
        if s[i] == x {
            return true;
        }
        i += 1;
    }
    false
}

/// Scans `start..=end` in ascending order and returns the first port that is
/// not in `exclude_ports` and that `probe` reports free; `None` when every
/// candidate is excluded or turned down.
pub fn find_available_port_in_range<F: Fn(u16) -> bool>(
    start: u16,
    end: u16,
    exclude_ports: &[u16],
    probe: F,
) -> (r: Option<u16>)
    requires
        forall|p: u16| start <= p <= end ==> call_requires(probe, (p,)),
    ensures
        match r {
            Some(p) => start <= p <= end && !exclude_ports@.contains(p) && call_ensures(
                probe,
                (p,),
                true,
            ) && (forall|q: u16|
                start <= q < p && !exclude_ports@.contains(q) ==> call_ensures(
                    probe,
                    (q,),
                    false,
                )),
            None => forall|q: u16|
                start <= q <= end && !exclude_ports@.contains(q) ==> call_ensures(
                    probe,
                    (q,),
                    false,
                ),
        },
{
    if start > end {
        return None;
    }
    let mut q = start;
    loop
        invariant
            start <= q <= end,
            forall|p: u16| start <= p <= end ==> call_requires(probe, (p,)),
            forall|p: u16|
                start <= p < q && !exclude_ports@.contains(p) ==> call_ensures(
                    probe,
                    (p,),
                    false,
                ),
        decreases end - q,
    {
        if !slice_contains_u16(exclude_ports, q) {
            if probe(q) {
                return Some(q);
            }
        }
        if q == end {
            return None;
        }
        q += 1;
    }
}

/// `find_available_port_in_range` over the default range `8000..=65535`.
pub fn find_available_port<F: Fn(u16) -> bool>(exclude_ports: &[u16], probe: F) -> (r: Option<
    u16,
>)
    requires
        forall|p: u16| 8000 <= p ==> call_requires(probe, (p,)),
    ensures
        match r {
            Some(p) => 8000 <= p && !exclude_ports@.contains(p) && call_ensures(probe, (p,), true)
                && (forall|q: u16|
                8000 <= q < p && !exclude_ports@.contains(q) ==> call_ensures(
                    probe,
                    (q,),
                    false,
                )),
            None => forall|q: u16|
                8000 <= q && !exclude_ports@.contains(q) ==> call_ensures(probe, (q,), false),
        },
{
    find_available_port_in_range(8000, 65535, exclude_ports, probe)
}

/// The characterization a successful allocation satisfies when the probe
/// behaves as the point function `avail`: `p` is in range, unclaimed, free,
/// and every smaller candidate is claimed or not free.
pub open spec fn is_first_free(
    start: u16,
    end: u16,
    claimed: Seq<u16>,
    avail: spec_fn(u16) -> bool,
    p: u16,
) -> bool {
    &&& start <= p <= end
    &&& !claimed.contains(p)
    &&& avail(p)
    &&& forall|q: u16| start <= q < p && !claimed.contains(q) ==> !avail(q)
}

/// The allocation depends only on which ports are excluded, never on the
/// order in which the exclusion set was written down: two runs over
/// exclusion lists with the same members, against the same port
/// availability, find the same port.
pub proof fn lemma_allocation_order_independent(
    start: u16,
    end: u16,
    ex1: Seq<u16>,
    ex2: Seq<u16>,
    avail: spec_fn(u16) -> bool,
    p1: u16,
    p2: u16,
)
    requires
        forall|p: u16| ex1.contains(p) <==> ex2.contains(p),
        is_first_free(start, end, ex1, avail, p1),
        is_first_free(start, end, ex2, avail, p2),
    ensures
        p1 == p2,
{
    if p1 < p2 {
        assert(!ex2.contains(p1));
        assert(!avail(p1));
    }
    if p2 < p1 {
        assert(!ex1.contains(p2));
        assert(!avail(p2));
    }
}

} // verus!
