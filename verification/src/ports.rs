//! The port space and its division among workers.
//!
//! With `n` workers, worker `i` probes the ports `i, i + n, i + 2n, ...` up to
//! the highest port. The shares of the `n` workers are pairwise disjoint and
//! together cover every port.

use vstd::prelude::*;

verus! {

/// The highest TCP port.
pub const MAX_PORT: u16 = 65535;

/// The number of workers used when the caller names none.
pub const DEFAULT_WORKERS: u16 = 4;

/// How long one connection attempt may take, in milliseconds.
pub const TIMEOUT_MS: u64 = 200;

/// How many ports a worker probes that starts at `start` and advances by
/// `stride`, when `max` is the highest port.
pub open spec fn share_len(start: u16, stride: u16, max: u16) -> nat {
    if start > max || stride == 0 {
        0
    } else {
        ((max - start) / (stride as int) + 1) as nat
    }
}

/// The ports that such a worker probes, in the order in which it probes them.
pub open spec fn share(start: u16, stride: u16, max: u16) -> Seq<u16> {
    Seq::new(share_len(start, stride, max), |k: int| (start + k * stride) as u16)
}

/// The ports that some worker among `workers` many probes.
pub open spec fn assigned(workers: u16, max: u16) -> Set<u16> {
    Set::new(|p: u16| exists|i: u16| i < workers && #[trigger] share(i, workers, max).contains(p))
}

/// Every port of a share is the start plus a multiple of the stride, and none
/// exceeds the highest port: the cast in `share` never truncates.
pub proof fn lemma_share_index(start: u16, stride: u16, max: u16, k: int)
    requires
        0 <= k < share_len(start, stride, max),
    ensures
        share(start, stride, max)[k] == start + k * stride,
        start + k * stride <= max,
{
    let d = max - start;
    let s = stride as int;
    vstd::arithmetic::div_mod::lemma_fundamental_div_mod(d, s);
    assert(k * s <= (d / s) * s) by (nonlinear_arith)
        requires
            0 <= k <= d / s,
            s > 0,
    ;
    assert(s * (d / s) == (d / s) * s) by (nonlinear_arith);
    vstd::arithmetic::div_mod::lemma_mod_bound(d, s);
    assert(0 <= k * s) by (nonlinear_arith)
        requires
            0 <= k,
            s > 0,
    ;
}

/// The next port after `port` for a worker that advances by `stride`: `None`
/// where it would lie above `max`. The sum is never taken modulo 65536.
pub fn next_port(port: u16, stride: u16, max: u16) -> (next: Option<u16>)
    ensures
        next == (if port + stride <= max {
            Some((port + stride) as u16)
        } else {
            None
        }),
{
    match port.checked_add(stride) {
        Some(n) => if n <= max {
            Some(n)
        } else {
            None
        },
        None => None,
    }
}

/// A share is its first port followed by the share that starts one stride
/// further on; it is one port long where that next start lies above `max`.
pub proof fn lemma_share_unfold(start: u16, stride: u16, max: u16)
    requires
        stride >= 1,
        start <= max,
    ensures
        start + stride <= max ==> share(start, stride, max) == seq![start] + share(
            (start + stride) as u16,
            stride,
            max,
        ),
        start + stride > max ==> share(start, stride, max) == seq![start],
{
    let d = max - start;
    let s = stride as int;
    let whole = share(start, stride, max);
    if start + stride <= max {
        let later = (start + stride) as u16;
        let rest = share(later, stride, max);
        let q = (d - s) / s;
        let r = (d - s) % s;
        vstd::arithmetic::div_mod::lemma_fundamental_div_mod(d - s, s);
        vstd::arithmetic::div_mod::lemma_mod_bound(d - s, s);
        assert(d == (q + 1) * s + r) by (nonlinear_arith)
            requires
                d - s == s * q + r,
        ;
        vstd::arithmetic::div_mod::lemma_fundamental_div_mod_converse(d, s, q + 1, r);
        assert(whole.len() == rest.len() + 1);
        assert forall|k: int| 0 <= k < whole.len() implies whole[k] == (seq![start] + rest)[k] by {
            if k > 0 {
                assert(start + k * s == later + (k - 1) * s) by (nonlinear_arith)
                    requires
                        later == start + s,
                ;
            }
        }
        assert(whole =~= seq![start] + rest);
    } else {
        vstd::arithmetic::div_mod::lemma_fundamental_div_mod_converse(d, s, 0, d);
        assert(whole.len() == 1);
        assert(whole =~= seq![start]);
    }
}

/// The ports that the worker starting at `start` probes, in order.
pub fn assigned_ports(start: u16, stride: u16, max: u16) -> (ports: Vec<u16>)
    requires
        stride >= 1,
    ensures
        ports@ == share(start, stride, max),
{
    let mut ports: Vec<u16> = Vec::new();
    if start > max {
        assert(ports@ =~= share(start, stride, max));
        return ports;
    }
    let mut port: u16 = start;
    loop
        invariant_except_break
            stride >= 1,
            port <= max,
            ports@ + share(port, stride, max) == share(start, stride, max),
        ensures
            ports@ == share(start, stride, max),
        decreases max - port,
    {
        proof {
            lemma_share_unfold(port, stride, max);
        }
        let ghost before = ports@;
        ports.push(port);
        assert(ports@ =~= before + seq![port]);
        match next_port(port, stride, max) {
            Some(n) => {
                assert(ports@ + share(n, stride, max) =~= before + (seq![port] + share(
                    n,
                    stride,
                    max,
                )));
                port = n;
            },
            None => {
                break ;
            },
        }
    }
    ports
}

/// The start ports of `workers` many workers: `0, 1, ..., workers - 1`.
pub fn start_ports(workers: u16) -> (starts: Vec<u16>)
    ensures
        starts@ == Seq::new(workers as nat, |i: int| i as u16),
{
    let mut starts: Vec<u16> = Vec::new();
    let mut i: u16 = 0;
    while i < workers
        invariant
            i <= workers,
            starts@ == Seq::new(i as nat, |j: int| j as u16),
        decreases workers - i,
    {
        starts.push(i);
        i = i + 1;
        assert(starts@ =~= Seq::new(i as nat, |j: int| j as u16));
    }
    starts
}

/// The start port of the worker, among `workers` many, that probes `port`.
pub fn owner_of(port: u16, workers: u16) -> (start: u16)
    requires
        workers >= 1,
    ensures
        start == port % workers,
        start < workers,
        forall|max: u16| port <= max ==> #[trigger] share(start, workers, max).contains(port),
{
    let start: u16 = port % workers;
    proof {
        assert forall|max: u16| port <= max implies #[trigger] share(
            start,
            workers,
            max,
        ).contains(port) by {
            lemma_owner(workers, max, port);
        }
    }
    start
}

/// A port up to `max` stands in the share of worker `port % workers`, at
/// position `port / workers`.
pub proof fn lemma_owner(workers: u16, max: u16, port: u16)
    requires
        workers >= 1,
        port <= max,
    ensures
        port / workers < share_len(port % workers, workers, max),
        share(port % workers, workers, max)[(port / workers) as int] == port,
        share(port % workers, workers, max).contains(port),
{
    let n = workers as int;
    let p = port as int;
    let i = p % n;
    let k = p / n;
    vstd::arithmetic::div_mod::lemma_fundamental_div_mod(p, n);
    vstd::arithmetic::div_mod::lemma_mod_bound(p, n);
    assert(n * k == k * n) by (nonlinear_arith);
    assert(0 <= k) by (nonlinear_arith)
        requires
            k == p / n,
            p >= 0,
            n > 0,
    ;
    // max - i >= k * n, hence (max - i) / n >= k
    let d = max - i;
    vstd::arithmetic::div_mod::lemma_fundamental_div_mod(d, n);
    vstd::arithmetic::div_mod::lemma_mod_bound(d, n);
    assert(k <= d / n) by (nonlinear_arith)
        requires
            k * n <= d,
            d == n * (d / n) + d % n,
            0 <= d % n < n,
            n > 0,
    ;
    assert(share((port % workers), workers, max)[k] == port);
}

/// Only the worker `port % workers` probes `port`, and only once, at position
/// `port / workers`.
pub proof fn lemma_owner_unique(workers: u16, max: u16, start: u16, k: int)
    requires
        start < workers,
        0 <= k < share_len(start, workers, max),
    ensures
        start == share(start, workers, max)[k] % workers,
        k == share(start, workers, max)[k] / workers,
{
    lemma_share_index(start, workers, max, k);
    let p = share(start, workers, max)[k] as int;
    vstd::arithmetic::div_mod::lemma_fundamental_div_mod_converse(
        p,
        workers as int,
        k,
        start as int,
    );
}

/// The shares of the workers `0, ..., workers - 1` together hold exactly the
/// ports `0, ..., max`.
pub proof fn lemma_partition_complete(workers: u16, max: u16)
    requires
        workers >= 1,
    ensures
        assigned(workers, max) == Set::new(|p: u16| p <= max),
{
    assert forall|p: u16| assigned(workers, max).contains(p) <==> p <= max by {
        if p <= max {
            lemma_owner(workers, max, p);
            assert(p % workers < workers);
        }
        if assigned(workers, max).contains(p) {
            let i = choose|i: u16| i < workers && #[trigger] share(i, workers, max).contains(p);
            let k = choose|k: int|
                0 <= k < share(i, workers, max).len() && share(i, workers, max)[k] == p;
            lemma_share_index(i, workers, max, k);
        }
    }
    assert(assigned(workers, max) =~= Set::new(|p: u16| p <= max));
}

/// No port is probed twice: two places in the shares of the workers
/// `0, ..., workers - 1` that hold the same port are the same place.
pub proof fn lemma_partition_disjoint(workers: u16, max: u16, i: u16, j: u16, k: int, l: int)
    requires
        i < workers,
        j < workers,
        0 <= k < share_len(i, workers, max),
        0 <= l < share_len(j, workers, max),
        share(i, workers, max)[k] == share(j, workers, max)[l],
    ensures
        i == j,
        k == l,
{
    lemma_owner_unique(workers, max, i, k);
    lemma_owner_unique(workers, max, j, l);
}

/// A worker probes its ports in strictly increasing order, so it never comes
/// back to a port, whatever the stride.
pub proof fn lemma_share_increasing(start: u16, stride: u16, max: u16, k: int, l: int)
    requires
        0 <= k < l < share_len(start, stride, max),
    ensures
        share(start, stride, max)[k] < share(start, stride, max)[l],
        share(start, stride, max)[l] <= max,
{
    lemma_share_index(start, stride, max, k);
    lemma_share_index(start, stride, max, l);
    assert(k * stride < l * stride) by (nonlinear_arith)
        requires
            k < l,
            stride > 0,
    ;
}

/// A single worker probes every port from 0 to `max`, each at its own
/// position.
pub proof fn lemma_single_worker(max: u16)
    ensures
        share(0, 1, max) == Seq::new((max + 1) as nat, |p: int| p as u16),
{
    assert(share(0, 1, max) =~= Seq::new((max + 1) as nat, |p: int| p as u16));
}

} // verus!
