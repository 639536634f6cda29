//! A scan as a whole: the request, the workers it is handed to, and what the
//! scan finds on a host whose open ports are known.

use crate::aggregate::{ascending, lemma_arrival_order_irrelevant, ScanResult};
use crate::args::{Argument, IpAddress};
use crate::ports::{
    lemma_owner, lemma_owner_unique, lemma_share_increasing, lemma_share_index, share, MAX_PORT,
    TIMEOUT_MS,
};
use crate::worker::{ConnectOutcome, Worker};
use vstd::multiset::Multiset;
use vstd::prelude::*;

verus! {

/// What is to be scanned, and with how many workers.
#[derive(Clone, Copy, Debug)]
pub struct ScanRequest {
    /// The host to scan.
    pub target: IpAddress,
    /// The number of workers: the stride of each.
    pub worker_count: u16,
    /// How long one connection attempt may take, in milliseconds.
    pub timeout_ms: u64,
}

impl ScanRequest {
    /// There is at least one worker.
    pub open spec fn wf(&self) -> bool {
        self.worker_count >= 1
    }

    /// A request for `worker_count` workers, with the fixed timeout. There is
    /// none for zero workers: no worker would advance.
    pub fn new(target: IpAddress, worker_count: u16) -> (request: Option<ScanRequest>)
        ensures
            request.is_some() <==> worker_count >= 1,
            request matches Some(r) ==> {
                &&& r.wf()
                &&& r.target == target
                &&& r.worker_count == worker_count
                &&& r.timeout_ms == TIMEOUT_MS
            },
    {
        if worker_count == 0 {
            None
        } else {
            Some(ScanRequest { target, worker_count, timeout_ms: TIMEOUT_MS })
        }
    }

    /// The request that an accepted command line makes.
    pub fn from_argument(argument: &Argument) -> (request: Option<ScanRequest>)
        ensures
            request.is_some() <==> argument.threads >= 1,
            request matches Some(r) ==> {
                &&& r.wf()
                &&& r.target == argument.ipaddr
                &&& r.worker_count == argument.threads
                &&& r.timeout_ms == TIMEOUT_MS
            },
    {
        ScanRequest::new(argument.ipaddr, argument.threads)
    }

    /// The workers of this scan, each at the beginning of its share: worker
    /// `i` starts at port `i` and advances by the number of workers.
    pub fn workers(&self) -> (workers: Vec<Worker>)
        requires
            self.wf(),
        ensures
            workers@.len() == self.worker_count,
            forall|i: int|
                0 <= i < workers@.len() ==> {
                    &&& (#[trigger] workers@[i]).wf()
                    &&& workers@[i].start() == i
                    &&& workers@[i].step() == self.worker_count
                    &&& workers@[i].max() == MAX_PORT
                    &&& workers@[i].remaining() == share(i as u16, self.worker_count, MAX_PORT)
                },
    {
        let mut workers: Vec<Worker> = Vec::new();
        let mut i: u16 = 0;
        while i < self.worker_count
            invariant
                i <= self.worker_count,
                workers@.len() == i,
                forall|j: int|
                    0 <= j < workers@.len() ==> {
                        &&& (#[trigger] workers@[j]).wf()
                        &&& workers@[j].start() == j
                        &&& workers@[j].step() == self.worker_count
                        &&& workers@[j].max() == MAX_PORT
                        &&& workers@[j].remaining() == share(j as u16, self.worker_count, MAX_PORT)
                    },
            decreases self.worker_count - i,
        {
            workers.push(Worker::new(i, self.worker_count, MAX_PORT).unwrap());
            i = i + 1;
        }
        workers
    }
}

/// Whether `port` stands in `open`.
pub fn is_listed(open: &Vec<u16>, port: u16) -> (listed: bool)
    ensures
        listed == open@.contains(port),
{
    let mut i: usize = 0;
    while i < open.len()
        invariant
            i <= open.len(),
            forall|j: int| 0 <= j < i ==> open@[j] != port,
        decreases open.len() - i,
    {
        if open[i] == port {
            return true;
        }
        i = i + 1;
    }
    false
}

/// `sorted` is what a scan up to port `max` finds on a host on which exactly
/// the ports in `open` answer: each of them that is no higher than `max`,
/// once, in ascending order.
pub open spec fn found(sorted: Seq<u16>, max: u16, open: Seq<u16>) -> bool {
    &&& ascending(sorted)
    &&& forall|p: u16|
        #[trigger] sorted.to_multiset().count(p) == (if p <= max && open.contains(p) {
            1nat
        } else {
            0nat
        })
}

/// The test whether a port is among those in `open`.
pub open spec fn answers(open: Seq<u16>) -> spec_fn(u16) -> bool {
    |p: u16| open.contains(p)
}

/// The ports that the worker starting at `start` reports on a host on which
/// exactly the ports in `open` answer, in the order in which it reports them.
pub open spec fn reports(start: u16, workers: u16, max: u16, open: Seq<u16>) -> Seq<u16> {
    share(start, workers, max).filter(answers(open))
}

/// What the workers `0, ..., upto - 1` report together: each port as often as
/// it is reported, in no order.
pub open spec fn gathered(upto: nat, workers: u16, max: u16, open: Seq<u16>) -> Multiset<u16>
    decreases upto,
{
    if upto == 0 {
        Multiset::empty()
    } else {
        gathered((upto - 1) as nat, workers, max, open).add(
            reports((upto - 1) as u16, workers, max, open).to_multiset(),
        )
    }
}

/// Filtering keeps every port that passes as often as it stood there, and
/// none of the others.
proof fn lemma_filter_count(s: Seq<u16>, keep: spec_fn(u16) -> bool, p: u16)
    ensures
        s.filter(keep).to_multiset().count(p) == (if keep(p) {
            s.to_multiset().count(p)
        } else {
            0
        }),
    decreases s.len(),
{
    broadcast use vstd::multiset::group_multiset_axioms;

    reveal(Seq::filter);
    if s.len() == 0 {
        vstd::seq_lib::to_multiset_len(s);
        assert(s.to_multiset() =~= Multiset::<u16>::empty());
    } else {
        let front = s.drop_last();
        lemma_filter_count(front, keep, p);
        assert(front.push(s.last()) =~= s);
        vstd::seq_lib::to_multiset_build(front, s.last());
        if keep(s.last()) {
            vstd::seq_lib::to_multiset_build(front.filter(keep), s.last());
        }
    }
}

/// A share holds a port once where the port is its worker's, and else not at
/// all.
proof fn lemma_share_count(start: u16, workers: u16, max: u16, p: u16)
    requires
        start < workers,
    ensures
        share(start, workers, max).to_multiset().count(p) == (if p <= max && p % workers
            == start {
            1nat
        } else {
            0nat
        }),
{
    broadcast use vstd::multiset::group_multiset_axioms;

    let s = share(start, workers, max);
    assert forall|i: int, j: int| 0 <= i < s.len() && 0 <= j < s.len() && i != j implies s[i]
        != s[j] by {
        if i < j {
            lemma_share_increasing(start, workers, max, i, j);
        } else {
            lemma_share_increasing(start, workers, max, j, i);
        }
    }
    s.lemma_multiset_has_no_duplicates();
    vstd::seq_lib::to_multiset_contains(s, p);
    if p <= max && p % workers == start {
        lemma_owner(workers, max, p);
    }
    if s.contains(p) {
        let k = choose|k: int| 0 <= k < s.len() && s[k] == p;
        lemma_owner_unique(workers, max, start, k);
        lemma_share_index(start, workers, max, k);
    }
}

/// Among the reports of the workers `0, ..., upto - 1` stands each port that
/// answers and is theirs, once, and no other port.
pub proof fn lemma_gathered_count(upto: nat, workers: u16, max: u16, open: Seq<u16>, p: u16)
    requires
        workers >= 1,
        upto <= workers,
    ensures
        gathered(upto, workers, max, open).count(p) == (if p <= max && open.contains(p) && p
            % workers < upto {
            1nat
        } else {
            0nat
        }),
    decreases upto,
{
    broadcast use vstd::multiset::group_multiset_axioms;

    if upto > 0 {
        let i = (upto - 1) as u16;
        lemma_gathered_count((upto - 1) as nat, workers, max, open, p);
        lemma_filter_count(share(i, workers, max), answers(open), p);
        lemma_share_count(i, workers, max, p);
    }
}

/// In whatever order the reports of the workers arrive: once put in ascending
/// order they are what the scan finds.
pub proof fn lemma_any_arrival_order(sorted: Seq<u16>, workers: u16, max: u16, open: Seq<u16>)
    requires
        workers >= 1,
        ascending(sorted),
        sorted.to_multiset() == gathered(workers as nat, workers, max, open),
    ensures
        found(sorted, max, open),
{
    assert forall|p: u16|
        #[trigger] sorted.to_multiset().count(p) == (if p <= max && open.contains(p) {
            1nat
        } else {
            0nat
        }) by {
        lemma_gathered_count(workers as nat, workers, max, open, p);
    }
}

/// Filtering a sequence with one more port at its end keeps that port where
/// it passes.
proof fn lemma_filter_push(s: Seq<u16>, keep: spec_fn(u16) -> bool, p: u16)
    ensures
        s.push(p).filter(keep) == (if keep(p) {
            s.filter(keep).push(p)
        } else {
            s.filter(keep)
        }),
{
    reveal(Seq::filter);
    assert(s.push(p).drop_last() =~= s);
}

/// Walks the share of the worker that starts at `start_port` over a host on
/// which exactly the ports in `open` answer, and hands each port that
/// answers to `result`, in the order in which the worker comes by them.
pub fn run_worker(start_port: u16, stride: u16, max: u16, open: &Vec<u16>, result: &mut ScanResult)
    requires
        start_port < stride,
    ensures
        final(result)@ == old(result)@ + reports(start_port, stride, max, open@),
{
    let mut worker = Worker::new(start_port, stride, max).unwrap();
    let ghost ports = share(start_port, stride, max);
    let ghost mut k: int = 0;
    proof {
        reveal(Seq::filter);
        assert(ports.skip(0) =~= ports);
        assert(ports.take(0).filter(answers(open@)) =~= Seq::<u16>::empty());
        assert(result@ =~= old(result)@ + Seq::<u16>::empty());
    }
    loop
        invariant_except_break
            worker.wf(),
            ports == share(start_port, stride, max),
            0 <= k <= ports.len(),
            worker.remaining() == ports.skip(k),
            result@ == old(result)@ + ports.take(k).filter(answers(open@)),
        ensures
            result@ == old(result)@ + reports(start_port, stride, max, open@),
        decreases ports.len() - k,
    {
        match worker.current() {
            None => {
                assert(ports.take(k) =~= ports);
                break ;
            },
            Some(port) => {
                let ghost before = result@;
                let ghost rest = worker.remaining();
                assert(rest[0] == ports[k]);
                let outcome = if is_listed(open, port) {
                    ConnectOutcome::Open
                } else {
                    ConnectOutcome::Closed
                };
                match worker.record(outcome) {
                    Some(reported) => {
                        result.record(reported);
                    },
                    None => {},
                }
                proof {
                    assert(rest.drop_first() =~= ports.skip(k + 1));
                    assert(ports.take(k + 1) =~= ports.take(k).push(port));
                    lemma_filter_push(ports.take(k), answers(open@), port);
                    let kept = ports.take(k).filter(answers(open@));
                    assert(before + kept.push(port) =~= (before + kept).push(port));
                    k = k + 1;
                }
            },
        }
    }
}

/// Scans, one worker after the other, a host on which exactly the ports in
/// `open` answer, and returns what the aggregator ends up with.
pub fn sweep(workers: u16, max: u16, open: &Vec<u16>) -> (sorted: Vec<u16>)
    requires
        workers >= 1,
    ensures
        found(sorted@, max, open@),
{
    let mut result = ScanResult::new();
    let mut i: u16 = 0;
    assert(result@.to_multiset() =~= Multiset::<u16>::empty()) by {
        vstd::seq_lib::to_multiset_len(result@);
    }
    while i < workers
        invariant
            i <= workers,
            result@.to_multiset() == gathered(i as nat, workers, max, open@),
        decreases workers - i,
    {
        let ghost before = result@;
        run_worker(i, workers, max, open, &mut result);
        proof {
            vstd::seq_lib::lemma_multiset_commutative(before, reports(i, workers, max, open@));
        }
        i = i + 1;
    }
    let sorted = result.finish();
    proof {
        lemma_any_arrival_order(sorted@, workers, max, open@);
    }
    sorted
}

/// What a scan finds is settled by the host alone: two results for the same
/// open ports are equal, whenever they were taken and with however many
/// workers.
pub proof fn lemma_found_unique(a: Seq<u16>, b: Seq<u16>, max: u16, open: Seq<u16>)
    requires
        found(a, max, open),
        found(b, max, open),
    ensures
        a == b,
{
    assert(a.to_multiset() =~= b.to_multiset());
    lemma_arrival_order_irrelevant(a, b);
}

/// On a host where only `port` answers, the scan finds `port` and nothing
/// else.
pub proof fn lemma_found_single(sorted: Seq<u16>, max: u16, open: Seq<u16>, port: u16)
    requires
        found(sorted, max, open),
        port <= max,
        forall|p: u16| open.contains(p) <==> p == port,
    ensures
        sorted == seq![port],
{
    broadcast use vstd::multiset::group_multiset_axioms;

    let one = seq![port];
    vstd::seq_lib::to_multiset_build(Seq::<u16>::empty(), port);
    assert(Seq::<u16>::empty().push(port) =~= one);
    assert(Seq::<u16>::empty().to_multiset() =~= Multiset::<u16>::empty()) by {
        vstd::seq_lib::to_multiset_len(Seq::<u16>::empty());
    }
    assert(sorted.to_multiset() =~= one.to_multiset());
    lemma_arrival_order_irrelevant(sorted, one);
}

/// On a host where no port up to `max` answers, the scan finds nothing.
pub proof fn lemma_found_none(sorted: Seq<u16>, max: u16, open: Seq<u16>)
    requires
        found(sorted, max, open),
        forall|p: u16| p <= max ==> !open.contains(p),
    ensures
        sorted == Seq::<u16>::empty(),
{
    broadcast use vstd::multiset::group_multiset_axioms;

    if sorted.len() > 0 {
        vstd::seq_lib::to_multiset_contains(sorted, sorted[0]);
        assert(sorted.contains(sorted[0]));
        assert(sorted.to_multiset().count(sorted[0]) > 0);
    }
    assert(sorted =~= Seq::<u16>::empty());
}

} // verus!
