//! One worker's walk over its share of the ports, as a state machine.
//!
//! The worker names the port to probe; whoever drives it makes the connection
//! attempt and hands the outcome back. The worker then says whether the port
//! is to be reported and moves on by one stride.

use crate::ports::{lemma_share_unfold, next_port, share};
use vstd::prelude::*;

verus! {

/// How one connection attempt ended. Only `Open` is ever reported; the other
/// outcomes tell the ways in which a port can fail to answer.
#[derive(Clone, Copy, Debug, PartialEq, Eq, Structural)]
pub enum ConnectOutcome {
    Open,
    Closed,
    Unreachable,
    TimedOut,
}

impl ConnectOutcome {
    /// Whether the connection was made.
    pub fn is_open(&self) -> (open: bool)
        ensures
            open == (*self == ConnectOutcome::Open),
    {
        match self {
            ConnectOutcome::Open => true,
            _ => false,
        }
    }
}

/// A worker: the ports it was given, and how far it has come.
#[derive(Clone, Copy, Debug)]
pub struct Worker {
    start_port: u16,
    stride: u16,
    max_port: u16,
    pending: Option<u16>,
}

impl Worker {
    /// The first port of this worker's share.
    pub closed spec fn start(&self) -> u16 {
        self.start_port
    }

    /// The distance between two ports of the share: the number of workers.
    pub closed spec fn step(&self) -> u16 {
        self.stride
    }

    /// The highest port that may be probed.
    pub closed spec fn max(&self) -> u16 {
        self.max_port
    }

    /// The port to probe next, if any is left.
    pub closed spec fn next(&self) -> Option<u16> {
        self.pending
    }

    /// The ports not yet probed, in the order in which they will be.
    pub open spec fn remaining(&self) -> Seq<u16> {
        match self.next() {
            Some(p) => share(p, self.step(), self.max()),
            None => Seq::empty(),
        }
    }

    /// The stride is positive, the start lies below it, and the port to probe
    /// next does not exceed the highest port.
    pub open spec fn wf(&self) -> bool {
        &&& self.step() >= 1
        &&& self.start() < self.step()
        &&& match self.next() {
            Some(p) => p <= self.max(),
            None => true,
        }
    }

    /// A worker at the beginning of its share. There is none for a stride of
    /// zero, nor for a start that is not below the stride.
    pub fn new(start_port: u16, stride: u16, max_port: u16) -> (worker: Option<Worker>)
        ensures
            worker.is_some() <==> start_port < stride,
            worker matches Some(w) ==> {
                &&& w.wf()
                &&& w.start() == start_port
                &&& w.step() == stride
                &&& w.max() == max_port
                &&& w.remaining() == share(start_port, stride, max_port)
            },
    {
        if start_port >= stride {
            return None;
        }
        let pending = if start_port <= max_port {
            Some(start_port)
        } else {
            None
        };
        let w = Worker { start_port, stride, max_port, pending };
        assert(w.remaining() =~= share(start_port, stride, max_port));
        Some(w)
    }

    /// The first port of the share.
    pub fn start_port(&self) -> (p: u16)
        ensures
            p == self.start(),
    {
        self.start_port
    }

    /// The distance between two ports of the share.
    pub fn stride(&self) -> (s: u16)
        ensures
            s == self.step(),
    {
        self.stride
    }

    /// The highest port that may be probed.
    pub fn max_port(&self) -> (m: u16)
        ensures
            m == self.max(),
    {
        self.max_port
    }

    /// The port to probe now: the first of those that remain.
    pub fn current(&self) -> (port: Option<u16>)
        requires
            self.wf(),
        ensures
            port == self.next(),
            port == (if self.remaining().len() > 0 {
                Some(self.remaining()[0])
            } else {
                None
            }),
    {
        proof {
            if let Some(p) = self.pending {
                lemma_share_unfold(p, self.stride, self.max_port);
            }
        }
        self.pending
    }

    /// Whether every port of the share has been probed.
    pub fn is_done(&self) -> (done: bool)
        requires
            self.wf(),
        ensures
            done == (self.remaining().len() == 0),
    {
        proof {
            if let Some(p) = self.pending {
                lemma_share_unfold(p, self.stride, self.max_port);
            }
        }
        self.pending.is_none()
    }

    /// Takes the outcome of the attempt on the current port and moves on to
    /// the next one. Returns the port where it is to be reported: where the
    /// outcome is `Open`. A worker that is done stays as it is and reports
    /// nothing.
    pub fn record(&mut self, outcome: ConnectOutcome) -> (reported: Option<u16>)
        requires
            old(self).wf(),
        ensures
            final(self).wf(),
            final(self).start() == old(self).start(),
            final(self).step() == old(self).step(),
            final(self).max() == old(self).max(),
            old(self).remaining().len() == 0 ==> reported.is_none() && final(self).remaining()
                == old(self).remaining(),
            old(self).remaining().len() > 0 ==> {
                &&& final(self).remaining() == old(self).remaining().drop_first()
                &&& reported == (if outcome == ConnectOutcome::Open {
                    Some(old(self).remaining()[0])
                } else {
                    None
                })
            },
    {
        match self.pending {
            None => None,
            Some(port) => {
                proof {
                    lemma_share_unfold(port, self.stride, self.max_port);
                }
                let ghost before = self.remaining();
                self.pending = next_port(port, self.stride, self.max_port);
                assert(self.remaining() =~= before.drop_first());
                if outcome.is_open() {
                    Some(port)
                } else {
                    None
                }
            },
        }
    }
}

} // verus!
