//! Gathering the reported ports and putting them in order.
//!
//! Ports arrive from the workers in no particular order. The result of a scan
//! is the same ports in ascending order; it depends on which ports arrived
//! and how often, never on the order of their arrival.

use vstd::prelude::*;
use vstd::string::StrSliceExecFns;
use vstd::string::StringExecFns;

verus! {

/// No port of `s` is followed by a lower one.
pub open spec fn ascending(s: Seq<u16>) -> bool {
    forall|i: int, j: int| 0 <= i < j < s.len() ==> s[i] <= s[j]
}

/// The same ports in ascending order.
pub fn sort_ports(buffer: &Vec<u16>) -> (sorted: Vec<u16>)
    ensures
        ascending(sorted@),
        sorted@.to_multiset() == buffer@.to_multiset(),
{
    let mut sorted: Vec<u16> = Vec::new();
    let mut i: usize = 0;
    assert(buffer@.take(0) =~= Seq::<u16>::empty());
    while i < buffer.len()
        invariant
            i <= buffer.len(),
            ascending(sorted@),
            sorted@.to_multiset() == buffer@.take(i as int).to_multiset(),
        decreases buffer.len() - i,
    {
        let port: u16 = buffer[i];
        let mut at: usize = sorted.len();
        while at > 0 && sorted[at - 1] > port
            invariant
                at <= sorted.len(),
                forall|j: int| at <= j < sorted.len() ==> sorted[j] > port,
            decreases at,
        {
            at = at - 1;
        }
        let ghost before = sorted@;
        sorted.insert(at, port);
        proof {
            vstd::seq_lib::to_multiset_insert(before, at as int, port);
            vstd::seq_lib::to_multiset_build(buffer@.take(i as int), port);
            assert(buffer@.take(i + 1) =~= buffer@.take(i as int).push(port));
            assert forall|j: int, k: int| 0 <= j < k < sorted@.len() implies sorted@[j]
                <= sorted@[k] by {
                let a = if j < at {
                    j
                } else {
                    j - 1
                };
                let b = if k < at {
                    k
                } else {
                    k - 1
                };
                if j != at && k != at {
                    assert(before[a] <= before[b]);
                } else if j == at {
                    assert(before[b] > port);
                } else {
                    if at > 0 {
                        assert(before[a] <= before[at - 1]);
                    }
                }
            }
        }
        i = i + 1;
    }
    assert(buffer@.take(buffer@.len() as int) =~= buffer@);
    sorted
}

/// The ports that have arrived so far, in the order of their arrival.
pub struct ScanResult {
    received: Vec<u16>,
}

impl View for ScanResult {
    type V = Seq<u16>;

    closed spec fn view(&self) -> Seq<u16> {
        self.received@
    }
}

impl ScanResult {
    /// A result to which nothing has been reported yet.
    pub fn new() -> (result: ScanResult)
        ensures
            result@ == Seq::<u16>::empty(),
    {
        ScanResult { received: Vec::new() }
    }

    /// Takes one reported port. A port that arrives twice is held twice.
    pub fn record(&mut self, port: u16)
        ensures
            final(self)@ == old(self)@.push(port),
    {
        self.received.push(port);
    }

    /// How many ports have arrived.
    pub fn len(&self) -> (n: usize)
        ensures
            n == self@.len(),
    {
        self.received.len()
    }

    /// Closes the collection: the ports that arrived, in ascending order.
    pub fn finish(self) -> (sorted: Vec<u16>)
        ensures
            ascending(sorted@),
            sorted@.to_multiset() == self@.to_multiset(),
    {
        sort_ports(&self.received)
    }
}

/// What is told of a finished scan.
#[derive(Debug)]
pub enum Report {
    /// No port answered.
    NoOpenPorts,
    /// The ports that answered, in ascending order.
    OpenPorts(Vec<u16>),
}

/// The decimal digit `d` as text.
pub open spec fn digit_text(d: nat) -> Seq<char> {
    "0123456789"@.subrange(d as int, d as int + 1)
}

/// The number `n` in decimal digits, without leading zeros.
pub open spec fn decimal(n: nat) -> Seq<char>
    decreases n,
{
    if n < 10 {
        digit_text(n)
    } else {
        decimal(n / 10) + digit_text(n % 10)
    }
}

/// The line that tells of one open port.
pub open spec fn port_line(port: u16) -> Seq<char> {
    decimal(port as nat) + " is open"@
}

/// The lines of a report: one line where no port answered, else a heading
/// and one line for each port.
pub open spec fn rendering(report: Report) -> Seq<Seq<char>> {
    match report {
        Report::NoOpenPorts => seq!["No open ports found"@],
        Report::OpenPorts(ports) => seq!["Open ports: "@] + Seq::new(
            ports@.len(),
            |i: int| port_line(ports@[i]),
        ),
    }
}

/// The port in decimal digits.
pub fn port_text(port: u16) -> (text: String)
    ensures
        text@ == decimal(port as nat),
    decreases port,
{
    let digits = "0123456789";
    proof {
        reveal_strlit("0123456789");
    }
    let d: usize = (port % 10) as usize;
    let last = digits.substring_char(d, d + 1);
    if port < 10 {
        String::from_str(last)
    } else {
        let mut text = port_text(port / 10);
        text.append(last);
        text
    }
}

/// The report on the sorted ports of a finished scan: `NoOpenPorts` where
/// there is none, else the ports as they stand.
pub fn report(sorted: Vec<u16>) -> (r: Report)
    ensures
        sorted@.len() == 0 <==> r is NoOpenPorts,
        r matches Report::OpenPorts(ports) ==> ports@ == sorted@,
{
    if sorted.len() == 0 {
        Report::NoOpenPorts
    } else {
        Report::OpenPorts(sorted)
    }
}

impl Report {
    /// The report as lines of text.
    pub fn lines(&self) -> (lines: Vec<String>)
        ensures
            lines@.len() == rendering(*self).len(),
            forall|i: int| 0 <= i < lines@.len() ==> (#[trigger] lines@[i])@ == rendering(*self)[i],
    {
        let mut lines: Vec<String> = Vec::new();
        match self {
            Report::NoOpenPorts => {
                lines.push(String::from_str("No open ports found"));
            },
            Report::OpenPorts(ports) => {
                lines.push(String::from_str("Open ports: "));
                let mut i: usize = 0;
                while i < ports.len()
                    invariant
                        i <= ports.len(),
                        *self == Report::OpenPorts(*ports),
                        lines@.len() == i + 1,
                        forall|j: int|
                            0 <= j < lines@.len() ==> (#[trigger] lines@[j])@ == rendering(
                                *self,
                            )[j],
                    decreases ports.len() - i,
                {
                    let mut line = port_text(ports[i]);
                    line.append(" is open");
                    lines.push(line);
                    i = i + 1;
                }
            },
        }
        lines
    }
}

/// Two ascending sequences that hold the same ports equally often are equal:
/// the order in which the ports arrived leaves no trace in the result.
pub proof fn lemma_arrival_order_irrelevant(a: Seq<u16>, b: Seq<u16>)
    requires
        ascending(a),
        ascending(b),
        a.to_multiset() == b.to_multiset(),
    ensures
        a == b,
{
    let leq = |x: u16, y: u16| x <= y;
    assert(vstd::relations::sorted_by(a, leq));
    assert(vstd::relations::sorted_by(b, leq));
    assert(vstd::relations::total_ordering(leq));
    vstd::seq_lib::lemma_sorted_unique(a, b, leq);
}

/// Where exactly one port was reported, once, the sorted result is that port
/// alone.
pub proof fn lemma_single_report(sorted: Seq<u16>, received: Seq<u16>, port: u16)
    requires
        ascending(sorted),
        sorted.to_multiset() == received.to_multiset(),
        received == seq![port],
    ensures
        sorted == seq![port],
{
    lemma_arrival_order_irrelevant(sorted, received);
}

/// Where nothing was reported, the sorted result is empty.
pub proof fn lemma_no_report(sorted: Seq<u16>)
    requires
        sorted.to_multiset() == Seq::<u16>::empty().to_multiset(),
    ensures
        sorted == Seq::<u16>::empty(),
{
    vstd::seq_lib::to_multiset_len(sorted);
    vstd::seq_lib::to_multiset_len(Seq::<u16>::empty());
    assert(sorted =~= Seq::<u16>::empty());
}

} // verus!
