use port_sniffer::ports::{
    assigned_ports, next_port, owner_of, start_ports, DEFAULT_WORKERS, MAX_PORT, TIMEOUT_MS,
};
use port_sniffer::scan::ScanRequest;
use port_sniffer::args::IpAddress;
use port_sniffer::worker::{ConnectOutcome, Worker};

fn covers_every_port_once(workers: u16, max: u16) {
    let mut seen = vec![0u32; max as usize + 1];
    for start in start_ports(workers) {
        for port in assigned_ports(start, workers, max) {
            assert!(port <= max);
            assert_eq!(owner_of(port, workers), start);
            seen[port as usize] += 1;
        }
    }
    assert!(seen.iter().all(|&n| n == 1));
}

#[test]
fn constants_are_the_documented_ones() {
    assert_eq!(MAX_PORT, 65535);
    assert_eq!(DEFAULT_WORKERS, 4);
    assert_eq!(TIMEOUT_MS, 200);
}

#[test]
fn shares_partition_the_port_space() {
    for workers in [1u16, 2, 3, 4, 7, 8, 100, 255, 256, 1000, 32768, 65535] {
        covers_every_port_once(workers, MAX_PORT);
    }
}

#[test]
fn shares_partition_a_small_range() {
    for workers in 1u16..=40 {
        for max in 0u16..=40 {
            covers_every_port_once(workers, max);
        }
    }
}

#[test]
fn single_worker_scans_everything_in_order() {
    let ports = assigned_ports(0, 1, MAX_PORT);
    assert_eq!(ports.len(), 65536);
    for (i, port) in ports.iter().enumerate() {
        assert_eq!(*port as usize, i);
    }
}

#[test]
fn share_of_one_worker_among_four() {
    assert_eq!(assigned_ports(1, 4, 14), vec![1, 5, 9, 13]);
    assert_eq!(assigned_ports(3, 4, 14), vec![3, 7, 11]);
    assert_eq!(assigned_ports(2, 4, 14), vec![2, 6, 10, 14]);
}

#[test]
fn share_is_empty_above_the_highest_port() {
    assert_eq!(assigned_ports(20, 100, 10), Vec::<u16>::new());
}

#[test]
fn share_lengths_with_default_workers() {
    for start in 0..DEFAULT_WORKERS {
        assert_eq!(assigned_ports(start, DEFAULT_WORKERS, MAX_PORT).len(), 16384);
    }
}

#[test]
fn next_port_adds_the_stride() {
    assert_eq!(next_port(0, 4, MAX_PORT), Some(4));
    assert_eq!(next_port(65531, 4, MAX_PORT), Some(65535));
    assert_eq!(next_port(5, 3, 8), Some(8));
    assert_eq!(next_port(5, 3, 7), None);
    assert_eq!(next_port(9, 0, 9), Some(9));
}

#[test]
fn next_port_does_not_wrap() {
    assert_eq!(next_port(65535, 1, MAX_PORT), None);
    assert_eq!(next_port(65532, 4, MAX_PORT), None);
    assert_eq!(next_port(65534, 65535, MAX_PORT), None);
    assert_eq!(next_port(1, 65535, MAX_PORT), None);
    assert_eq!(next_port(0, 65535, MAX_PORT), Some(65535));
}

#[test]
fn large_stride_near_the_boundary() {
    assert_eq!(assigned_ports(65534, 65535, MAX_PORT), vec![65534]);
    assert_eq!(assigned_ports(0, 65535, MAX_PORT), vec![0, 65535]);
    assert_eq!(assigned_ports(32767, 32768, MAX_PORT), vec![32767, 65535]);
    assert_eq!(assigned_ports(65535, 1, MAX_PORT), vec![65535]);
}

#[test]
fn shares_are_strictly_increasing() {
    for (start, stride) in [(0u16, 1u16), (3, 4), (999, 1000), (0, 65535), (40000, 40001)] {
        let ports = assigned_ports(start, stride, MAX_PORT);
        assert_eq!(ports[0], start);
        for pair in ports.windows(2) {
            assert!(pair[0] < pair[1]);
            assert_eq!(pair[1] - pair[0], stride);
        }
    }
}

#[test]
fn start_ports_count_up_from_zero() {
    assert_eq!(start_ports(0), Vec::<u16>::new());
    assert_eq!(start_ports(1), vec![0]);
    assert_eq!(start_ports(4), vec![0, 1, 2, 3]);
    assert_eq!(start_ports(65535).len(), 65535);
}

#[test]
fn owner_is_the_remainder() {
    assert_eq!(owner_of(0, 4), 0);
    assert_eq!(owner_of(443, 4), 3);
    assert_eq!(owner_of(65535, 4), 3);
    assert_eq!(owner_of(65535, 65535), 0);
    assert_eq!(owner_of(80, 1), 0);
}

#[test]
fn worker_needs_a_start_below_its_stride() {
    assert!(Worker::new(0, 0, MAX_PORT).is_none());
    assert!(Worker::new(4, 4, MAX_PORT).is_none());
    assert!(Worker::new(5, 4, MAX_PORT).is_none());
    let w = Worker::new(3, 4, MAX_PORT).unwrap();
    assert_eq!(w.start_port(), 3);
    assert_eq!(w.stride(), 4);
    assert_eq!(w.max_port(), MAX_PORT);
    assert_eq!(w.current(), Some(3));
    assert!(!w.is_done());
}

#[test]
fn worker_reports_only_open_ports() {
    let mut w = Worker::new(1, 3, 10).unwrap();
    assert_eq!(w.current(), Some(1));
    assert_eq!(w.record(ConnectOutcome::Closed), None);
    assert_eq!(w.current(), Some(4));
    assert_eq!(w.record(ConnectOutcome::Open), Some(4));
    assert_eq!(w.current(), Some(7));
    assert_eq!(w.record(ConnectOutcome::TimedOut), None);
    assert_eq!(w.current(), Some(10));
    assert_eq!(w.record(ConnectOutcome::Unreachable), None);
    assert_eq!(w.current(), None);
    assert!(w.is_done());
    assert_eq!(w.record(ConnectOutcome::Open), None);
    assert!(w.is_done());
    assert_eq!(w.start_port(), 1);
}

#[test]
fn worker_walks_its_whole_share() {
    let mut w = Worker::new(65534, 65535, MAX_PORT).unwrap();
    assert_eq!(w.record(ConnectOutcome::Open), Some(65534));
    assert!(w.is_done());
    let mut w = Worker::new(2, 5, MAX_PORT).unwrap();
    let mut walked = Vec::new();
    while let Some(port) = w.current() {
        walked.push(port);
        w.record(ConnectOutcome::Closed);
    }
    assert_eq!(walked, assigned_ports(2, 5, MAX_PORT));
}

#[test]
fn worker_above_the_highest_port_has_nothing_to_do() {
    let w = Worker::new(20, 100, 10).unwrap();
    assert!(w.is_done());
    assert_eq!(w.current(), None);
}

#[test]
fn outcome_open_is_the_only_open_one() {
    assert!(ConnectOutcome::Open.is_open());
    assert!(!ConnectOutcome::Closed.is_open());
    assert!(!ConnectOutcome::Unreachable.is_open());
    assert!(!ConnectOutcome::TimedOut.is_open());
}

#[test]
fn request_needs_a_worker() {
    let target = IpAddress::V4(0x7f00_0001);
    assert!(ScanRequest::new(target, 0).is_none());
    let r = ScanRequest::new(target, 8).unwrap();
    assert_eq!(r.target, target);
    assert_eq!(r.worker_count, 8);
    assert_eq!(r.timeout_ms, 200);
}

#[test]
fn request_hands_out_one_worker_per_start() {
    let r = ScanRequest::new(IpAddress::V6(1), 5).unwrap();
    let workers = r.workers();
    assert_eq!(workers.len(), 5);
    for (i, w) in workers.iter().enumerate() {
        assert_eq!(w.start_port() as usize, i);
        assert_eq!(w.stride(), 5);
        assert_eq!(w.max_port(), MAX_PORT);
        assert_eq!(w.current(), Some(i as u16));
    }
}
