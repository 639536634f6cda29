use port_sniffer::aggregate::{port_text, report, sort_ports, Report, ScanResult};
use port_sniffer::ports::MAX_PORT;
use port_sniffer::scan::{is_listed, run_worker, sweep};

#[test]
fn sort_orders_ascending() {
    assert_eq!(sort_ports(&vec![443, 22, 8080, 80]), vec![22, 80, 443, 8080]);
    assert_eq!(sort_ports(&vec![]), Vec::<u16>::new());
    assert_eq!(sort_ports(&vec![7]), vec![7]);
    assert_eq!(sort_ports(&vec![65535, 0]), vec![0, 65535]);
    assert_eq!(sort_ports(&vec![1, 2, 3]), vec![1, 2, 3]);
}

#[test]
fn sort_keeps_duplicates() {
    assert_eq!(sort_ports(&vec![5, 3, 5, 1, 3]), vec![1, 3, 3, 5, 5]);
}

#[test]
fn sort_agrees_with_the_standard_sort() {
    let mut buffer: Vec<u16> = Vec::new();
    let mut x: u32 = 12345;
    for _ in 0..2000 {
        x = x.wrapping_mul(1103515245).wrapping_add(12345);
        buffer.push((x >> 8) as u16);
    }
    let mut expected = buffer.clone();
    expected.sort();
    assert_eq!(sort_ports(&buffer), expected);
}

#[test]
fn result_collects_in_any_order() {
    let mut a = ScanResult::new();
    assert_eq!(a.len(), 0);
    for p in [8080u16, 22, 443] {
        a.record(p);
    }
    assert_eq!(a.len(), 3);
    let mut b = ScanResult::new();
    for p in [443u16, 8080, 22] {
        b.record(p);
    }
    let a = a.finish();
    assert_eq!(a, vec![22, 443, 8080]);
    assert_eq!(a, b.finish());
}

#[test]
fn empty_result_finishes_empty() {
    assert_eq!(ScanResult::new().finish(), Vec::<u16>::new());
}

#[test]
fn report_of_nothing_is_no_open_ports() {
    assert!(matches!(report(Vec::new()), Report::NoOpenPorts));
    assert_eq!(report(Vec::new()).lines(), vec!["No open ports found".to_string()]);
}

#[test]
fn report_lists_each_port() {
    let r = report(vec![22, 80, 65535]);
    assert!(matches!(&r, Report::OpenPorts(p) if *p == vec![22, 80, 65535]));
    assert_eq!(
        r.lines(),
        vec![
            "Open ports: ".to_string(),
            "22 is open".to_string(),
            "80 is open".to_string(),
            "65535 is open".to_string(),
        ]
    );
}

#[test]
fn port_text_is_decimal() {
    assert_eq!(port_text(0), "0");
    assert_eq!(port_text(7), "7");
    assert_eq!(port_text(10), "10");
    assert_eq!(port_text(443), "443");
    assert_eq!(port_text(8080), "8080");
    assert_eq!(port_text(65535), "65535");
    for p in [1u16, 9, 99, 100, 1000, 10000, 12345, 60000] {
        assert_eq!(port_text(p), format!("{}", p));
    }
}

#[test]
fn is_listed_finds_members() {
    let open = vec![22u16, 80, 443];
    assert!(is_listed(&open, 80));
    assert!(is_listed(&open, 22));
    assert!(!is_listed(&open, 81));
    assert!(!is_listed(&Vec::new(), 0));
}

#[test]
fn single_open_port_is_found_by_any_number_of_workers() {
    for workers in [1u16, 2, 3, 4, 8, 100, 4096, 65535] {
        for port in [0u16, 1, 22, 443, 8080, 65534, 65535] {
            assert_eq!(sweep(workers, MAX_PORT, &vec![port]), vec![port]);
        }
    }
}

#[test]
fn no_open_port_gives_the_empty_result() {
    for workers in [1u16, 4, 9, 65535] {
        let found = sweep(workers, MAX_PORT, &Vec::new());
        assert!(found.is_empty());
        assert_eq!(report(found).lines(), vec!["No open ports found".to_string()]);
    }
}

#[test]
fn scanning_twice_gives_the_same_result() {
    let open = vec![8080u16, 22, 65535, 0, 443];
    let first = sweep(4, MAX_PORT, &open);
    let second = sweep(4, MAX_PORT, &open);
    assert_eq!(first, vec![0, 22, 443, 8080, 65535]);
    assert_eq!(first, second);
    assert_eq!(sweep(7, MAX_PORT, &open), first);
}

#[test]
fn ports_above_the_range_are_not_found() {
    assert_eq!(sweep(3, 100, &vec![50, 101, 100, 7000]), vec![50, 100]);
}

#[test]
fn a_port_listed_twice_is_found_once() {
    assert_eq!(sweep(2, 1000, &vec![80, 80, 22]), vec![22, 80]);
}

#[test]
fn worker_hands_over_the_open_ports_of_its_share() {
    let open = vec![9u16, 2, 5, 1, 13, 17];
    let mut result = ScanResult::new();
    run_worker(1, 4, 14, &open, &mut result);
    assert_eq!(result.len(), 4);
    assert_eq!(result.finish(), vec![1, 5, 9, 13]);
}

#[test]
fn workers_add_to_what_has_arrived() {
    let open = vec![6u16, 3, 4];
    let mut result = ScanResult::new();
    result.record(9);
    run_worker(1, 3, 10, &open, &mut result);
    assert_eq!(result.len(), 2);
    run_worker(0, 3, 10, &open, &mut result);
    run_worker(2, 3, 10, &open, &mut result);
    assert_eq!(result.finish(), vec![3, 4, 6, 9]);
}

#[test]
fn worker_at_the_boundary_reports_the_last_port_once() {
    let mut result = ScanResult::new();
    run_worker(65534, 65535, MAX_PORT, &vec![65534, 0, 65535], &mut result);
    assert_eq!(result.finish(), vec![65534]);
    let mut result = ScanResult::new();
    run_worker(0, 65535, MAX_PORT, &vec![65534, 0, 65535], &mut result);
    assert_eq!(result.finish(), vec![0, 65535]);
}
