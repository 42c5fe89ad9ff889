use rustscan::error::ConfigError;
use rustscan::input::{PortRange, ScanOrder};
use rustscan::port_strategy::{copy_ports, ports_in_range, shuffle, PortSource, PortStrategy};
use rustscan::ports::{dedup_ports, remove_excluded};

fn sorted(mut ports: Vec<u16>) -> Vec<u16> {
    ports.sort_unstable();
    ports
}

#[test]
fn serial_range_ascends() {
    let range = PortRange { start: 1, end: 100 };
    let strategy = PortStrategy::pick(&Some(range), None, ScanOrder::Serial, 0).unwrap();
    let expected: Vec<u16> = (1..=100).collect();
    assert_eq!(strategy.order(), expected);
}

#[test]
fn serial_range_of_one_port() {
    assert_eq!(ports_in_range(443, 443), vec![443]);
}

#[test]
fn serial_range_reaches_the_last_port() {
    let ports = ports_in_range(65_530, u16::MAX);
    assert_eq!(ports, vec![65_530, 65_531, 65_532, 65_533, 65_534, 65_535]);
    assert_eq!(ports_in_range(0, u16::MAX).len(), 65_536);
}

#[test]
fn range_above_its_end_is_empty() {
    assert_eq!(ports_in_range(10, 9), Vec::<u16>::new());
}

#[test]
fn serial_list_keeps_its_order() {
    let strategy =
        PortStrategy::pick(&None, Some(vec![80, 443, 22]), ScanOrder::Serial, 9).unwrap();
    assert_eq!(strategy.order(), vec![80, 443, 22]);
}

#[test]
fn list_outranks_range() {
    let range = PortRange { start: 1, end: 1_000 };
    let strategy =
        PortStrategy::pick(&Some(range), Some(vec![8080, 80]), ScanOrder::Serial, 0).unwrap();
    assert_eq!(strategy.order(), vec![8080, 80]);
}

#[test]
fn pick_rejects_malformed_range() {
    let range = PortRange { start: 200, end: 100 };
    let picked = PortStrategy::pick(&Some(range), None, ScanOrder::Serial, 0);
    assert_eq!(picked.err(), Some(ConfigError::MalformedRange));
    let picked = PortStrategy::pick(&Some(range), None, ScanOrder::Random, 0);
    assert_eq!(picked.err(), Some(ConfigError::MalformedRange));
}

#[test]
fn pick_rejects_missing_ports() {
    let picked = PortStrategy::pick(&None, None, ScanOrder::Serial, 0);
    assert_eq!(picked.err(), Some(ConfigError::EmptyPortSet));
}

#[test]
fn random_order_repeats_for_a_seed() {
    let first = PortStrategy::pick(&None, Some(vec![80, 443, 8080]), ScanOrder::Random, 42)
        .unwrap()
        .order();
    let second = PortStrategy::pick(&None, Some(vec![80, 443, 8080]), ScanOrder::Random, 42)
        .unwrap()
        .order();
    assert_eq!(first, second);
    assert_eq!(first, vec![8080, 80, 443]);
}

#[test]
fn random_order_of_a_range() {
    let range = PortRange { start: 1, end: 10 };
    let strategy = PortStrategy::pick(&Some(range), None, ScanOrder::Random, 42).unwrap();
    assert_eq!(strategy.order(), vec![4, 9, 1, 10, 2, 7, 8, 3, 6, 5]);
    let strategy = PortStrategy::pick(&Some(range), None, ScanOrder::Random, 0).unwrap();
    assert_eq!(strategy.order(), vec![5, 9, 7, 1, 10, 6, 3, 2, 4, 8]);
}

#[test]
fn random_order_is_a_permutation() {
    let range = PortRange { start: 1, end: 1_000 };
    for seed in [0_u64, 1, 42, u64::MAX] {
        let strategy = PortStrategy::pick(&Some(range), None, ScanOrder::Random, seed).unwrap();
        let expected: Vec<u16> = (1..=1_000).collect();
        assert_eq!(sorted(strategy.order()), expected);
    }
}

#[test]
fn shuffle_of_short_lists() {
    let mut none: Vec<u16> = Vec::new();
    shuffle(&mut none, 5);
    assert!(none.is_empty());
    let mut one: Vec<u16> = vec![1];
    shuffle(&mut one, 5);
    assert_eq!(one, vec![1]);
    let mut two: Vec<u16> = vec![1, 2];
    shuffle(&mut two, 1);
    assert_eq!(two, vec![2, 1]);
    let mut two: Vec<u16> = vec![1, 2];
    shuffle(&mut two, 3);
    assert_eq!(two, vec![1, 2]);
}

#[test]
fn shuffle_keeps_repeats() {
    let mut ports: Vec<u16> = vec![7, 7, 9, 9, 9];
    shuffle(&mut ports, 11);
    assert_eq!(sorted(ports), vec![7, 7, 9, 9, 9]);
}

#[test]
fn strategy_variants_order() {
    let list = PortStrategy::Serial(PortSource::List(vec![3, 1, 2]));
    assert_eq!(list.order(), vec![3, 1, 2]);
    let range = PortStrategy::Serial(PortSource::Range(PortRange { start: 5, end: 7 }));
    assert_eq!(range.order(), vec![5, 6, 7]);
    let random = PortStrategy::Random(PortSource::List(vec![80, 443, 8080]), 42);
    assert_eq!(random.order(), vec![8080, 80, 443]);
    assert_eq!(PortSource::Range(PortRange { start: 2, end: 3 }).serial_ports(), vec![2, 3]);
}

#[test]
fn copy_ports_copies() {
    assert_eq!(copy_ports(&vec![5, 4, 5]), vec![5, 4, 5]);
    assert_eq!(copy_ports(&Vec::new()), Vec::<u16>::new());
}

#[test]
fn excluded_ports_are_removed() {
    let ports: Vec<u16> = (1..=10).collect();
    assert_eq!(remove_excluded(&ports, &vec![5, 7]), vec![1, 2, 3, 4, 6, 8, 9, 10]);
    assert_eq!(remove_excluded(&ports, &Vec::new()), ports);
    assert_eq!(remove_excluded(&ports, &ports), Vec::<u16>::new());
    assert_eq!(remove_excluded(&vec![0, 65_535, 0], &vec![65_535, 12]), vec![0, 0]);
}

#[test]
fn repeated_ports_count_once() {
    assert_eq!(dedup_ports(&vec![80, 443, 80, 22, 443, 80]), vec![80, 443, 22]);
    assert_eq!(dedup_ports(&vec![0, 65_535, 0, 65_535]), vec![0, 65_535]);
    assert_eq!(dedup_ports(&Vec::new()), Vec::<u16>::new());
}
