use rustscan::endpoint::{Endpoint, IpAddress, Outcome, ProbeIoError, ProbeResult};
use rustscan::error::ConfigError;
use rustscan::input::{PortRange, ScanOrder};
use rustscan::plan::build_plan;
use rustscan::port_strategy::{PortSource, PortStrategy};
use rustscan::input::Opts;
use rustscan::scanner::{dedup_ips, Scanner};

const LOCALHOST: IpAddress = IpAddress::V4(0x7F00_0001);

fn host(last: u32) -> IpAddress {
    IpAddress::V4(0xC0A8_0000 + last)
}

fn at(ip: IpAddress, port: u16) -> Endpoint {
    Endpoint { ip, port }
}

fn serial(start: u16, end: u16) -> PortStrategy {
    PortStrategy::pick(&Some(PortRange { start, end }), None, ScanOrder::Serial, 0).unwrap()
}

/// Answers a batch as a network on which exactly `listening` accepts.
fn answer(batch: &[Endpoint], listening: &[Endpoint], otherwise: Outcome) -> Vec<ProbeResult> {
    batch
        .iter()
        .map(|endpoint| ProbeResult {
            endpoint: *endpoint,
            outcome: if listening.contains(endpoint) { Outcome::Open } else { otherwise },
        })
        .collect()
}

/// Runs a scan to its end against such a network; returns the batches probed.
fn run(scanner: &mut Scanner, listening: &[Endpoint], otherwise: Outcome) -> Vec<Vec<Endpoint>> {
    let mut batches = Vec::new();
    while let Some(batch) = scanner.next_batch() {
        let outcomes = answer(&batch, listening, otherwise);
        scanner.record(&outcomes);
        batches.push(batch);
    }
    batches
}

#[test]
fn one_host_two_listeners() {
    let listening = vec![at(LOCALHOST, 80), at(LOCALHOST, 22)];
    let mut scanner =
        Scanner::new(&vec![LOCALHOST], 64, 500, 1, true, serial(1, 100), false, Vec::new())
            .unwrap();
    let batches = run(&mut scanner, &listening, Outcome::Closed);
    assert_eq!(batches.len(), 2);
    assert_eq!(batches[0].len(), 64);
    assert_eq!(batches[1].len(), 36);
    let reports = scanner.report();
    assert_eq!(reports.len(), 1);
    assert_eq!(reports[0].ip, LOCALHOST);
    assert_eq!(reports[0].ports, vec![22, 80]);
    assert_eq!(scanner.open_endpoints(), &vec![at(LOCALHOST, 22), at(LOCALHOST, 80)]);
}

#[test]
fn silent_host_gets_an_empty_report() {
    let ips = vec![host(1), host(2)];
    let listening = vec![at(host(1), 443)];
    let mut scanner =
        Scanner::new(&ips, 8, 500, 1, true, serial(440, 450), false, Vec::new()).unwrap();
    run(&mut scanner, &listening, Outcome::Closed);
    let reports = scanner.report();
    assert_eq!(reports.len(), 2);
    assert_eq!(reports[0].ip, host(1));
    assert_eq!(reports[0].ports, vec![443]);
    assert!(!reports[0].is_silent());
    assert_eq!(reports[1].ip, host(2));
    assert_eq!(reports[1].ports, Vec::<u16>::new());
    assert!(reports[1].is_silent());
}

#[test]
fn seeded_scans_probe_alike() {
    let ips = vec![host(1), host(2)];
    let mut probed = Vec::new();
    for _ in 0..2 {
        let strategy =
            PortStrategy::pick(&None, Some(vec![80, 443, 8080]), ScanOrder::Random, 42).unwrap();
        let mut scanner =
            Scanner::new(&ips, 4, 100, 2, true, strategy, false, Vec::new()).unwrap();
        probed.push(run(&mut scanner, &[at(host(2), 443)], Outcome::Filtered));
    }
    assert_eq!(probed[0], probed[1]);
    assert_eq!(
        probed[0][0],
        vec![at(host(1), 8080), at(host(2), 8080), at(host(1), 80), at(host(2), 80)]
    );
    assert_eq!(probed[0][1], vec![at(host(1), 443), at(host(2), 443)]);
}

#[test]
fn excluded_ports_are_never_probed() {
    let mut scanner =
        Scanner::new(&vec![LOCALHOST], 3, 100, 2, true, serial(1, 10), false, vec![5, 7]).unwrap();
    assert_eq!(scanner.ports(), &vec![1, 2, 3, 4, 6, 8, 9, 10]);
    let listening = vec![at(LOCALHOST, 5), at(LOCALHOST, 6)];
    let batches = run(&mut scanner, &listening, Outcome::Closed);
    let first_try: Vec<u16> = batches.iter().flatten().take(8).map(|e| e.port).collect();
    assert_eq!(first_try, vec![1, 2, 3, 4, 6, 8, 9, 10]);
    assert!(batches.iter().flatten().all(|e| e.port != 5 && e.port != 7));
    assert_eq!(scanner.open_endpoints(), &vec![at(LOCALHOST, 6)]);
}

#[test]
fn unanswered_endpoints_are_tried_each_time() {
    let unreachable = host(77);
    let mut scanner =
        Scanner::new(&vec![unreachable], 4, 1, 3, true, serial(1, 10), false, Vec::new())
            .unwrap();
    let batches = run(&mut scanner, &[], Outcome::Filtered);
    assert!(scanner.open_endpoints().is_empty());
    assert_eq!(scanner.attempt(), 3);
    assert!(scanner.is_finished());
    for port in 1..=10 {
        let probes = batches.iter().flatten().filter(|e| **e == at(unreachable, port)).count();
        assert_eq!(probes, 3);
    }
    assert_eq!(batches.len(), 9);
}

#[test]
fn every_outcome_but_open_is_retried() {
    for otherwise in [
        Outcome::Closed,
        Outcome::Filtered,
        Outcome::Error(ProbeIoError::ResourceExhausted),
    ] {
        let mut scanner =
            Scanner::new(&vec![LOCALHOST], 10, 1, 2, true, serial(1, 3), false, Vec::new())
                .unwrap();
        let batches = run(&mut scanner, &[at(LOCALHOST, 2)], otherwise);
        assert_eq!(batches.len(), 2);
        assert_eq!(batches[0], vec![at(LOCALHOST, 1), at(LOCALHOST, 2), at(LOCALHOST, 3)]);
        assert_eq!(batches[1], vec![at(LOCALHOST, 1), at(LOCALHOST, 3)]);
        assert_eq!(scanner.open_endpoints(), &vec![at(LOCALHOST, 2)]);
    }
}

#[test]
fn open_set_only_grows() {
    let ips = vec![host(1), host(2)];
    let mut scanner =
        Scanner::new(&ips, 2, 1, 3, true, serial(1, 2), false, Vec::new()).unwrap();
    let mut seen: Vec<Endpoint> = Vec::new();
    let mut round = 0;
    while let Some(batch) = scanner.next_batch() {
        assert_eq!(scanner.open_endpoints(), &seen);
        // the network answers on the first try only
        let listening = if round == 0 { vec![at(host(1), 1)] } else { Vec::new() };
        scanner.record(&answer(&batch, &listening, Outcome::Filtered));
        let open = scanner.open_endpoints().clone();
        assert!(open.starts_with(&seen));
        seen = open;
        round += 1;
    }
    assert_eq!(seen, vec![at(host(1), 1)]);
}

#[test]
fn no_endpoint_twice_in_a_try() {
    let ips = vec![host(1), host(2), host(1), host(3), host(2)];
    let strategy =
        PortStrategy::pick(&None, Some(vec![80, 443, 80, 22, 443]), ScanOrder::Serial, 0).unwrap();
    let mut scanner = Scanner::new(&ips, 4, 1, 2, true, strategy, false, Vec::new()).unwrap();
    assert_eq!(scanner.hosts(), &vec![host(1), host(2), host(3)]);
    assert_eq!(scanner.ports(), &vec![80, 443, 22]);
    let mut tries: Vec<Vec<Endpoint>> = vec![Vec::new(), Vec::new()];
    while let Some(batch) = scanner.next_batch() {
        let attempt = usize::from(scanner.attempt());
        tries[attempt - 1].extend(batch.iter().copied());
        scanner.record(&Vec::new());
    }
    for probed in tries {
        assert_eq!(probed.len(), 9);
        for (i, endpoint) in probed.iter().enumerate() {
            assert!(!probed[..i].contains(endpoint));
        }
    }
}

#[test]
fn batches_stay_within_the_batch_size() {
    let ips: Vec<IpAddress> = (1..=7).map(host).collect();
    for batch_size in [1_u16, 2, 5, 64, u16::MAX] {
        let mut scanner =
            Scanner::new(&ips, batch_size, 1, 2, true, serial(1, 30), false, Vec::new()).unwrap();
        assert_eq!(scanner.batch_size(), batch_size);
        let batches = run(&mut scanner, &[], Outcome::Closed);
        assert!(batches.iter().all(|b| !b.is_empty() && b.len() <= usize::from(batch_size)));
        assert_eq!(batches.iter().map(Vec::len).sum::<usize>(), 2 * 7 * 30);
    }
}

#[test]
fn hosts_cycle_within_each_port() {
    let ips = vec![host(1), host(2), host(3)];
    let mut scanner =
        Scanner::new(&ips, 100, 1, 1, true, serial(20, 22), false, Vec::new()).unwrap();
    let batch = scanner.next_batch().unwrap();
    assert_eq!(
        batch,
        vec![
            at(host(1), 20),
            at(host(2), 20),
            at(host(3), 20),
            at(host(1), 21),
            at(host(2), 21),
            at(host(3), 21),
            at(host(1), 22),
            at(host(2), 22),
            at(host(3), 22),
        ]
    );
    assert_eq!(scanner.next_batch(), None);
}

#[test]
fn found_everything_ends_the_scan() {
    let listening = vec![at(LOCALHOST, 1), at(LOCALHOST, 2)];
    let mut scanner =
        Scanner::new(&vec![LOCALHOST], 10, 1, 5, true, serial(1, 2), false, Vec::new()).unwrap();
    let batches = run(&mut scanner, &listening, Outcome::Closed);
    assert_eq!(batches.len(), 1);
    assert!(scanner.is_finished());
    assert_eq!(scanner.next_batch(), None);
    assert_eq!(scanner.open_endpoints(), &listening);
}

#[test]
fn outcomes_outside_the_batch_are_ignored() {
    let mut scanner =
        Scanner::new(&vec![LOCALHOST], 2, 1, 1, true, serial(1, 4), false, Vec::new()).unwrap();
    let stray = ProbeResult { endpoint: at(LOCALHOST, 3), outcome: Outcome::Open };
    scanner.record(&vec![stray]);
    assert!(scanner.open_endpoints().is_empty());
    let batch = scanner.next_batch().unwrap();
    assert_eq!(batch, vec![at(LOCALHOST, 1), at(LOCALHOST, 2)]);
    let foreign = ProbeResult { endpoint: at(host(9), 1), outcome: Outcome::Open };
    let heard = ProbeResult { endpoint: at(LOCALHOST, 2), outcome: Outcome::Open };
    let refused = ProbeResult { endpoint: at(LOCALHOST, 1), outcome: Outcome::Closed };
    scanner.record(&vec![stray, foreign, heard, refused, heard]);
    assert_eq!(scanner.open_endpoints(), &vec![at(LOCALHOST, 2)]);
    // the batch is answered: a late outcome for it counts no more
    let late = ProbeResult { endpoint: at(LOCALHOST, 1), outcome: Outcome::Open };
    scanner.record(&vec![late]);
    assert_eq!(scanner.open_endpoints(), &vec![at(LOCALHOST, 2)]);
}

#[test]
fn later_outcome_does_not_retract() {
    let mut scanner =
        Scanner::new(&vec![LOCALHOST], 2, 1, 1, true, serial(1, 2), false, Vec::new()).unwrap();
    let batch = scanner.next_batch().unwrap();
    assert_eq!(batch.len(), 2);
    let open = ProbeResult { endpoint: at(LOCALHOST, 1), outcome: Outcome::Open };
    let filtered = ProbeResult { endpoint: at(LOCALHOST, 1), outcome: Outcome::Filtered };
    scanner.record(&vec![open, filtered]);
    assert_eq!(scanner.open_endpoints(), &vec![at(LOCALHOST, 1)]);
}

#[test]
fn configuration_errors() {
    let ips = vec![LOCALHOST];
    let none: Vec<IpAddress> = Vec::new();
    let error = |scanner: Result<Scanner, ConfigError>| scanner.err();
    assert_eq!(
        error(Scanner::new(&none, 0, 1, 0, true, serial(1, 2), false, Vec::new())),
        Some(ConfigError::NoTargets)
    );
    let backwards = PortStrategy::Serial(PortSource::Range(PortRange { start: 2, end: 1 }));
    assert_eq!(
        error(Scanner::new(&none, 0, 1, 0, true, backwards, false, Vec::new())),
        Some(ConfigError::MalformedRange)
    );
    assert_eq!(
        error(Scanner::new(&ips, 0, 1, 0, true, serial(1, 2), false, Vec::new())),
        Some(ConfigError::InvalidBatchSize)
    );
    assert_eq!(
        error(Scanner::new(&ips, 1, 1, 0, true, serial(1, 2), false, Vec::new())),
        Some(ConfigError::NoTries)
    );
    let backwards = PortStrategy::Serial(PortSource::Range(PortRange { start: 2, end: 1 }));
    assert!(backwards.is_malformed());
    assert!(!serial(1, 1).is_malformed());
    assert!(!PortStrategy::Random(PortSource::List(Vec::new()), 1).is_malformed());
    assert_eq!(
        error(Scanner::new(&ips, 1, 1, 1, true, backwards, false, Vec::new())),
        Some(ConfigError::MalformedRange)
    );
    assert_eq!(
        error(Scanner::new(&ips, 1, 1, 1, true, serial(1, 2), false, vec![2, 1])),
        Some(ConfigError::EmptyPortSet)
    );
    let empty = PortStrategy::Serial(PortSource::List(Vec::new()));
    assert_eq!(
        error(Scanner::new(&ips, 1, 1, 1, true, empty, false, Vec::new())),
        Some(ConfigError::EmptyPortSet)
    );
}

#[test]
fn options_are_kept() {
    let scanner =
        Scanner::new(&vec![LOCALHOST], 7, 1_500, 4, false, serial(1, 2), true, vec![9]).unwrap();
    assert_eq!(scanner.batch_size(), 7);
    assert_eq!(scanner.timeout(), 1_500);
    assert_eq!(scanner.tries(), 4);
    assert!(!scanner.greppable());
    assert!(scanner.accessible());
    assert_eq!(scanner.attempt(), 0);
    assert!(!scanner.is_finished());
    assert!(scanner.open_endpoints().is_empty());
}

#[test]
fn plan_leaves_out_what_is_open() {
    let ips = vec![host(1), host(2)];
    let ports = vec![443, 80];
    let open = vec![at(host(2), 443), at(host(1), 80), at(host(3), 80)];
    assert_eq!(build_plan(&ips, &ports, &open), vec![at(host(1), 443), at(host(2), 80)]);
    assert_eq!(
        build_plan(&ips, &ports, &Vec::new()),
        vec![at(host(1), 443), at(host(2), 443), at(host(1), 80), at(host(2), 80)]
    );
    assert!(build_plan(&Vec::new(), &ports, &open).is_empty());
    assert!(build_plan(&ips, &Vec::new(), &open).is_empty());
}

#[test]
fn repeated_hosts_count_once() {
    assert_eq!(dedup_ips(&vec![host(2), host(1), host(2), host(2)]), vec![host(2), host(1)]);
    assert_eq!(dedup_ips(&vec![IpAddress::V4(1), IpAddress::V6(1)]).len(), 2);
}

#[test]
fn scan_from_options() {
    let mut opts = Opts::default();
    opts.range = Some(PortRange { start: 1, end: 10 });
    opts.exclude_ports = Some(vec![5, 7]);
    opts.batch_size = 50_000;
    opts.tries = 2;
    opts.timeout = 250;
    opts.accessible = true;
    let scanner = Scanner::from_opts(&opts, &vec![LOCALHOST], Some(5_000), 99).unwrap();
    assert_eq!(scanner.ports(), &vec![1, 2, 3, 4, 6, 8, 9, 10]);
    assert_eq!(scanner.hosts(), &vec![LOCALHOST]);
    assert_eq!(scanner.batch_size(), 4_900);
    assert_eq!(scanner.timeout(), 250);
    assert_eq!(scanner.tries(), 2);
    assert!(scanner.greppable());
    assert!(scanner.accessible());
}

#[test]
fn scan_from_options_within_the_budget() {
    let mut opts = Opts::default();
    opts.range = Some(PortRange { start: 1, end: 10 });
    opts.tries = 1;
    opts.batch_size = 50_000;
    let ips = vec![LOCALHOST];
    assert_eq!(Scanner::from_opts(&opts, &ips, Some(120), 0).unwrap().batch_size(), 60);
    assert_eq!(Scanner::from_opts(&opts, &ips, Some(9_000), 0).unwrap().batch_size(), 3_000);
    assert_eq!(Scanner::from_opts(&opts, &ips, Some(5_000), 0).unwrap().batch_size(), 4_900);
    assert_eq!(Scanner::from_opts(&opts, &ips, None, 0).unwrap().batch_size(), 3_000);
    opts.batch_size = 10;
    assert_eq!(Scanner::from_opts(&opts, &ips, Some(1_000_000), 0).unwrap().batch_size(), 10);
    assert_eq!(Scanner::from_opts(&opts, &ips, None, 0).unwrap().batch_size(), 3_000);
    opts.batch_size = 50_000;
    assert_eq!(
        Scanner::from_opts(&opts, &ips, Some(1), 0).err(),
        Some(ConfigError::InvalidBatchSize)
    );
}

#[test]
fn scan_from_options_with_a_seed() {
    let mut opts = Opts::default();
    opts.ports = Some(vec![80, 443, 8080]);
    opts.range = Some(PortRange { start: 1, end: 10 });
    opts.scan_order = ScanOrder::Random;
    opts.batch_size = 10;
    opts.tries = 1;
    opts.seed = Some(42);
    let scanner = Scanner::from_opts(&opts, &vec![LOCALHOST], Some(1_024), 7).unwrap();
    assert_eq!(scanner.ports(), &vec![8080, 80, 443]);
    opts.seed = None;
    let scanner = Scanner::from_opts(&opts, &vec![LOCALHOST], Some(1_024), 7).unwrap();
    assert_eq!(scanner.ports(), &vec![80, 443, 8080]);
    let scanner = Scanner::from_opts(&opts, &vec![LOCALHOST], Some(1_024), 42).unwrap();
    assert_eq!(scanner.ports(), &vec![8080, 80, 443]);
}

#[test]
fn scan_from_bad_options() {
    let ips = vec![LOCALHOST];
    let limit = Some(1_024);
    let mut opts = Opts::default();
    opts.batch_size = 10;
    opts.tries = 1;
    assert_eq!(Scanner::from_opts(&opts, &ips, limit, 0).err(), Some(ConfigError::EmptyPortSet));
    opts.range = Some(PortRange { start: 9, end: 8 });
    assert_eq!(Scanner::from_opts(&opts, &ips, limit, 0).err(), Some(ConfigError::MalformedRange));
    assert_eq!(
        Scanner::from_opts(&opts, &Vec::new(), limit, 0).err(),
        Some(ConfigError::MalformedRange)
    );
    opts.range = Some(PortRange { start: 8, end: 9 });
    assert_eq!(
        Scanner::from_opts(&opts, &Vec::new(), limit, 0).err(),
        Some(ConfigError::NoTargets)
    );
    opts.batch_size = 0;
    assert_eq!(
        Scanner::from_opts(&opts, &ips, limit, 0).err(),
        Some(ConfigError::InvalidBatchSize)
    );
    opts.batch_size = 10;
    opts.tries = 0;
    assert_eq!(Scanner::from_opts(&opts, &ips, limit, 0).err(), Some(ConfigError::NoTries));
    opts.tries = 1;
    opts.exclude_ports = Some(vec![8, 9]);
    assert_eq!(Scanner::from_opts(&opts, &ips, limit, 0).err(), Some(ConfigError::EmptyPortSet));
    opts.ports = Some(Vec::new());
    assert_eq!(Scanner::from_opts(&opts, &ips, limit, 0).err(), Some(ConfigError::EmptyPortSet));
}
