//! The scan driver: it hands out batches of endpoints to probe and collects
//! the endpoints that the probes found open.

use vstd::prelude::*;
use crate::budget::{batch_size_for, budgeted_batch};
use crate::endpoint::{contains_endpoint, contains_ip, Endpoint, IpAddress, ProbeResult};
use crate::error::ConfigError;
use crate::plan::{build_plan, chunk};
use crate::input::Opts;
use crate::port_strategy::{copy_ports, listed, picked, PortStrategy};
use crate::ports::{dedup_ports, distinct, remove_excluded};
use crate::report::{group_by_ip, reports_host, HostReport};
use crate::schedule::{
    absorbed,
    initial,
    lemma_absorb_wf,
    lemma_absorbed,
    lemma_batch_bounded,
    lemma_exclusion_honored,
    lemma_finished,
    lemma_initial_wf,
    lemma_next_wf,
    lemma_no_endpoint_probed_twice,
    reported_open,
    started,
    ScanState,
};

verus! {

/// A scan in progress.
#[derive(Debug)]
pub struct Scanner {
    ips: Vec<IpAddress>,
    ports: Vec<u16>,
    exclude_ports: Vec<u16>,
    batch_size: u16,
    timeout: u32,
    tries: u8,
    greppable: bool,
    accessible: bool,
    attempt: u8,
    plan: Vec<Endpoint>,
    issued: usize,
    in_flight: usize,
    open: Vec<Endpoint>,
}

impl View for Scanner {
    type V = ScanState;

    closed spec fn view(&self) -> ScanState {
        ScanState {
            ips: self.ips@,
            ports: self.ports@,
            excluded: self.exclude_ports@,
            batch_size: self.batch_size,
            timeout: self.timeout,
            tries: self.tries,
            greppable: self.greppable,
            accessible: self.accessible,
            attempt: self.attempt as nat,
            plan: self.plan@,
            issued: self.issued as nat,
            in_flight: self.in_flight as nat,
            open: self.open@,
        }
    }
}

/// Keeps the first occurrence of each host, in order.
pub fn dedup_ips(ips: &Vec<IpAddress>) -> (kept: Vec<IpAddress>)
    ensures
        kept@ == distinct(ips@),
{
    let mut kept: Vec<IpAddress> = Vec::new();
    let mut i: usize = 0;
    assert(ips@.take(0) =~= Seq::<IpAddress>::empty());
    while i < ips.len()
        invariant
            i <= ips.len(),
            kept@ == distinct(ips@.take(i as int)),
        decreases ips.len() - i,
    {
        let ip = ips[i];
        proof {
            assert(ips@.take(i + 1).drop_last() =~= ips@.take(i as int));
            assert(ips@.take(i + 1).last() == ip);
        }
        if !contains_ip(&kept, ip) {
            kept.push(ip);
        }
        i += 1;
    }
    assert(ips@.take(i as int) =~= ips@);
    kept
}

/// The state from which the scan that the options describe starts, or why it
/// cannot start. The batch size is the one the descriptor budget allows under
/// `limit`; what is wrong with the ports is reported first.
pub open spec fn prepared(opts: Opts, ips: Seq<IpAddress>, limit: Option<u64>, fresh_seed: u64) -> Result<
    ScanState,
    ConfigError,
> {
    let seed = match opts.seed {
        Some(seed) => seed,
        None => fresh_seed,
    };
    let excluded = match opts.exclude_ports {
        Some(list) => list@,
        None => Seq::empty(),
    };
    match picked(opts.range, listed(opts.ports), opts.scan_order, seed) {
        Err(error) => Err(error),
        Ok(visited) => initial(
            ips,
            budgeted_batch(opts.batch_size, limit),
            opts.timeout,
            opts.tries,
            opts.greppable,
            visited,
            opts.accessible,
            excluded,
        ),
    }
}

impl Scanner {
    /// The invariant of a scan in progress.
    pub open spec fn wf(&self) -> bool {
        self@.wf()
    }

    /// Sets up a scan of every host in `ips` at every port of `port_strategy`
    /// that `exclude_ports` does not list. Repeated hosts and ports count once.
    pub fn new(
        ips: &Vec<IpAddress>,
        batch_size: u16,
        timeout: u32,
        tries: u8,
        greppable: bool,
        port_strategy: PortStrategy,
        accessible: bool,
        exclude_ports: Vec<u16>,
    ) -> (scanner: Result<Scanner, ConfigError>)
        ensures
            match started(
                ips@,
                batch_size,
                timeout,
                tries,
                greppable,
                port_strategy,
                accessible,
                exclude_ports@,
            ) {
                Ok(state) => scanner is Ok && scanner->Ok_0@ == state && scanner->Ok_0.wf(),
                Err(error) => scanner is Err && scanner->Err_0 == error,
            },
    {
        proof {
            lemma_initial_wf(
                ips@,
                batch_size,
                timeout,
                tries,
                greppable,
                port_strategy.ordered(),
                accessible,
                exclude_ports@,
            );
        }
        if port_strategy.is_malformed() {
            return Err(ConfigError::MalformedRange);
        }
        if ips.len() == 0 {
            return Err(ConfigError::NoTargets);
        }
        if batch_size == 0 {
            return Err(ConfigError::InvalidBatchSize);
        }
        if tries == 0 {
            return Err(ConfigError::NoTries);
        }
        let ordered = port_strategy.order();
        let allowed = remove_excluded(&ordered, &exclude_ports);
        let ports = dedup_ports(&allowed);
        if ports.len() == 0 {
            return Err(ConfigError::EmptyPortSet);
        }
        Ok(
            Scanner {
                ips: dedup_ips(ips),
                ports,
                exclude_ports,
                batch_size,
                timeout,
                tries,
                greppable,
                accessible,
                attempt: 0,
                plan: Vec::new(),
                issued: 0,
                in_flight: 0,
                open: Vec::new(),
            },
        )
    }

    /// Sets up the scan that the options describe, for the resolved hosts
    /// `ips`. `limit` is the open-file limit in force, `None` where the
    /// platform has none; the batch size is what the descriptor budget allows
    /// under it, so a batch never holds more endpoints than the limit. The
    /// random order uses `opts.seed`, or `fresh_seed` where the options name
    /// none.
    pub fn from_opts(opts: &Opts, ips: &Vec<IpAddress>, limit: Option<u64>, fresh_seed: u64) -> (scanner:
        Result<Scanner, ConfigError>)
        ensures
            match prepared(*opts, ips@, limit, fresh_seed) {
                Ok(state) => scanner is Ok && scanner->Ok_0@ == state && scanner->Ok_0.wf(),
                Err(error) => scanner is Err && scanner->Err_0 == error,
            },
            scanner is Ok && limit is Some ==> scanner->Ok_0@.batch_size <= limit->Some_0
                && scanner->Ok_0@.batch_size <= opts.batch_size,
    {
        let batch_size = batch_size_for(opts, limit);
        let seed = match opts.seed {
            Some(seed) => seed,
            None => fresh_seed,
        };
        let ports = match &opts.ports {
            Some(list) => Some(copy_ports(list)),
            None => None,
        };
        let exclude_ports = match &opts.exclude_ports {
            Some(list) => copy_ports(list),
            None => Vec::new(),
        };
        match PortStrategy::pick(&opts.range, ports, opts.scan_order, seed) {
            Err(error) => Err(error),
            Ok(strategy) => Scanner::new(
                ips,
                batch_size,
                opts.timeout,
                opts.tries,
                opts.greppable,
                strategy,
                opts.accessible,
                exclude_ports,
            ),
        }
    }

    /// Takes the next step of the scan: returns the batch to probe now, or
    /// `None` when the scan is over. Each batch is to be probed and its
    /// outcomes handed to [`Scanner::record`] before the next is asked for;
    /// a batch that is never answered counts as not open.
    pub fn next_batch(&mut self) -> (batch: Option<Vec<Endpoint>>)
        requires
            old(self).wf(),
        ensures
            final(self).wf(),
            final(self)@ == old(self)@.next().0,
            match batch {
                Some(endpoints) => old(self)@.next().1 == Some(endpoints@),
                None => old(self)@.next().1 is None,
            },
            final(self)@.open == old(self)@.open,
            final(self)@.probed().no_duplicates(),
            batch matches Some(endpoints) ==> {
                &&& 1 <= endpoints@.len() <= old(self)@.batch_size
                &&& endpoints@.no_duplicates()
                &&& final(self)@.batch_in_flight() == endpoints@
                &&& forall|e: Endpoint| #[trigger]
                    endpoints@.contains(e) ==> !old(self)@.excluded.contains(e.port)
            },
            batch is None ==> final(self)@.finished(),
    {
        proof {
            lemma_next_wf(self@);
            lemma_batch_bounded(self@);
            lemma_no_endpoint_probed_twice(self@);
            lemma_exclusion_honored(self@);
            lemma_finished(self@);
        }
        if self.issued >= self.plan.len() {
            if self.attempt >= self.tries {
                self.in_flight = 0;
                return None;
            }
            let plan = build_plan(&self.ips, &self.ports, &self.open);
            if plan.len() == 0 {
                self.attempt = self.tries;
                self.in_flight = 0;
                return None;
            }
            self.attempt = self.attempt + 1;
            self.plan = plan;
            self.issued = 0;
        }
        let start: usize = self.issued;
        let total: usize = self.plan.len();
        let left: usize = total - start;
        let size: usize = if left < self.batch_size as usize {
            left
        } else {
            self.batch_size as usize
        };
        let ghost wanted = chunk(self.plan@, start as int, self.batch_size as int);
        let mut batch: Vec<Endpoint> = Vec::new();
        let mut k: usize = 0;
        while k < size
            invariant
                k <= size,
                start + size <= total == self.plan@.len(),
                batch@ == self.plan@.subrange(start as int, start + k),
            decreases size - k,
        {
            batch.push(self.plan[start + k]);
            k += 1;
            assert(batch@ =~= self.plan@.subrange(start as int, start + k));
        }
        assert(batch@ == wanted);
        self.issued = start + size;
        self.in_flight = size;
        Some(batch)
    }

    /// Whether `endpoint` belongs to the batch whose outcomes are awaited.
    fn in_flight_contains(&self, endpoint: Endpoint) -> (found: bool)
        requires
            self.wf(),
        ensures
            found == self@.batch_in_flight().contains(endpoint),
    {
        let start: usize = self.issued - self.in_flight;
        let ghost batch = self@.batch_in_flight();
        let mut k: usize = start;
        while k < self.issued
            invariant
                start <= k <= self.issued <= self.plan@.len(),
                start == self.issued - self.in_flight,
                batch == self.plan@.subrange(start as int, self.issued as int),
                forall|m: int| 0 <= m < k - start ==> batch[m] != endpoint,
            decreases self.issued - k,
        {
            if self.plan[k] == endpoint {
                assert(batch[k - start] == endpoint);
                return true;
            }
            k += 1;
        }
        false
    }

    /// Takes in the outcomes of the batch handed out last. An endpoint of
    /// that batch reported `Open` joins the open set; every other outcome
    /// leaves its endpoint to the next try. Outcomes for endpoints outside
    /// the batch are ignored.
    pub fn record(&mut self, outcomes: &Vec<ProbeResult>)
        requires
            old(self).wf(),
        ensures
            final(self).wf(),
            final(self)@ == old(self)@.absorb(outcomes@),
            old(self)@.open.is_prefix_of(final(self)@.open),
            forall|e: Endpoint| #[trigger]
                final(self)@.open.contains(e) <==> old(self)@.open.contains(e) || (old(
                    self,
                )@.batch_in_flight().contains(e) && reported_open(outcomes@, e)),
    {
        proof {
            lemma_absorb_wf(self@, outcomes@);
            lemma_absorbed(self@.open, self@.batch_in_flight(), outcomes@);
        }
        let ghost start = self@;
        let ghost batch = self@.batch_in_flight();
        let mut i: usize = 0;
        assert(outcomes@.take(0) =~= Seq::<ProbeResult>::empty());
        while i < outcomes.len()
            invariant
                i <= outcomes.len(),
                start.wf(),
                self@ == (ScanState {
                    open: absorbed(start.open, batch, outcomes@.take(i as int)),
                    ..start
                }),
                batch == start.batch_in_flight(),
            decreases outcomes.len() - i,
        {
            let result = outcomes[i];
            proof {
                assert(outcomes@.take(i + 1).drop_last() =~= outcomes@.take(i as int));
                assert(outcomes@.take(i + 1).last() == result);
                lemma_absorb_wf(start, outcomes@.take(i as int));
                assert(self@.batch_in_flight() == batch);
            }
            if result.outcome.is_open() && self.in_flight_contains(result.endpoint)
                && !contains_endpoint(&self.open, result.endpoint) {
                self.open.push(result.endpoint);
            }
            i += 1;
        }
        assert(outcomes@.take(i as int) =~= outcomes@);
        self.in_flight = 0;
    }

    /// Whether the scan is over.
    pub fn is_finished(&self) -> (over: bool)
        ensures
            over == self@.finished(),
    {
        self.attempt == self.tries && self.issued == self.plan.len()
    }

    /// The endpoints found open so far, in the order of discovery.
    pub fn open_endpoints(&self) -> (open: &Vec<Endpoint>)
        ensures
            open@ == self@.open,
    {
        &self.open
    }

    /// The hosts of the scan, each once.
    pub fn hosts(&self) -> (ips: &Vec<IpAddress>)
        ensures
            ips@ == self@.ips,
    {
        &self.ips
    }

    /// The ports of the scan in the order in which they are probed.
    pub fn ports(&self) -> (ports: &Vec<u16>)
        ensures
            ports@ == self@.ports,
    {
        &self.ports
    }

    /// The result so far, host by host: one report for each host, in order,
    /// with its open ports ascending.
    pub fn report(&self) -> (reports: Vec<HostReport>)
        ensures
            reports@.len() == self@.ips.len(),
            forall|i: int|
                0 <= i < self@.ips.len() ==> reports_host(
                    #[trigger] reports@[i],
                    self@.open,
                    self@.ips[i],
                ),
    {
        group_by_ip(&self.ips, &self.open)
    }

    /// The most endpoints that one batch holds.
    pub fn batch_size(&self) -> (size: u16)
        ensures
            size == self@.batch_size,
    {
        self.batch_size
    }

    /// The deadline of one probe, in milliseconds.
    pub fn timeout(&self) -> (millis: u32)
        ensures
            millis == self@.timeout,
    {
        self.timeout
    }

    /// The number of tries the scan makes.
    pub fn tries(&self) -> (tries: u8)
        ensures
            tries == self@.tries,
    {
        self.tries
    }

    /// The number of tries begun so far.
    pub fn attempt(&self) -> (attempt: u8)
        ensures
            attempt == self@.attempt,
    {
        self.attempt
    }

    /// Whether progress output is suppressed.
    pub fn greppable(&self) -> (greppable: bool)
        ensures
            greppable == self@.greppable,
    {
        self.greppable
    }

    /// The rendering hint handed through to the caller.
    pub fn accessible(&self) -> (accessible: bool)
        ensures
            accessible == self@.accessible,
    {
        self.accessible
    }
}

} // verus!
