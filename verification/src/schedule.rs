//! The retry schedule as a state machine: which batch is probed next, and
//! what the outcomes of a batch do to the set of open endpoints.

use vstd::prelude::*;
use crate::endpoint::{Endpoint, IpAddress, Outcome, ProbeResult};
use crate::error::ConfigError;
use crate::plan::{chunk, lemma_uncertain, uncertain};
use crate::port_strategy::PortStrategy;
use crate::ports::{distinct, lemma_distinct, lemma_without_excluded, without_excluded};

verus! {

/// The state of a scan between two steps.
pub struct ScanState {
    /// The hosts, each once.
    pub ips: Seq<IpAddress>,
    /// The ports in the order of the strategy, each once, none excluded.
    pub ports: Seq<u16>,
    /// The ports that must never be probed.
    pub excluded: Seq<u16>,
    /// The most endpoints that one batch may hold.
    pub batch_size: u16,
    /// The deadline of one probe, in milliseconds.
    pub timeout: u32,
    /// The number of tries the scan makes.
    pub tries: u8,
    /// Whether progress output is suppressed.
    pub greppable: bool,
    /// The rendering hint handed through to the caller.
    pub accessible: bool,
    /// The number of tries begun so far.
    pub attempt: nat,
    /// The plan of the try under way.
    pub plan: Seq<Endpoint>,
    /// How many endpoints of the plan have been handed out.
    pub issued: nat,
    /// How many of them, the last ones, still await their outcomes.
    pub in_flight: nat,
    /// The endpoints found open, in the order of discovery.
    pub open: Seq<Endpoint>,
}

/// The open set after the outcomes of a batch: an endpoint is added when an
/// outcome reports it open, the batch holds it, and it is not yet in the set.
pub open spec fn absorbed(open: Seq<Endpoint>, batch: Seq<Endpoint>, outcomes: Seq<ProbeResult>) -> Seq<
    Endpoint,
>
    decreases outcomes.len(),
{
    if outcomes.len() == 0 {
        open
    } else {
        let earlier = absorbed(open, batch, outcomes.drop_last());
        let result = outcomes.last();
        if result.outcome == Outcome::Open && batch.contains(result.endpoint) && !earlier.contains(
            result.endpoint,
        ) {
            earlier.push(result.endpoint)
        } else {
            earlier
        }
    }
}

/// Whether some outcome reports `endpoint` open.
pub open spec fn reported_open(outcomes: Seq<ProbeResult>, endpoint: Endpoint) -> bool {
    outcomes.contains(ProbeResult { endpoint, outcome: Outcome::Open })
}

/// What absorbing the outcomes of a batch does: the open set keeps what it
/// held, in order, gains exactly the endpoints of the batch reported open,
/// and repeats nothing it did not repeat before.
pub proof fn lemma_absorbed(open: Seq<Endpoint>, batch: Seq<Endpoint>, outcomes: Seq<ProbeResult>)
    ensures
        open.is_prefix_of(absorbed(open, batch, outcomes)),
        forall|e: Endpoint| #[trigger]
            absorbed(open, batch, outcomes).contains(e) <==> open.contains(e) || (batch.contains(e)
                && reported_open(outcomes, e)),
        open.no_duplicates() ==> absorbed(open, batch, outcomes).no_duplicates(),
    decreases outcomes.len(),
{
    let after = absorbed(open, batch, outcomes);
    if outcomes.len() == 0 {
        assert forall|e: Endpoint| !reported_open(outcomes, e) by {}
    } else {
        let head = outcomes.drop_last();
        let earlier = absorbed(open, batch, head);
        let result = outcomes.last();
        lemma_absorbed(open, batch, head);
        assert forall|e: Endpoint| #[trigger]
            after.contains(e) <==> open.contains(e) || (batch.contains(e) && reported_open(
                outcomes,
                e,
            )) by {
            let wanted = ProbeResult { endpoint: e, outcome: Outcome::Open };
            crate::ports::lemma_push_contains(earlier, result.endpoint, e);
            assert(outcomes =~= head.push(result));
            crate::ports::lemma_push_contains(head, result, wanted);
        }
    }
}

impl ScanState {
    /// The invariant of a scan.
    pub open spec fn wf(self) -> bool {
        &&& self.ips.len() > 0
        &&& self.ips.no_duplicates()
        &&& self.ports.len() > 0
        &&& self.ports.no_duplicates()
        &&& forall|port: u16| self.ports.contains(port) ==> !self.excluded.contains(port)
        &&& self.batch_size >= 1
        &&& self.tries >= 1
        &&& self.attempt <= self.tries
        &&& self.in_flight <= self.issued <= self.plan.len()
        &&& self.in_flight <= self.batch_size
        &&& self.plan.no_duplicates()
        &&& forall|e: Endpoint|
            self.plan.contains(e) ==> self.ips.contains(e.ip) && self.ports.contains(e.port)
        &&& self.open.no_duplicates()
        &&& forall|e: Endpoint|
            self.open.contains(e) ==> self.ips.contains(e.ip) && self.ports.contains(e.port)
    }

    /// The batch handed out last, while its outcomes are awaited.
    pub open spec fn batch_in_flight(self) -> Seq<Endpoint> {
        self.plan.subrange(self.issued - self.in_flight, self.issued as int)
    }

    /// The endpoints probed so far in the try under way.
    pub open spec fn probed(self) -> Seq<Endpoint> {
        self.plan.take(self.issued as int)
    }

    /// Whether the scan is over: every try is spent and every batch handed out.
    pub open spec fn finished(self) -> bool {
        self.attempt == self.tries && self.issued == self.plan.len()
    }

    /// The next step: the state after it and the batch to probe, if any.
    /// A try hands out its plan batch by batch; when the plan is used up the
    /// next try begins with the endpoints not yet found open, until the tries
    /// are spent or nothing is left to probe.
    pub open spec fn next(self) -> (ScanState, Option<Seq<Endpoint>>) {
        if self.issued < self.plan.len() {
            let batch = chunk(self.plan, self.issued as int, self.batch_size as int);
            (
                ScanState { issued: self.issued + batch.len(), in_flight: batch.len(), ..self },
                Some(batch),
            )
        } else if self.attempt < self.tries && uncertain(self.ips, self.ports, self.open).len()
            > 0 {
            let plan = uncertain(self.ips, self.ports, self.open);
            let batch = chunk(plan, 0, self.batch_size as int);
            (
                ScanState {
                    attempt: self.attempt + 1,
                    plan,
                    issued: batch.len(),
                    in_flight: batch.len(),
                    ..self
                },
                Some(batch),
            )
        } else {
            (ScanState { attempt: self.tries as nat, in_flight: 0, ..self }, None)
        }
    }

    /// The state after the outcomes of the batch in flight have come in.
    pub open spec fn absorb(self, outcomes: Seq<ProbeResult>) -> ScanState {
        ScanState {
            open: absorbed(self.open, self.batch_in_flight(), outcomes),
            in_flight: 0,
            ..self
        }
    }
}

/// The ports a scan probes: those of the strategy in its order, without the
/// excluded ones, each once.
pub open spec fn plan_ports(ordered: Seq<u16>, excluded: Seq<u16>) -> Seq<u16> {
    distinct(without_excluded(ordered, excluded))
}

/// The state from which a scan of `ips` starts that visits the ports
/// `visited`, or why it cannot start.
pub open spec fn initial(
    ips: Seq<IpAddress>,
    batch_size: u16,
    timeout: u32,
    tries: u8,
    greppable: bool,
    visited: Seq<u16>,
    accessible: bool,
    excluded: Seq<u16>,
) -> Result<ScanState, ConfigError> {
    if ips.len() == 0 {
        Err(ConfigError::NoTargets)
    } else if batch_size == 0 {
        Err(ConfigError::InvalidBatchSize)
    } else if tries == 0 {
        Err(ConfigError::NoTries)
    } else if plan_ports(visited, excluded).len() == 0 {
        Err(ConfigError::EmptyPortSet)
    } else {
        Ok(
            ScanState {
                ips: distinct(ips),
                ports: plan_ports(visited, excluded),
                excluded,
                batch_size,
                timeout,
                tries,
                greppable,
                accessible,
                attempt: 0,
                plan: Seq::empty(),
                issued: 0,
                in_flight: 0,
                open: Seq::empty(),
            },
        )
    }
}

/// The state from which a scan with a port strategy starts, or why it
/// cannot start: a malformed range is refused before anything else.
pub open spec fn started(
    ips: Seq<IpAddress>,
    batch_size: u16,
    timeout: u32,
    tries: u8,
    greppable: bool,
    strategy: PortStrategy,
    accessible: bool,
    excluded: Seq<u16>,
) -> Result<ScanState, ConfigError> {
    if strategy.malformed() {
        Err(ConfigError::MalformedRange)
    } else {
        initial(
            ips,
            batch_size,
            timeout,
            tries,
            greppable,
            strategy.ordered(),
            accessible,
            excluded,
        )
    }
}

/// The ports of a scan are those of the strategy that are not excluded.
pub proof fn lemma_plan_ports(ordered: Seq<u16>, excluded: Seq<u16>)
    ensures
        plan_ports(ordered, excluded).no_duplicates(),
        forall|port: u16| #[trigger]
            plan_ports(ordered, excluded).contains(port) <==> ordered.contains(port)
                && !excluded.contains(port),
{
    lemma_without_excluded(ordered, excluded);
    lemma_distinct(without_excluded(ordered, excluded));
}

/// A scan starts in a state that meets the invariant.
pub proof fn lemma_initial_wf(
    ips: Seq<IpAddress>,
    batch_size: u16,
    timeout: u32,
    tries: u8,
    greppable: bool,
    visited: Seq<u16>,
    accessible: bool,
    excluded: Seq<u16>,
)
    ensures
        initial(ips, batch_size, timeout, tries, greppable, visited, accessible, excluded)
            matches Ok(state) ==> state.wf(),
{
    lemma_plan_ports(visited, excluded);
    lemma_distinct(ips);
    if ips.len() > 0 {
        assert(ips.contains(ips[0]));
        assert(distinct(ips).contains(ips[0]));
    }
}

/// A step keeps the invariant.
pub proof fn lemma_next_wf(state: ScanState)
    requires
        state.wf(),
    ensures
        state.next().0.wf(),
{
    lemma_uncertain(state.ips, state.ports, state.open);
}

/// Absorbing outcomes keeps the invariant.
pub proof fn lemma_absorb_wf(state: ScanState, outcomes: Seq<ProbeResult>)
    requires
        state.wf(),
    ensures
        state.absorb(outcomes).wf(),
{
    lemma_absorbed(state.open, state.batch_in_flight(), outcomes);
    let after = state.absorb(outcomes);
    assert forall|e: Endpoint| after.open.contains(e) implies state.ips.contains(e.ip)
        && state.ports.contains(e.port) by {
        if !state.open.contains(e) {
            assert(state.batch_in_flight().contains(e));
            assert(state.plan.contains(e));
        }
    }
}

/// The open set only grows: a step leaves it as it is, and the outcomes of
/// a batch keep every endpoint it held, in place.
pub proof fn lemma_open_only_grows(state: ScanState, outcomes: Seq<ProbeResult>)
    requires
        state.wf(),
    ensures
        state.next().0.open == state.open,
        state.open.is_prefix_of(state.absorb(outcomes).open),
        forall|e: Endpoint| state.open.contains(e) ==> state.absorb(outcomes).open.contains(e),
{
    lemma_absorbed(state.open, state.batch_in_flight(), outcomes);
}

/// No endpoint is probed twice in one try: a batch either extends what the
/// try under way has probed or opens the next try, and what a try has
/// probed never holds an endpoint twice.
pub proof fn lemma_no_endpoint_probed_twice(state: ScanState)
    requires
        state.wf(),
    ensures
        state.probed().no_duplicates(),
        state.next().1 matches Some(batch) ==> {
            let after = state.next().0;
            &&& batch.no_duplicates()
            &&& after.batch_in_flight() == batch
            &&& after.probed().no_duplicates()
            &&& if after.attempt == state.attempt {
                after.probed() == state.probed() + batch
            } else {
                after.attempt == state.attempt + 1 && after.probed() == batch
            }
        },
{
    lemma_next_wf(state);
    let after = state.next().0;
    if let Some(batch) = state.next().1 {
        assert(after.batch_in_flight() =~= batch);
        if after.attempt == state.attempt {
            assert(after.probed() =~= state.probed() + batch);
        } else {
            assert(after.probed() =~= batch);
        }
    }
}

/// A batch holds at least one endpoint and at most `batch_size`, and so does
/// not exceed what the descriptor budget allows in flight.
pub proof fn lemma_batch_bounded(state: ScanState)
    requires
        state.wf(),
    ensures
        state.in_flight <= state.batch_size,
        state.next().0.in_flight <= state.batch_size,
        state.next().1 matches Some(batch) ==> 1 <= batch.len() <= state.batch_size
            && state.next().0.in_flight == batch.len(),
{
}

/// No endpoint at an excluded port is ever handed out, nor found open.
pub proof fn lemma_exclusion_honored(state: ScanState)
    requires
        state.wf(),
    ensures
        forall|e: Endpoint| state.plan.contains(e) ==> !state.excluded.contains(e.port),
        forall|e: Endpoint| state.open.contains(e) ==> !state.excluded.contains(e.port),
        state.next().1 matches Some(batch) ==> forall|e: Endpoint| #[trigger]
            batch.contains(e) ==> !state.excluded.contains(e.port),
{
    lemma_next_wf(state);
    let after = state.next().0;
    if let Some(batch) = state.next().1 {
        assert forall|e: Endpoint| #[trigger] batch.contains(e) implies !state.excluded.contains(
            e.port,
        ) by {
            assert(after.plan.contains(e));
        }
    }
}

/// A scan that is over hands out nothing more, and a scan that hands out
/// nothing is over.
pub proof fn lemma_finished(state: ScanState)
    requires
        state.wf(),
    ensures
        state.finished() ==> state.next().1 is None,
        state.next().1 is None ==> state.next().0.finished(),
        state.finished() ==> state.next().0.finished(),
{
}

/// The outcomes of a batch on a network where exactly the endpoints in
/// `listening` accept a connection and every other refuses at once.
pub open spec fn answers(batch: Seq<Endpoint>, listening: Set<Endpoint>) -> Seq<ProbeResult> {
    Seq::new(
        batch.len(),
        |i: int|
            ProbeResult {
                endpoint: batch[i],
                outcome: if listening.contains(batch[i]) {
                    Outcome::Open
                } else {
                    Outcome::Closed
                },
            },
    )
}

/// The state in which a scan ends on such a network: step by step, each
/// batch answered before the next is taken.
pub open spec fn scan_against(state: ScanState, listening: Set<Endpoint>) -> ScanState
    decreases state.tries - state.attempt, state.plan.len() - state.issued,
    when state.wf()
    via scan_against_decreases
{
    match state.next().1 {
        None => state.next().0,
        Some(batch) => scan_against(state.next().0.absorb(answers(batch, listening)), listening),
    }
}

#[via_fn]
proof fn scan_against_decreases(state: ScanState, listening: Set<Endpoint>) {
    lemma_next_wf(state);
}

/// What a scan still owes: nothing wrong is in the open set, and every
/// listening endpoint in scope is found, still planned, or due in a later try.
pub open spec fn on_course(state: ScanState, listening: Set<Endpoint>) -> bool {
    &&& forall|e: Endpoint| state.open.contains(e) ==> listening.contains(e)
    &&& forall|e: Endpoint|
        listening.contains(e) && state.ips.contains(e.ip) && state.ports.contains(e.port)
            ==> state.open.contains(e) || state.attempt < state.tries || state.plan.skip(
            state.issued as int,
        ).contains(e)
}

/// A batch answered by the network keeps the scan on course.
proof fn lemma_step_on_course(state: ScanState, listening: Set<Endpoint>)
    requires
        state.wf(),
        on_course(state, listening),
        state.next().1 is Some,
    ensures
        state.next().0.absorb(answers(state.next().1->Some_0, listening)).wf(),
        on_course(state.next().0.absorb(answers(state.next().1->Some_0, listening)), listening),
{
    let after = state.next().0;
    let batch = state.next().1->Some_0;
    let replies = answers(batch, listening);
    let then = after.absorb(replies);
    lemma_next_wf(state);
    lemma_absorb_wf(after, replies);
    assert(after.batch_in_flight() =~= batch);
    lemma_absorbed(after.open, batch, replies);
    lemma_uncertain(state.ips, state.ports, state.open);
    assert forall|e: Endpoint| then.open.contains(e) implies listening.contains(e) by {
        if !state.open.contains(e) {
            let wanted = ProbeResult { endpoint: e, outcome: Outcome::Open };
            let i = choose|i: int| 0 <= i < replies.len() && replies[i] == wanted;
            assert(batch[i] == e);
        }
    }
    assert forall|e: Endpoint|
        listening.contains(e) && then.ips.contains(e.ip) && then.ports.contains(
            e.port,
        ) implies then.open.contains(e) || then.attempt < then.tries || then.plan.skip(
        then.issued as int,
    ).contains(e) by {
        let from: int = if after.attempt == state.attempt {
            state.issued as int
        } else {
            0
        };
        if !state.open.contains(e) && !(then.attempt < then.tries) {
            assert(after.plan.skip(from).contains(e)) by {
                if after.attempt != state.attempt {
                    assert(after.plan.contains(e));
                    assert(after.plan.skip(0) =~= after.plan);
                }
            }
            let rest = after.plan.skip(from);
            let k = choose|k: int| 0 <= k < rest.len() && rest[k] == e;
            if k < batch.len() {
                assert(batch[k] == e);
                assert(replies[k] == ProbeResult { endpoint: e, outcome: Outcome::Open });
                assert(reported_open(replies, e));
            } else {
                assert(then.plan.skip(then.issued as int)[k - batch.len()] == e);
            }
        }
    }
}

/// On a network where exactly `listening` accepts connections and all else
/// refuses at once, a scan with a try to go ends with exactly the listening
/// endpoints among its hosts and ports in the open set. One try is enough.
pub proof fn lemma_scan_finds_listeners(state: ScanState, listening: Set<Endpoint>)
    requires
        state.wf(),
        on_course(state, listening),
    ensures
        forall|e: Endpoint| #[trigger]
            scan_against(state, listening).open.contains(e) <==> listening.contains(e)
                && state.ips.contains(e.ip) && state.ports.contains(e.port),
        scan_against(state, listening).wf(),
    decreases state.tries - state.attempt, state.plan.len() - state.issued,
{
    lemma_next_wf(state);
    match state.next().1 {
        None => {
            lemma_uncertain(state.ips, state.ports, state.open);
            assert(state.plan.skip(state.issued as int) =~= Seq::empty());
            assert forall|e: Endpoint|
                listening.contains(e) && state.ips.contains(e.ip) && state.ports.contains(
                    e.port,
                ) implies state.open.contains(e) by {
                if !state.open.contains(e) && state.attempt < state.tries {
                    assert(uncertain(state.ips, state.ports, state.open).contains(e));
                }
            }
        },
        Some(batch) => {
            lemma_step_on_course(state, listening);
            lemma_scan_finds_listeners(state.next().0.absorb(answers(batch, listening)), listening);
        },
    }
}

/// A fresh scan of hosts and ports that cover `listening` ends, after as
/// little as one try, with the open set equal to `listening`.
pub proof fn lemma_fresh_scan_finds_all(state: ScanState, listening: Set<Endpoint>)
    requires
        state.wf(),
        state.attempt == 0,
        state.open.len() == 0,
        forall|e: Endpoint|
            listening.contains(e) ==> state.ips.contains(e.ip) && state.ports.contains(e.port),
    ensures
        scan_against(state, listening).open.to_set() == listening,
        scan_against(state, listening).open.no_duplicates(),
{
    lemma_scan_finds_listeners(state, listening);
    assert(scan_against(state, listening).open.to_set() =~= listening);
}

/// Every endpoint that such a scan probes, in the order of probing.
pub open spec fn probes_against(state: ScanState, listening: Set<Endpoint>) -> Seq<Endpoint>
    decreases state.tries - state.attempt, state.plan.len() - state.issued,
    when state.wf()
    via probes_against_decreases
{
    match state.next().1 {
        None => Seq::empty(),
        Some(batch) => batch + probes_against(
            state.next().0.absorb(answers(batch, listening)),
            listening,
        ),
    }
}

#[via_fn]
proof fn probes_against_decreases(state: ScanState, listening: Set<Endpoint>) {
    lemma_next_wf(state);
}

/// `s` repeated `n` times.
pub open spec fn repeated(s: Seq<Endpoint>, n: nat) -> Seq<Endpoint>
    decreases n,
{
    if n == 0 {
        Seq::empty()
    } else {
        s + repeated(s, (n - 1) as nat)
    }
}

/// In its last try a scan probes the rest of its plan and nothing more,
/// whatever the network answers.
pub proof fn lemma_last_try_probes_the_rest(state: ScanState, listening: Set<Endpoint>)
    requires
        state.wf(),
        state.attempt == state.tries,
    ensures
        probes_against(state, listening) == state.plan.skip(state.issued as int),
    decreases state.plan.len() - state.issued,
{
    lemma_next_wf(state);
    match state.next().1 {
        None => {
            assert(state.plan.skip(state.issued as int) =~= Seq::empty());
        },
        Some(batch) => {
            let then = state.next().0.absorb(answers(batch, listening));
            lemma_absorb_wf(state.next().0, answers(batch, listening));
            lemma_last_try_probes_the_rest(then, listening);
            crate::plan::lemma_chunk_and_rest(
                state.plan,
                state.issued as int,
                state.batch_size as int,
            );
        },
    }
}

/// A try that starts with nothing found open plans the whole pairing: its
/// plan is fixed by the hosts and ports alone, and it starts with a batch.
pub proof fn lemma_fresh_try_plans_the_pairing(state: ScanState)
    requires
        state.wf(),
        state.attempt < state.tries,
        state.issued == state.plan.len(),
        state.open.len() == 0,
    ensures
        state.next().1 is Some,
        state.next().0.plan == crate::plan::pairing(state.ips, state.ports),
        state.next().0.attempt == state.attempt + 1,
        state.next().1->Some_0 == chunk(state.next().0.plan, 0, state.batch_size as int),
        state.next().0.issued == state.next().1->Some_0.len(),
{
    assert(state.open =~= Seq::empty());
    crate::plan::lemma_uncertain_of_none(state.ips, state.ports);
    crate::plan::lemma_pairing_at(state.ips, state.ports, 0, 0);
}

/// The probes of a scan with one try are fixed by its hosts and ports alone:
/// the pairing, in its order, whatever the network answers.
pub proof fn lemma_single_try_probes_the_pairing(state: ScanState, listening: Set<Endpoint>)
    requires
        state.wf(),
        state.tries == 1,
        state.attempt == 0,
        state.issued == state.plan.len(),
        state.open.len() == 0,
    ensures
        probes_against(state, listening) == crate::plan::pairing(state.ips, state.ports),
{
    let all = crate::plan::pairing(state.ips, state.ports);
    lemma_fresh_try_plans_the_pairing(state);
    let after = state.next().0;
    let batch = state.next().1->Some_0;
    let then = after.absorb(answers(batch, listening));
    assert(then.wf()) by {
        lemma_next_wf(state);
        lemma_absorb_wf(after, answers(batch, listening));
    }
    assert(then.plan == all && then.issued == batch.len() && then.attempt == then.tries);
    lemma_last_try_probes_the_rest(then, listening);
    crate::plan::lemma_chunk_and_rest(all, 0, state.batch_size as int);
    assert(all.skip(0) =~= all);
    assert(probes_against(state, listening) == batch + probes_against(then, listening));
}

/// Where nothing in scope listens, a batch leaves the open set empty, and
/// the batch with what is left to probe afterwards makes up what was left
/// before, or the whole pairing where the batch opens a try.
proof fn lemma_silent_step(state: ScanState, listening: Set<Endpoint>)
    requires
        state.wf(),
        state.open.len() == 0,
        forall|e: Endpoint|
            state.ips.contains(e.ip) && state.ports.contains(e.port) ==> !listening.contains(e),
        state.next().1 is Some,
    ensures
        ({
            let batch = state.next().1->Some_0;
            let then = state.next().0.absorb(answers(batch, listening));
            let all = crate::plan::pairing(state.ips, state.ports);
            &&& then.wf()
            &&& then.open.len() == 0
            &&& then.ips == state.ips
            &&& then.ports == state.ports
            &&& then.tries == state.tries
            &&& then.attempt <= then.tries
            &&& if state.issued < state.plan.len() {
                &&& then.attempt == state.attempt
                &&& batch + then.plan.skip(then.issued as int) == state.plan.skip(
                    state.issued as int,
                )
            } else {
                &&& then.attempt == state.attempt + 1
                &&& batch + then.plan.skip(then.issued as int) == all
            }
        }),
{
    let after = state.next().0;
    let batch = state.next().1->Some_0;
    let replies = answers(batch, listening);
    let then = after.absorb(replies);
    lemma_next_wf(state);
    lemma_absorb_wf(after, replies);
    assert(after.batch_in_flight() =~= batch);
    lemma_absorbed(after.open, batch, replies);
    if then.open.len() > 0 {
        let e = then.open[0];
        assert(then.open.contains(e));
        assert(!state.open.contains(e));
        let wanted = ProbeResult { endpoint: e, outcome: Outcome::Open };
        let i = choose|i: int| 0 <= i < replies.len() && replies[i] == wanted;
        assert(batch[i] == e);
        assert(after.plan.contains(e));
    }
    if state.issued < state.plan.len() {
        crate::plan::lemma_chunk_and_rest(state.plan, state.issued as int, state.batch_size as int);
    } else {
        lemma_fresh_try_plans_the_pairing(state);
        crate::plan::lemma_chunk_and_rest(then.plan, 0, state.batch_size as int);
        assert(then.plan.skip(0) =~= then.plan);
    }
}

/// Where a scan hands out nothing more, nothing is left of its plan nor of
/// its tries, provided that nothing was found open.
proof fn lemma_silent_end(state: ScanState)
    requires
        state.wf(),
        state.open.len() == 0,
        state.next().1 is None,
    ensures
        state.issued == state.plan.len(),
        state.attempt == state.tries,
        state.next().0.open == state.open,
{
    if state.attempt < state.tries && state.issued == state.plan.len() {
        lemma_fresh_try_plans_the_pairing(state);
    }
}

/// `a + (b + c)` where `a + b` is known.
proof fn lemma_regroup(
    a: Seq<Endpoint>,
    b: Seq<Endpoint>,
    c: Seq<Endpoint>,
    ab: Seq<Endpoint>,
)
    requires
        a + b == ab,
    ensures
        a + (b + c) == ab + c,
{
    assert(a + (b + c) =~= (a + b) + c);
}

/// Where nothing in scope listens, every try probes the whole pairing: each
/// endpoint is probed once in each try.
pub proof fn lemma_silent_network_probes_every_try(state: ScanState, listening: Set<Endpoint>)
    requires
        state.wf(),
        state.open.len() == 0,
        forall|e: Endpoint|
            state.ips.contains(e.ip) && state.ports.contains(e.port) ==> !listening.contains(e),
    ensures
        probes_against(state, listening) == state.plan.skip(state.issued as int) + repeated(
            crate::plan::pairing(state.ips, state.ports),
            (state.tries - state.attempt) as nat,
        ),
    decreases state.tries - state.attempt, state.plan.len() - state.issued,
{
    let all = crate::plan::pairing(state.ips, state.ports);
    let left = state.plan.skip(state.issued as int);
    let later = repeated(all, (state.tries - state.attempt) as nat);
    if state.next().1 is None {
        lemma_silent_end(state);
        assert(probes_against(state, listening) == Seq::<Endpoint>::empty());
        assert(left + later =~= Seq::<Endpoint>::empty());
    } else {
        let batch = state.next().1->Some_0;
        let then = state.next().0.absorb(answers(batch, listening));
        lemma_silent_step(state, listening);
        lemma_silent_network_probes_every_try(then, listening);
        let then_left = then.plan.skip(then.issued as int);
        let then_later = repeated(all, (then.tries - then.attempt) as nat);
        assert(probes_against(state, listening) == batch + probes_against(then, listening));
        assert(probes_against(then, listening) == then_left + then_later);
        if state.issued < state.plan.len() {
            lemma_regroup(batch, then_left, then_later, left);
        } else {
            lemma_regroup(batch, then_left, then_later, all);
            assert(later == all + then_later);
            assert(left =~= Seq::<Endpoint>::empty());
            assert(left + later =~= all + then_later);
        }
    }
}

/// Where nothing in scope listens, a scan ends with nothing found open.
pub proof fn lemma_silent_network_finds_nothing(state: ScanState, listening: Set<Endpoint>)
    requires
        state.wf(),
        state.open.len() == 0,
        forall|e: Endpoint|
            state.ips.contains(e.ip) && state.ports.contains(e.port) ==> !listening.contains(e),
    ensures
        scan_against(state, listening).open.len() == 0,
    decreases state.tries - state.attempt, state.plan.len() - state.issued,
{
    if state.next().1 is None {
        lemma_silent_end(state);
    } else {
        let batch = state.next().1->Some_0;
        let then = state.next().0.absorb(answers(batch, listening));
        lemma_silent_step(state, listening);
        lemma_silent_network_finds_nothing(then, listening);
        assert(scan_against(state, listening) == scan_against(then, listening));
    }
}

/// Hosts and ports that are given without repeats, and with nothing
/// excluded among the ports, are scanned as they are given.
pub proof fn lemma_initial_keeps_distinct(
    ips: Seq<IpAddress>,
    batch_size: u16,
    timeout: u32,
    tries: u8,
    greppable: bool,
    visited: Seq<u16>,
    accessible: bool,
    excluded: Seq<u16>,
)
    requires
        ips.no_duplicates(),
        visited.no_duplicates(),
        forall|i: int| 0 <= i < visited.len() ==> !excluded.contains(#[trigger] visited[i]),
    ensures
        initial(ips, batch_size, timeout, tries, greppable, visited, accessible, excluded)
            matches Ok(state) ==> state.ips == ips && state.ports == visited,
{
    crate::ports::lemma_distinct_fixed(ips);
    crate::plan::lemma_filter_all(visited, crate::ports::allowed(excluded));
    crate::ports::lemma_distinct_fixed(visited);
}

} // verus!
