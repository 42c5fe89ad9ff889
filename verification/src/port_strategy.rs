//! The order in which the ports of a scan are visited.

use vstd::prelude::*;
use crate::error::ConfigError;
use crate::input::{PortRange, ScanOrder};

verus! {

/// Multiplier of the generator that drives the shuffle.
pub const SHUFFLE_MULTIPLIER: u64 = 6364136223846793005;

/// Increment of the generator that drives the shuffle.
pub const SHUFFLE_INCREMENT: u64 = 1442695040888963407;

/// Where the ports of a scan come from.
#[derive(Debug)]
pub enum PortSource {
    /// Every port of a closed range.
    Range(PortRange),
    /// The ports of a list, as given.
    List(Vec<u16>),
}

/// How the ports of a scan are ordered.
#[derive(Debug)]
pub enum PortStrategy {
    /// A range in increasing order, or a list in its given order.
    Serial(PortSource),
    /// The same ports, permuted as the seed decides.
    Random(PortSource, u64),
}

/// The ports `start..=end` in increasing order; none when `start > end`.
pub open spec fn range_ports(start: u16, end: u16) -> Seq<u16> {
    Seq::new(
        if start <= end {
            (end - start + 1) as nat
        } else {
            0
        },
        |i: int| (start + i) as u16,
    )
}

/// The generator's next state.
#[verifier::opaque]
pub open spec fn next_state(state: u64) -> u64 {
    state.wrapping_mul(SHUFFLE_MULTIPLIER).wrapping_add(SHUFFLE_INCREMENT)
}

/// The index below `bound` that a state selects.
#[verifier::opaque]
pub open spec fn pick_index(state: u64, bound: int) -> int {
    ((state >> 33) as int) % bound
}

/// `s` with the items at `i` and `j` exchanged.
pub open spec fn swapped(s: Seq<u16>, i: int, j: int) -> Seq<u16> {
    s.update(i, s[j]).update(j, s[i])
}

/// The shuffle of the first `i + 1` items of `s`, from position `i` down:
/// each position exchanges its item with one at or below it.
pub open spec fn shuffle_from(s: Seq<u16>, state: u64, i: int) -> Seq<u16>
    decreases i,
{
    if i <= 0 || i >= s.len() {
        s
    } else {
        let state = next_state(state);
        shuffle_from(swapped(s, i, pick_index(state, i + 1)), state, i - 1)
    }
}

/// One step of the shuffle, written out.
pub proof fn lemma_shuffle_step(s: Seq<u16>, state: u64, i: int)
    requires
        0 < i < s.len(),
    ensures
        shuffle_from(s, state, i) == shuffle_from(
            swapped(s, i, pick_index(next_state(state), i + 1)),
            next_state(state),
            i - 1,
        ),
{
}

/// The permutation of `s` that `seed` selects.
pub open spec fn shuffled(s: Seq<u16>, seed: u64) -> Seq<u16> {
    shuffle_from(s, seed, s.len() - 1)
}

/// A selected index lies below its bound.
pub proof fn lemma_pick_index_bound(state: u64, bound: int)
    requires
        bound > 0,
    ensures
        0 <= pick_index(state, bound) < bound,
{
    reveal(pick_index);
    let high = (state >> 33) as int;
    assert(0 <= high % bound < bound) by (nonlinear_arith)
        requires
            high >= 0,
            bound > 0,
    ;
}

/// Exchanging two items keeps the length and the items.
pub proof fn lemma_swapped_permutes(s: Seq<u16>, i: int, j: int)
    requires
        0 <= i < s.len(),
        0 <= j < s.len(),
    ensures
        swapped(s, i, j).len() == s.len(),
        swapped(s, i, j).to_multiset() == s.to_multiset(),
{
    broadcast use vstd::seq_lib::group_to_multiset_ensures;
    let first = s.update(i, s[j]);
    assert(first.to_multiset() =~= s.to_multiset().insert(s[j]).remove(s[i]));
    assert(swapped(s, i, j).to_multiset() =~= first.to_multiset().insert(s[i]).remove(first[j]));
    assert(first[j] == s[j]);
    assert(swapped(s, i, j).to_multiset() =~= s.to_multiset());
}

/// Every stage of the shuffle is a permutation of what it started from.
pub proof fn lemma_shuffle_from_permutes(s: Seq<u16>, state: u64, i: int)
    ensures
        shuffle_from(s, state, i).len() == s.len(),
        shuffle_from(s, state, i).to_multiset() == s.to_multiset(),
    decreases i,
{
    if !(i <= 0 || i >= s.len()) {
        let state = next_state(state);
        let j = pick_index(state, i + 1);
        lemma_pick_index_bound(state, i + 1);
        lemma_swapped_permutes(s, i, j);
        lemma_shuffle_from_permutes(swapped(s, i, j), state, i - 1);
    }
}

/// A shuffled list is a permutation of the list: the same ports, each as often.
pub proof fn lemma_shuffled_permutes(s: Seq<u16>, seed: u64)
    ensures
        shuffled(s, seed).len() == s.len(),
        shuffled(s, seed).to_multiset() == s.to_multiset(),
        forall|port: u16| #[trigger] shuffled(s, seed).contains(port) <==> s.contains(port),
        s.no_duplicates() ==> shuffled(s, seed).no_duplicates(),
{
    broadcast use vstd::seq_lib::group_to_multiset_ensures;
    lemma_shuffle_from_permutes(s, seed, s.len() - 1);
    let t = shuffled(s, seed);
    assert forall|port: u16| #[trigger] t.contains(port) <==> s.contains(port) by {
        assert(t.to_multiset().count(port) == s.to_multiset().count(port));
    }
    if s.no_duplicates() {
        s.lemma_multiset_has_no_duplicates();
        t.lemma_multiset_has_no_duplicates_conv();
    }
}

/// Advances the generator by one step.
fn advance(state: u64) -> (next: u64)
    ensures
        next == next_state(state),
{
    proof {
        reveal(next_state);
    }
    state.wrapping_mul(SHUFFLE_MULTIPLIER).wrapping_add(SHUFFLE_INCREMENT)
}

/// The index at or below `top` that `state` selects.
fn index_up_to(state: u64, top: usize) -> (index: usize)
    requires
        top < usize::MAX,
    ensures
        index == pick_index(state, top + 1),
        index <= top,
{
    proof {
        reveal(pick_index);
    }
    let bound: u64 = top as u64 + 1;
    let high: u64 = state >> 33;
    let index: u64 = high % bound;
    index as usize
}

/// Exchanges the ports at `i` and `j`.
fn exchange(ports: &mut Vec<u16>, i: usize, j: usize)
    requires
        i < old(ports)@.len(),
        j < old(ports)@.len(),
    ensures
        final(ports)@ == swapped(old(ports)@, i as int, j as int),
{
    let upper: u16 = ports[i];
    let lower: u16 = ports[j];
    ports[i] = lower;
    ports[j] = upper;
    assert(ports@ =~= swapped(old(ports)@, i as int, j as int));
}

/// Permutes `ports` as `seed` decides.
pub fn shuffle(ports: &mut Vec<u16>, seed: u64)
    ensures
        final(ports)@ == shuffled(old(ports)@, seed),
        final(ports)@.to_multiset() == old(ports)@.to_multiset(),
{
    proof {
        lemma_shuffled_permutes(ports@, seed);
    }
    let ghost target = shuffled(ports@, seed);
    if ports.len() < 2 {
        return ;
    }
    let mut state: u64 = seed;
    let mut i: usize = ports.len() - 1;
    while i > 0
        invariant
            i < ports@.len() <= usize::MAX,
            shuffle_from(ports@, state, i as int) == target,
        decreases i,
    {
        let ghost before = ports@;
        let ghost state_before = state;
        state = advance(state);
        let j: usize = index_up_to(state, i);
        exchange(ports, i, j);
        proof {
            lemma_shuffle_step(before, state_before, i as int);
        }
        i -= 1;
    }
}

/// The ports `start..=end` in increasing order.
pub fn ports_in_range(start: u16, end: u16) -> (ports: Vec<u16>)
    ensures
        ports@ == range_ports(start, end),
{
    let mut ports: Vec<u16> = Vec::new();
    if start > end {
        assert(ports@ =~= range_ports(start, end));
        return ports;
    }
    let mut next: u32 = start as u32;
    while next <= end as u32
        invariant
            start <= next <= end + 1,
            ports@.len() == next - start,
            forall|k: int| 0 <= k < ports@.len() ==> ports@[k] == start + k,
        decreases end + 1 - next,
    {
        ports.push(next as u16);
        next += 1;
    }
    assert(ports@ =~= range_ports(start, end));
    ports
}

/// A copy of a port list.
pub fn copy_ports(ports: &Vec<u16>) -> (copy: Vec<u16>)
    ensures
        copy@ == ports@,
{
    let mut copy: Vec<u16> = Vec::new();
    let mut i: usize = 0;
    while i < ports.len()
        invariant
            i <= ports.len(),
            copy@ == ports@.take(i as int),
        decreases ports.len() - i,
    {
        copy.push(ports[i]);
        i += 1;
        assert(copy@ =~= ports@.take(i as int));
    }
    assert(ports@.take(i as int) =~= ports@);
    copy
}

impl PortSource {
    /// The ports of the source in their serial order.
    pub open spec fn serial(&self) -> Seq<u16> {
        match self {
            PortSource::Range(range) => range_ports(range.start, range.end),
            PortSource::List(list) => list@,
        }
    }

    /// The ports of the source in their serial order.
    pub fn serial_ports(&self) -> (ports: Vec<u16>)
        ensures
            ports@ == self.serial(),
    {
        match self {
            PortSource::Range(range) => ports_in_range(range.start, range.end),
            PortSource::List(list) => copy_ports(list),
        }
    }
}

/// A serial sequence of ports as the order has it visited.
pub open spec fn in_order(serial: Seq<u16>, order: ScanOrder, seed: u64) -> Seq<u16> {
    match order {
        ScanOrder::Serial => serial,
        ScanOrder::Random => shuffled(serial, seed),
    }
}

/// The ports as a list gives them, if there is one.
pub open spec fn listed(ports: Option<Vec<u16>>) -> Option<Seq<u16>> {
    match ports {
        Some(list) => Some(list@),
        None => None,
    }
}

/// The visiting sequence for a range, a list and an order, or why there is
/// none. A list outranks a range; a range must not start above its end; one
/// of the two must be given.
pub open spec fn picked(
    range: Option<PortRange>,
    ports: Option<Seq<u16>>,
    order: ScanOrder,
    seed: u64,
) -> Result<Seq<u16>, ConfigError> {
    match ports {
        Some(list) => Ok(in_order(list, order, seed)),
        None => match range {
            Some(r) => if r.start > r.end {
                Err(ConfigError::MalformedRange)
            } else {
                Ok(in_order(range_ports(r.start, r.end), order, seed))
            },
            None => Err(ConfigError::EmptyPortSet),
        },
    }
}

impl PortStrategy {
    /// The source of the ports.
    pub open spec fn source(&self) -> PortSource {
        match self {
            PortStrategy::Serial(source) => *source,
            PortStrategy::Random(source, _) => *source,
        }
    }

    /// The seed of the permutation; `None` for the serial order.
    pub open spec fn seed(&self) -> Option<u64> {
        match self {
            PortStrategy::Serial(_) => None,
            PortStrategy::Random(_, seed) => Some(*seed),
        }
    }

    /// Whether the strategy names a range whose start lies above its end.
    pub open spec fn malformed(&self) -> bool {
        self.source() matches PortSource::Range(range) && range.start > range.end
    }

    /// Whether the strategy names a range whose start lies above its end.
    pub fn is_malformed(&self) -> (bad: bool)
        ensures
            bad == self.malformed(),
    {
        let source = match self {
            PortStrategy::Serial(source) => source,
            PortStrategy::Random(source, _) => source,
        };
        match source {
            PortSource::Range(range) => range.start > range.end,
            PortSource::List(_) => false,
        }
    }

    /// The sequence in which the strategy visits its ports.
    pub open spec fn ordered(&self) -> Seq<u16> {
        match self {
            PortStrategy::Serial(source) => source.serial(),
            PortStrategy::Random(source, seed) => shuffled(source.serial(), *seed),
        }
    }

    /// Chooses the strategy for the given options. A list of ports outranks a
    /// range; `seed` is used by the random order only.
    pub fn pick(
        range: &Option<PortRange>,
        ports: Option<Vec<u16>>,
        order: ScanOrder,
        seed: u64,
    ) -> (strategy: Result<PortStrategy, ConfigError>)
        ensures
            match picked(*range, listed(ports), order, seed) {
                Ok(visited) => strategy is Ok && strategy->Ok_0.ordered() == visited
                    && !strategy->Ok_0.malformed() && strategy->Ok_0.seed() == (match order {
                    ScanOrder::Serial => None,
                    ScanOrder::Random => Some(seed),
                }),
                Err(error) => strategy is Err && strategy->Err_0 == error,
            },
    {
        let source = match ports {
            Some(list) => PortSource::List(list),
            None => match range {
                Some(r) => {
                    if r.start > r.end {
                        return Err(ConfigError::MalformedRange);
                    }
                    PortSource::Range(*r)
                },
                None => {
                    return Err(ConfigError::EmptyPortSet);
                },
            },
        };
        match order {
            ScanOrder::Serial => Ok(PortStrategy::Serial(source)),
            ScanOrder::Random => Ok(PortStrategy::Random(source, seed)),
        }
    }

    /// The ports in the order in which the scan visits them.
    pub fn order(&self) -> (ports: Vec<u16>)
        ensures
            ports@ == self.ordered(),
    {
        match self {
            PortStrategy::Serial(source) => source.serial_ports(),
            PortStrategy::Random(source, seed) => {
                let mut ports = source.serial_ports();
                shuffle(&mut ports, *seed);
                ports
            },
        }
    }
}

/// The ports a strategy visits are those of its source, each as often.
pub proof fn lemma_ordered_permutes(strategy: PortStrategy)
    ensures
        strategy.ordered().to_multiset() == strategy.source().serial().to_multiset(),
        forall|port: u16| #[trigger]
            strategy.ordered().contains(port) <==> strategy.source().serial().contains(port),
{
    match strategy {
        PortStrategy::Serial(source) => {},
        PortStrategy::Random(source, seed) => {
            lemma_shuffled_permutes(source.serial(), seed);
        },
    }
}

} // verus!
