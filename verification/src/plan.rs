//! The scan plan: which endpoints one try probes, and in what order.

use vstd::prelude::*;
use vstd::arithmetic::div_mod::{lemma_fundamental_div_mod, lemma_fundamental_div_mod_converse};
use crate::endpoint::{contains_endpoint, Endpoint, IpAddress};

verus! {

/// Every host paired with every port, port by port: all hosts at the first
/// port, then all hosts at the second, and so on.
pub open spec fn pairing(ips: Seq<IpAddress>, ports: Seq<u16>) -> Seq<Endpoint> {
    Seq::new(
        (ips.len() * ports.len()) as nat,
        |k: int| Endpoint { ip: ips[k % (ips.len() as int)], port: ports[k / (ips.len() as int)] },
    )
}

/// Every host at one port, in the order of the hosts.
pub open spec fn row(ips: Seq<IpAddress>, port: u16) -> Seq<Endpoint> {
    Seq::new(ips.len(), |i: int| Endpoint { ip: ips[i], port })
}

/// The test that keeps an endpoint unless `open` holds it.
pub open spec fn not_in(open: Seq<Endpoint>) -> spec_fn(Endpoint) -> bool {
    |endpoint: Endpoint| !open.contains(endpoint)
}

/// The plan of one try: the pairing without the endpoints already found open.
pub open spec fn uncertain(ips: Seq<IpAddress>, ports: Seq<u16>, open: Seq<Endpoint>) -> Seq<
    Endpoint,
> {
    pairing(ips, ports).filter(not_in(open))
}

/// The batch of at most `size` endpoints that starts at `start` in `plan`.
pub open spec fn chunk(plan: Seq<Endpoint>, start: int, size: int) -> Seq<Endpoint> {
    plan.subrange(
        start,
        if start + size <= plan.len() {
            start + size
        } else {
            plan.len() as int
        },
    )
}

/// A batch and what follows it make up what the batch was taken from.
pub proof fn lemma_chunk_and_rest(plan: Seq<Endpoint>, start: int, size: int)
    requires
        0 <= start <= plan.len(),
        0 <= size,
    ensures
        chunk(plan, start, size).len() == if start + size <= plan.len() {
            size
        } else {
            plan.len() - start
        },
        chunk(plan, start, size) + plan.skip(start + chunk(plan, start, size).len()) == plan.skip(
            start,
        ),
{
    let batch = chunk(plan, start, size);
    assert(batch + plan.skip(start + batch.len()) =~= plan.skip(start));
}

/// Row `j`, column `i` of a table `n` wide sits at `j * n + i`.
proof fn lemma_position(n: int, i: int, j: int)
    requires
        0 <= i < n,
        0 <= j,
    ensures
        (j * n + i) / n == j,
        (j * n + i) % n == i,
        j * n + i >= 0,
{
    lemma_fundamental_div_mod_converse(j * n + i, n, j, i);
    assert(j * n >= 0) by (nonlinear_arith)
        requires
            j >= 0,
            n > 0,
    ;
}

/// Position `k` of a table `n` wide and `m` high has a row and a column.
proof fn lemma_coordinates(n: int, m: int, k: int)
    requires
        0 < n,
        0 <= k < n * m,
    ensures
        0 <= k / n < m,
        0 <= k % n < n,
        k == (k / n) * n + k % n,
{
    lemma_fundamental_div_mod(k, n);
    let q = k / n;
    let r = k % n;
    assert(0 <= r < n) by (nonlinear_arith)
        requires
            r == k % n,
            n > 0,
    ;
    assert(n * q == q * n) by (nonlinear_arith);
    assert(0 <= q < m) by (nonlinear_arith)
        requires
            k == q * n + r,
            0 <= r < n,
            0 <= k < n * m,
            n > 0,
    ;
}

/// The pairing rule: host `i` at port `j` is probed at position
/// `j * ips.len() + i`, so a port's hosts all come before the next port's.
pub proof fn lemma_pairing_at(ips: Seq<IpAddress>, ports: Seq<u16>, i: int, j: int)
    requires
        0 <= i < ips.len(),
        0 <= j < ports.len(),
    ensures
        0 <= j * ips.len() + i < pairing(ips, ports).len(),
        pairing(ips, ports)[j * ips.len() + i] == (Endpoint { ip: ips[i], port: ports[j] }),
{
    let n = ips.len() as int;
    let m = ports.len() as int;
    lemma_position(n, i, j);
    assert(j * n + i < n * m) by (nonlinear_arith)
        requires
            0 <= i < n,
            0 <= j < m,
    ;
}

/// The pairing has one endpoint for each host and port.
pub proof fn lemma_pairing_len(ips: Seq<IpAddress>, ports: Seq<u16>)
    ensures
        pairing(ips, ports).len() == ips.len() * ports.len(),
{
    assert(ips.len() * ports.len() >= 0) by (nonlinear_arith);
}

/// An endpoint is in the pairing exactly if its host and its port are given.
pub proof fn lemma_pairing_contains(ips: Seq<IpAddress>, ports: Seq<u16>)
    ensures
        forall|e: Endpoint| #[trigger]
            pairing(ips, ports).contains(e) <==> ips.contains(e.ip) && ports.contains(e.port),
{
    let all = pairing(ips, ports);
    let n = ips.len() as int;
    let m = ports.len() as int;
    assert forall|e: Endpoint| #[trigger]
        all.contains(e) <==> ips.contains(e.ip) && ports.contains(e.port) by {
        if all.contains(e) {
            let k = choose|k: int| 0 <= k < all.len() && all[k] == e;
            lemma_coordinates(n, m, k);
            assert(ips[k % n] == e.ip);
            assert(ports[k / n] == e.port);
        }
        if ips.contains(e.ip) && ports.contains(e.port) {
            let i = choose|i: int| 0 <= i < ips.len() && ips[i] == e.ip;
            let j = choose|j: int| 0 <= j < ports.len() && ports[j] == e.port;
            lemma_pairing_at(ips, ports, i, j);
            assert(all[j * n + i] == e);
        }
    }
}

/// Distinct hosts and distinct ports pair into distinct endpoints.
pub proof fn lemma_pairing_no_duplicates(ips: Seq<IpAddress>, ports: Seq<u16>)
    requires
        ips.no_duplicates(),
        ports.no_duplicates(),
    ensures
        pairing(ips, ports).no_duplicates(),
{
    let all = pairing(ips, ports);
    let n = ips.len() as int;
    let m = ports.len() as int;
    assert forall|a: int, b: int| 0 <= a < all.len() && 0 <= b < all.len() && a != b implies all[a]
        != all[b] by {
        lemma_coordinates(n, m, a);
        lemma_coordinates(n, m, b);
        if a / n == b / n {
            assert(a % n != b % n);
        }
    }
}

/// A further port appends its row to the pairing.
pub proof fn lemma_pairing_push(ips: Seq<IpAddress>, ports: Seq<u16>, port: u16)
    ensures
        pairing(ips, ports.push(port)) == pairing(ips, ports) + row(ips, port),
{
    let n = ips.len() as int;
    let m = ports.len() as int;
    let wide = pairing(ips, ports.push(port));
    let sum = pairing(ips, ports) + row(ips, port);
    assert(n * (m + 1) == n * m + n) by (nonlinear_arith);
    assert(n * m >= 0) by (nonlinear_arith)
        requires
            n >= 0,
            m >= 0,
    ;
    assert(wide.len() == sum.len());
    assert forall|k: int| 0 <= k < wide.len() implies wide[k] == sum[k] by {
        lemma_coordinates(n, m + 1, k);
        if k < n * m {
            lemma_coordinates(n, m, k);
        } else {
            lemma_position(n, k - n * m, m);
            assert(m * n == n * m) by (nonlinear_arith);
        }
    }
    assert(wide =~= sum);
}

/// Filtering keeps a sequence free of repeats.
pub proof fn lemma_filter_no_duplicates<T>(s: Seq<T>, keep: spec_fn(T) -> bool)
    requires
        s.no_duplicates(),
    ensures
        s.filter(keep).no_duplicates(),
    decreases s.len(),
{
    reveal(Seq::filter);
    if s.len() > 0 {
        let head = s.drop_last();
        lemma_filter_no_duplicates(head, keep);
        if head.filter(keep).contains(s.last()) {
            head.lemma_filter_contains_rev(keep, s.last());
            let i = choose|i: int| 0 <= i < head.len() && head[i] == s.last();
            assert(s[i] == s[s.len() - 1]);
        }
    }
}

/// The plan of a try holds exactly the paired endpoints not yet found open,
/// and none of them twice when hosts and ports are distinct.
pub proof fn lemma_uncertain(ips: Seq<IpAddress>, ports: Seq<u16>, open: Seq<Endpoint>)
    ensures
        forall|e: Endpoint| #[trigger]
            uncertain(ips, ports, open).contains(e) <==> ips.contains(e.ip) && ports.contains(
                e.port,
            ) && !open.contains(e),
        ips.no_duplicates() && ports.no_duplicates() ==> uncertain(
            ips,
            ports,
            open,
        ).no_duplicates(),
        uncertain(ips, ports, open).len() <= ips.len() * ports.len(),
{
    let all = pairing(ips, ports);
    let plan = uncertain(ips, ports, open);
    lemma_pairing_contains(ips, ports);
    lemma_pairing_len(ips, ports);
    broadcast use vstd::seq_lib::group_filter_ensures;
    assert forall|e: Endpoint| #[trigger]
        plan.contains(e) <==> ips.contains(e.ip) && ports.contains(e.port) && !open.contains(
            e,
        ) by {
        if plan.contains(e) {
            all.lemma_filter_contains_rev(not_in(open), e);
            let i = choose|i: int| 0 <= i < plan.len() && plan[i] == e;
            all.lemma_filter_pred(not_in(open), i);
        }
        if all.contains(e) && !open.contains(e) {
            let i = choose|i: int| 0 <= i < all.len() && all[i] == e;
            all.lemma_filter_contains(not_in(open), i);
        }
    }
    if ips.no_duplicates() && ports.no_duplicates() {
        lemma_pairing_no_duplicates(ips, ports);
        lemma_filter_no_duplicates(all, not_in(open));
    }
}

/// With nothing found open yet, the plan is the whole pairing.
pub proof fn lemma_uncertain_of_none(ips: Seq<IpAddress>, ports: Seq<u16>)
    ensures
        uncertain(ips, ports, Seq::empty()) == pairing(ips, ports),
{
    lemma_filter_all(pairing(ips, ports), not_in(Seq::empty()));
}

/// A filter that every item passes changes nothing.
pub proof fn lemma_filter_all<T>(s: Seq<T>, keep: spec_fn(T) -> bool)
    requires
        forall|i: int| 0 <= i < s.len() ==> keep(#[trigger] s[i]),
    ensures
        s.filter(keep) == s,
    decreases s.len(),
{
    reveal(Seq::filter);
    if s.len() > 0 {
        lemma_filter_all(s.drop_last(), keep);
        assert(s.drop_last().push(s.last()) =~= s);
    }
}

/// Builds the plan of one try: hosts cycle within each port, and endpoints
/// already found open are left out.
pub fn build_plan(ips: &Vec<IpAddress>, ports: &Vec<u16>, open: &Vec<Endpoint>) -> (plan: Vec<
    Endpoint,
>)
    ensures
        plan@ == uncertain(ips@, ports@, open@),
{
    let mut plan: Vec<Endpoint> = Vec::new();
    let mut j: usize = 0;
    proof {
        assert(ports@.take(0) =~= Seq::<u16>::empty());
        assert(pairing(ips@, Seq::<u16>::empty()) =~= Seq::<Endpoint>::empty());
        assert(Seq::<Endpoint>::empty().filter(not_in(open@)) =~= Seq::<Endpoint>::empty()) by {
            reveal(Seq::filter);
        }
    }
    while j < ports.len()
        invariant
            j <= ports.len(),
            plan@ == uncertain(ips@, ports@.take(j as int), open@),
        decreases ports.len() - j,
    {
        let port = ports[j];
        let ghost done = plan@;
        let mut i: usize = 0;
        proof {
            assert(row(ips@.take(0), port) =~= Seq::<Endpoint>::empty());
            assert(Seq::<Endpoint>::empty().filter(not_in(open@)) =~= Seq::<Endpoint>::empty())
                by {
                reveal(Seq::filter);
            }
            assert(done + Seq::<Endpoint>::empty() =~= done);
        }
        while i < ips.len()
            invariant
                i <= ips.len(),
                plan@ == done + row(ips@.take(i as int), port).filter(not_in(open@)),
            decreases ips.len() - i,
        {
            let endpoint = Endpoint { ip: ips[i], port };
            proof {
                let before = row(ips@.take(i as int), port);
                assert(row(ips@.take(i + 1), port) =~= before.push(endpoint));
                before.lemma_filter_push(endpoint, not_in(open@));
            }
            if !contains_endpoint(open, endpoint) {
                plan.push(endpoint);
                assert(plan@ =~= done + row(ips@.take(i as int), port).filter(not_in(open@)).push(
                    endpoint,
                ));
            }
            i += 1;
        }
        proof {
            assert(ips@.take(i as int) =~= ips@);
            assert(ports@.take(j + 1) =~= ports@.take(j as int).push(port));
            lemma_pairing_push(ips@, ports@.take(j as int), port);
            Seq::filter_distributes_over_add(
                pairing(ips@, ports@.take(j as int)),
                row(ips@, port),
                not_in(open@),
            );
        }
        j += 1;
    }
    assert(ports@.take(j as int) =~= ports@);
    plan
}

} // verus!
