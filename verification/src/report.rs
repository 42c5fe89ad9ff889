//! The result of a scan, host by host.

use vstd::prelude::*;
use crate::endpoint::{Endpoint, IpAddress};

verus! {

/// The open ports of one host, in ascending order.
#[derive(Debug)]
pub struct HostReport {
    pub ip: IpAddress,
    pub ports: Vec<u16>,
}

/// Whether each port of `ports` is below the one after it.
pub open spec fn ascending(ports: Seq<u16>) -> bool {
    forall|i: int, j: int| 0 <= i < j < ports.len() ==> ports[i] < ports[j]
}

/// Whether `ports` lists exactly the ports at which `open` holds `ip`.
pub open spec fn lists_open_ports(ports: Seq<u16>, open: Seq<Endpoint>, ip: IpAddress) -> bool {
    forall|port: u16| #[trigger] ports.contains(port) <==> open.contains(Endpoint { ip, port })
}

/// Whether `report` is the report of `ip` for the open set `open`.
pub open spec fn reports_host(report: HostReport, open: Seq<Endpoint>, ip: IpAddress) -> bool {
    &&& report.ip == ip
    &&& ascending(report.ports@)
    &&& lists_open_ports(report.ports@, open, ip)
}

/// Two ascending lists of the same ports are the same list.
pub proof fn lemma_ascending_unique(a: Seq<u16>, b: Seq<u16>)
    requires
        ascending(a),
        ascending(b),
        forall|port: u16| a.contains(port) <==> b.contains(port),
    ensures
        a == b,
    decreases a.len(),
{
    if a.len() == 0 {
        if b.len() > 0 {
            assert(b.contains(b[0]));
        }
        assert(a =~= b);
    } else if b.len() == 0 {
        assert(a.contains(a[0]));
    } else {
        let x = a.last();
        let y = b.last();
        assert(a.contains(x));
        assert(b.contains(y));
        let i = choose|i: int| 0 <= i < b.len() && b[i] == x;
        let j = choose|j: int| 0 <= j < a.len() && a[j] == y;
        assert(x == y);
        let a0 = a.drop_last();
        let b0 = b.drop_last();
        assert forall|port: u16| a0.contains(port) <==> b0.contains(port) by {
            if a0.contains(port) {
                let k = choose|k: int| 0 <= k < a0.len() && a0[k] == port;
                assert(a[k] == port);
                assert(a.contains(port));
                let m = choose|m: int| 0 <= m < b.len() && b[m] == port;
                assert(b0[m] == port);
            }
            if b0.contains(port) {
                let k = choose|k: int| 0 <= k < b0.len() && b0[k] == port;
                assert(b[k] == port);
                assert(b.contains(port));
                let m = choose|m: int| 0 <= m < a.len() && a[m] == port;
                assert(a0[m] == port);
            }
        }
        lemma_ascending_unique(a0, b0);
        assert(a =~= a0.push(x));
        assert(b =~= b0.push(y));
    }
}

/// Puts `port` into the ascending list `ports`, unless it is there already.
fn insert_ascending(ports: &mut Vec<u16>, port: u16)
    requires
        ascending(old(ports)@),
    ensures
        ascending(final(ports)@),
        forall|other: u16| #[trigger]
            final(ports)@.contains(other) <==> other == port || old(ports)@.contains(other),
{
    let mut at: usize = 0;
    while at < ports.len() && ports[at] < port
        invariant
            at <= ports@.len(),
            ports@ == old(ports)@,
            forall|k: int| 0 <= k < at ==> ports@[k] < port,
        decreases ports@.len() - at,
    {
        at += 1;
    }
    if at < ports.len() && ports[at] == port {
        assert(ports@.contains(port));
        return ;
    }
    let ghost before = ports@;
    ports.insert(at, port);
    proof {
        let after = ports@;
        assert forall|i: int, j: int| 0 <= i < j < after.len() implies after[i] < after[j] by {
            if i < at && j > at {
                assert(before[i] < port);
                assert(after[j] == before[j - 1]);
                assert(before[at as int] <= before[j - 1]);
            }
        }
        assert forall|other: u16| #[trigger]
            after.contains(other) <==> other == port || before.contains(other) by {
            if after.contains(other) {
                let k = choose|k: int| 0 <= k < after.len() && after[k] == other;
                if k < at {
                    assert(before[k] == other);
                } else if k > at {
                    assert(before[k - 1] == other);
                }
            }
            if before.contains(other) {
                let k = choose|k: int| 0 <= k < before.len() && before[k] == other;
                if k < at {
                    assert(after[k] == other);
                } else {
                    assert(after[k + 1] == other);
                }
            }
            if other == port {
                assert(after[at as int] == other);
            }
        }
    }
}

/// The ports at which `open` holds `ip`, in ascending order, each once.
pub fn ports_of(open: &Vec<Endpoint>, ip: IpAddress) -> (ports: Vec<u16>)
    ensures
        ascending(ports@),
        lists_open_ports(ports@, open@, ip),
{
    let mut ports: Vec<u16> = Vec::new();
    let mut i: usize = 0;
    assert(open@.take(0) =~= Seq::<Endpoint>::empty());
    while i < open.len()
        invariant
            i <= open.len(),
            ascending(ports@),
            lists_open_ports(ports@, open@.take(i as int), ip),
        decreases open.len() - i,
    {
        let endpoint = open[i];
        let ghost before = ports@;
        if endpoint.ip == ip {
            insert_ascending(&mut ports, endpoint.port);
        }
        i += 1;
        proof {
            let seen = open@.take(i - 1);
            assert(open@.take(i as int) =~= seen.push(endpoint));
            assert forall|port: u16| #[trigger]
                ports@.contains(port) <==> open@.take(i as int).contains(
                    Endpoint { ip, port },
                ) by {
                crate::ports::lemma_push_contains(seen, endpoint, Endpoint { ip, port });
                assert(before.contains(port) <==> seen.contains(Endpoint { ip, port }));
            }
        }
    }
    assert(open@.take(i as int) =~= open@);
    ports
}

/// Groups the open endpoints by host: one report for each host of `ips`, in
/// the order of `ips`, with the host's open ports ascending. A host without
/// an open port gets an empty report.
pub fn group_by_ip(ips: &Vec<IpAddress>, open: &Vec<Endpoint>) -> (reports: Vec<HostReport>)
    ensures
        reports@.len() == ips@.len(),
        forall|i: int| 0 <= i < ips@.len() ==> reports_host(#[trigger] reports@[i], open@, ips@[i]),
{
    let mut reports: Vec<HostReport> = Vec::new();
    let mut i: usize = 0;
    while i < ips.len()
        invariant
            i <= ips.len(),
            reports@.len() == i,
            forall|k: int| 0 <= k < i ==> reports_host(#[trigger] reports@[k], open@, ips@[k]),
        decreases ips.len() - i,
    {
        let ip = ips[i];
        let ports = ports_of(open, ip);
        reports.push(HostReport { ip, ports });
        i += 1;
    }
    reports
}

impl HostReport {
    /// Whether the scan found no open port on this host.
    pub fn is_silent(&self) -> (silent: bool)
        ensures
            silent <==> self.ports@.len() == 0,
    {
        self.ports.len() == 0
    }
}

/// Every open endpoint of a reported host shows in that host's report, and
/// a report shows nothing else.
pub proof fn lemma_reports_cover(
    reports: Seq<HostReport>,
    ips: Seq<IpAddress>,
    open: Seq<Endpoint>,
    e: Endpoint,
)
    requires
        reports.len() == ips.len(),
        forall|i: int| 0 <= i < ips.len() ==> reports_host(#[trigger] reports[i], open, ips[i]),
        ips.contains(e.ip),
    ensures
        open.contains(e) <==> exists|i: int|
            0 <= i < reports.len() && (#[trigger] reports[i]).ip == e.ip
                && reports[i].ports@.contains(e.port),
{
    let at = choose|i: int| 0 <= i < ips.len() && ips[i] == e.ip;
    assert(reports_host(reports[at], open, ips[at]));
    if open.contains(e) {
        assert(reports[at].ports@.contains(e.port));
    }
    if exists|i: int|
        0 <= i < reports.len() && (#[trigger] reports[i]).ip == e.ip && reports[i].ports@.contains(
            e.port,
        ) {
        let i = choose|i: int|
            0 <= i < reports.len() && (#[trigger] reports[i]).ip == e.ip
                && reports[i].ports@.contains(e.port);
        assert(reports_host(reports[i], open, ips[i]));
    }
}

} // verus!
