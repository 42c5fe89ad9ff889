//! Port lists: exclusion and removal of repeats.

use vstd::prelude::*;

verus! {

/// The first occurrence of each item of `s`, in the order of `s`.
pub open spec fn distinct<T>(s: Seq<T>) -> Seq<T>
    decreases s.len(),
{
    if s.len() == 0 {
        Seq::empty()
    } else {
        let head = distinct(s.drop_last());
        if head.contains(s.last()) {
            head
        } else {
            head.push(s.last())
        }
    }
}

/// `distinct(s)` holds exactly the items of `s`, each once.
pub proof fn lemma_distinct<T>(s: Seq<T>)
    ensures
        distinct(s).no_duplicates(),
        distinct(s).len() <= s.len(),
        forall|x: T| #[trigger] distinct(s).contains(x) <==> s.contains(x),
    decreases s.len(),
{
    if s.len() > 0 {
        let head = s.drop_last();
        lemma_distinct(head);
        assert forall|x: T| #[trigger] distinct(s).contains(x) <==> s.contains(x) by {
            if s.contains(x) {
                let i = choose|i: int| 0 <= i < s.len() && s[i] == x;
                if i < s.len() - 1 {
                    assert(head[i] == x);
                    assert(head.contains(x));
                    assert(distinct(head).contains(x));
                    if !distinct(head).contains(s.last()) {
                        let j = choose|j: int|
                            0 <= j < distinct(head).len() && distinct(head)[j] == x;
                        assert(distinct(s)[j] == x);
                    }
                } else if !distinct(head).contains(s.last()) {
                    assert(distinct(s)[distinct(head).len() as int] == x);
                }
            }
            if distinct(s).contains(x) {
                let j = choose|j: int| 0 <= j < distinct(s).len() && distinct(s)[j] == x;
                if j < distinct(head).len() {
                    assert(distinct(head)[j] == x);
                    assert(distinct(head).contains(x));
                    let i = choose|i: int| 0 <= i < head.len() && head[i] == x;
                    assert(s[i] == x);
                } else {
                    assert(s[s.len() - 1] == x);
                }
            }
        }
    }
}

/// A sequence without repeats is its own `distinct`.
pub proof fn lemma_distinct_fixed<T>(s: Seq<T>)
    requires
        s.no_duplicates(),
    ensures
        distinct(s) == s,
    decreases s.len(),
{
    if s.len() > 0 {
        let head = s.drop_last();
        lemma_distinct_fixed(head);
        if head.contains(s.last()) {
            let i = choose|i: int| 0 <= i < head.len() && head[i] == s.last();
            assert(s[i] == s[s.len() - 1]);
        }
        assert(head.push(s.last()) =~= s);
    } else {
        assert(s =~= Seq::empty());
    }
}

/// The test that keeps a port unless `excluded` lists it.
pub open spec fn allowed(excluded: Seq<u16>) -> spec_fn(u16) -> bool {
    |port: u16| !excluded.contains(port)
}

/// The ports of `ports` that `excluded` does not list, in their order.
pub open spec fn without_excluded(ports: Seq<u16>, excluded: Seq<u16>) -> Seq<u16> {
    ports.filter(allowed(excluded))
}

/// No excluded port survives, every other port does, and order is kept.
pub proof fn lemma_without_excluded(ports: Seq<u16>, excluded: Seq<u16>)
    ensures
        forall|port: u16| #[trigger]
            without_excluded(ports, excluded).contains(port) <==> ports.contains(port)
                && !excluded.contains(port),
        without_excluded(ports, excluded).len() <= ports.len(),
{
    let kept = without_excluded(ports, excluded);
    broadcast use vstd::seq_lib::group_filter_ensures;
    assert forall|port: u16| #[trigger]
        kept.contains(port) <==> ports.contains(port) && !excluded.contains(port) by {
        if kept.contains(port) {
            ports.lemma_filter_contains_rev(allowed(excluded), port);
            let i = choose|i: int| 0 <= i < kept.len() && kept[i] == port;
            ports.lemma_filter_pred(allowed(excluded), i);
        }
        if ports.contains(port) && !excluded.contains(port) {
            let i = choose|i: int| 0 <= i < ports.len() && ports[i] == port;
            ports.lemma_filter_contains(allowed(excluded), i);
        }
    }
}

/// A set of ports held as one flag per port number.
struct PortFlags {
    flags: Vec<bool>,
}

impl PortFlags {
    spec fn wf(&self) -> bool {
        self.flags@.len() == 0x1_0000
    }

    spec fn has(&self, port: u16) -> bool {
        self.flags@[port as int]
    }

    fn new() -> (set: PortFlags)
        ensures
            set.wf(),
            forall|port: u16| !set.has(port),
    {
        let mut flags: Vec<bool> = Vec::new();
        let mut n: u32 = 0;
        while n < 0x1_0000
            invariant
                n <= 0x1_0000,
                flags@.len() == n,
                forall|k: int| 0 <= k < n ==> !flags@[k],
            decreases 0x1_0000 - n,
        {
            flags.push(false);
            n += 1;
        }
        PortFlags { flags }
    }

    fn insert(&mut self, port: u16)
        requires
            old(self).wf(),
        ensures
            final(self).wf(),
            forall|other: u16| final(self).has(other) == (other == port || old(self).has(other)),
    {
        self.flags[port as usize] = true;
    }

    fn contains(&self, port: u16) -> (found: bool)
        requires
            self.wf(),
        ensures
            found == self.has(port),
    {
        self.flags[port as usize]
    }
}

/// Drops from `ports` every port that `excluded` lists; the rest keep their order.
pub fn remove_excluded(ports: &Vec<u16>, excluded: &Vec<u16>) -> (kept: Vec<u16>)
    ensures
        kept@ == without_excluded(ports@, excluded@),
{
    let mut barred = PortFlags::new();
    let mut k: usize = 0;
    while k < excluded.len()
        invariant
            k <= excluded.len(),
            barred.wf(),
            forall|port: u16| barred.has(port) == excluded@.take(k as int).contains(port),
        decreases excluded.len() - k,
    {
        let ghost before = excluded@.take(k as int);
        barred.insert(excluded[k]);
        k += 1;
        proof {
            assert(excluded@.take(k as int) =~= before.push(excluded@[k - 1]));
            assert forall|port: u16|
                barred.has(port) == excluded@.take(k as int).contains(port) by {
                lemma_push_contains(before, excluded@[k - 1], port);
            }
        }
    }
    assert(excluded@.take(k as int) =~= excluded@);
    let mut kept: Vec<u16> = Vec::new();
    let mut i: usize = 0;
    assert(ports@.take(0) =~= Seq::<u16>::empty());
    assert(Seq::<u16>::empty().filter(allowed(excluded@)) =~= Seq::<u16>::empty()) by {
        reveal(Seq::filter);
    }
    while i < ports.len()
        invariant
            i <= ports.len(),
            barred.wf(),
            forall|port: u16| barred.has(port) == excluded@.contains(port),
            kept@ == without_excluded(ports@.take(i as int), excluded@),
        decreases ports.len() - i,
    {
        let port = ports[i];
        proof {
            assert(ports@.take(i + 1) =~= ports@.take(i as int).push(port));
            ports@.take(i as int).lemma_filter_push(port, allowed(excluded@));
        }
        if !barred.contains(port) {
            kept.push(port);
        }
        i += 1;
    }
    assert(ports@.take(i as int) =~= ports@);
    kept
}

/// Membership after a push.
pub proof fn lemma_push_contains<T>(s: Seq<T>, last: T, x: T)
    ensures
        s.push(last).contains(x) <==> (x == last || s.contains(x)),
{
    if s.contains(x) {
        let i = choose|i: int| 0 <= i < s.len() && s[i] == x;
        assert(s.push(last)[i] == x);
    }
    if x == last {
        assert(s.push(last)[s.len() as int] == x);
    }
}

/// Keeps the first occurrence of each port, in order.
pub fn dedup_ports(ports: &Vec<u16>) -> (kept: Vec<u16>)
    ensures
        kept@ == distinct(ports@),
{
    let mut seen = PortFlags::new();
    let mut kept: Vec<u16> = Vec::new();
    let mut i: usize = 0;
    assert(ports@.take(0) =~= Seq::<u16>::empty());
    while i < ports.len()
        invariant
            i <= ports.len(),
            seen.wf(),
            forall|port: u16| seen.has(port) == kept@.contains(port),
            kept@ == distinct(ports@.take(i as int)),
        decreases ports.len() - i,
    {
        let port = ports[i];
        let ghost before = kept@;
        proof {
            assert(ports@.take(i + 1).drop_last() =~= ports@.take(i as int));
            assert(ports@.take(i + 1).last() == port);
        }
        if !seen.contains(port) {
            kept.push(port);
            seen.insert(port);
            proof {
                assert forall|other: u16| seen.has(other) == kept@.contains(other) by {
                    lemma_push_contains(before, port, other);
                }
            }
        }
        i += 1;
    }
    assert(ports@.take(i as int) =~= ports@);
    kept
}

} // verus!
