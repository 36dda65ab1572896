//! Host resolution: the literal-IP fast path and the candidate address set.
//!
//! Resolving a host name is blocking system I/O, so the resolution call itself
//! is performed by the driver (off the orchestration context, on a worker
//! pool); a [`Work`] value names one such pending resolution.  A host that is
//! already literal IPv4 or IPv6 text never needs that: [`IpAddrs::try_parse`]
//! recognises it synchronously and yields a single-candidate set.

use vstd::prelude::*;

use crate::addr::{eligible, IpAddress, SocketAddress};
use crate::parse::{
    chars_of, ipv4_of, ipv6_of, is_ipv4_text, is_ipv6_text, parse_ipv4_chars, parse_ipv6_chars,
};

verus! {

/// A host is a literal IP address in text form.
pub open spec fn is_ip_literal(s: Seq<char>) -> bool {
    is_ipv4_text(s) || is_ipv6_text(s)
}

/// The address a literal host denotes; IPv4 text is recognised first, as the
/// two grammars are disjoint.
pub open spec fn literal_addr(s: Seq<char>) -> IpAddress {
    if is_ipv4_text(s) {
        ipv4_of(s)
    } else {
        ipv6_of(s)
    }
}

/// One pending blocking resolution: the host and port it is for.  The driver
/// runs the actual system lookup on its worker pool and feeds the outcome
/// back into the connect operation.
pub struct Work {
    pub host: String,
    pub port: u16,
}

impl Work {
    /// Package a host and port for resolution.
    pub fn new(host: String, port: u16) -> (w: Work)
        ensures
            w.host@ == host@,
            w.port == port,
    {
        Work { host: host, port: port }
    }
}

/// The first index at or after `from` whose candidate is eligible under the
/// configured local bind address, or the candidate count if none is.
pub open spec fn first_eligible(
    a: Seq<SocketAddress>,
    from: int,
    local: Option<IpAddress>,
) -> int
    decreases a.len() - from,
{
    if from < 0 || from >= a.len() {
        a.len() as int
    } else if eligible(a[from], local) {
        from
    } else {
        first_eligible(a, from + 1, local)
    }
}

/// What [`first_eligible`] finds: an index in bounds is eligible, and every
/// index skipped on the way to it is not.
pub proof fn lemma_first_eligible(a: Seq<SocketAddress>, from: int, local: Option<IpAddress>)
    requires
        0 <= from <= a.len(),
    ensures
        from <= first_eligible(a, from, local) <= a.len(),
        first_eligible(a, from, local) < a.len() ==> eligible(
            a[first_eligible(a, from, local)],
            local,
        ),
        forall|j: int| from <= j < first_eligible(a, from, local) ==> !eligible(a[j], local),
    decreases a.len() - from,
{
    if from < a.len() && !eligible(a[from], local) {
        lemma_first_eligible(a, from + 1, local);
    }
}

proof fn lemma_first_eligible_at(a: Seq<SocketAddress>, from: int, e: int, local: Option<IpAddress>)
    requires
        0 <= from <= e <= a.len(),
        forall|j: int| from <= j < e ==> !eligible(a[j], local),
        e < a.len() ==> eligible(a[e], local),
    ensures
        first_eligible(a, from, local) == e,
    decreases e - from,
{
    if from < e {
        lemma_first_eligible_at(a, from + 1, e, local);
    }
}

/// An ordered, finite candidate address set, consumed front to back.
///
/// `pos` marks how far iteration has advanced; the list itself is never
/// changed after creation.
pub struct IpAddrs {
    pub addrs: Vec<SocketAddress>,
    pub pos: usize,
}

impl IpAddrs {
    /// Iteration has not run past the end.
    pub open spec fn wf(self) -> bool {
        self.pos <= self.addrs.len()
    }

    /// A fresh candidate set over the given addresses.
    pub fn from_addresses(addrs: Vec<SocketAddress>) -> (r: IpAddrs)
        ensures
            r.wf(),
            r.addrs@ == addrs@,
            r.pos == 0,
    {
        IpAddrs { addrs: addrs, pos: 0 }
    }

    /// The literal-IP fast path: if `host` is literal IPv4 or IPv6 text,
    /// yield a single-candidate set for it at `port`, with no resolution.
    pub fn try_parse(host: &str, port: u16) -> (r: Option<IpAddrs>)
        ensures
            r is Some <==> is_ip_literal(host@),
            match r {
                Option::Some(a) => {
                    &&& a.wf()
                    &&& a.pos == 0
                    &&& a.addrs@ == seq![SocketAddress { ip: literal_addr(host@), port: port }]
                },
                Option::None => true,
            },
    {
        let chars = chars_of(host);
        let ip = match parse_ipv4_chars(&chars) {
            Option::Some(ip) => ip,
            Option::None => match parse_ipv6_chars(&chars) {
                Option::Some(ip) => ip,
                Option::None => {
                    return Option::None;
                },
            },
        };
        let mut addrs: Vec<SocketAddress> = Vec::new();
        addrs.push(SocketAddress { ip: ip, port: port });
        proof {
            assert(addrs@ =~= seq![SocketAddress { ip: literal_addr(host@), port: port }]);
        }
        Option::Some(IpAddrs { addrs: addrs, pos: 0 })
    }

    /// Advance to the next candidate that is eligible under the configured
    /// local bind address, skipping — never attempting — every candidate of
    /// the other IP family; yield it, or nothing when the set is exhausted.
    pub fn next_filter(&mut self, local_addr: Option<IpAddress>) -> (r: Option<SocketAddress>)
        requires
            old(self).wf(),
        ensures
            final(self).wf(),
            final(self).addrs@ == old(self).addrs@,
            ({
                let fe = first_eligible(old(self).addrs@, old(self).pos as int, local_addr);
                if fe < old(self).addrs@.len() {
                    r == Option::Some(old(self).addrs@[fe]) && final(self).pos == fe + 1
                } else {
                    r is None && final(self).pos == old(self).addrs@.len()
                }
            }),
    {
        let n = self.addrs.len();
        let mut i: usize = self.pos;
        while i < n
            invariant
                self.addrs@ == old(self).addrs@,
                self.pos == old(self).pos,
                self.pos <= i <= n,
                n == self.addrs.len(),
                forall|j: int| self.pos <= j < i ==> !eligible(self.addrs@[j], local_addr),
            decreases n - i,
        {
            let a = self.addrs[i];
            if crate::addr::is_eligible(&a, &local_addr) {
                proof {
                    lemma_first_eligible_at(
                        self.addrs@,
                        self.pos as int,
                        i as int,
                        local_addr,
                    );
                }
                self.pos = i + 1;
                return Option::Some(a);
            }
            i += 1;
        }
        proof {
            lemma_first_eligible_at(self.addrs@, self.pos as int, n as int, local_addr);
        }
        self.pos = n;
        Option::None
    }
}

} // verus!
