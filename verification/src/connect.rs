//! The connector: URI validation, and the per-request connect operation.
//!
//! A connect request is a driver-polled state machine.  [`HttpConnector::call`]
//! validates the URI synchronously and seeds the operation; the driver then
//! advances it, performing the real I/O between steps:
//!
//! - [`HttpConnecting::poll_start`] takes the literal fast path, or asks the
//!   driver to submit a blocking resolution to its worker pool;
//! - the driver reports the resolution outcome
//!   ([`HttpConnecting::resolution_ready`], `resolution_failed`,
//!   `executor_failed`);
//! - [`HttpConnecting::poll_connecting`] picks the next eligible candidate for
//!   the driver to attempt a TCP connection to, and the driver reports each
//!   outcome (`attempt_failed`, `attempt_succeeded`) until the operation is
//!   `Done` or `Failed`.
//!
//! Candidates are attempted strictly in order, one in flight at a time; a
//! later attempt's error overwrites the earlier one, and only the last error
//! is surfaced when every candidate fails.

use vstd::prelude::*;

use crate::addr::{eligible, IpAddress, SocketAddress};
use crate::dns::{first_eligible, is_ip_literal, literal_addr, IpAddrs};

verus! {

/// Why a URI was rejected before any I/O.
#[derive(Clone, Copy, PartialEq, Eq, Structural, Debug)]
pub enum InvalidUrl {
    MissingScheme,
    NotHttp,
    MissingAuthority,
}

impl InvalidUrl {
    /// A human-readable account of the rejection.
    pub fn description(&self) -> (r: String)
        ensures
            *self is MissingScheme ==> r@ == "invalid URL, missing scheme"@,
            *self is NotHttp ==> r@ == "invalid URL, scheme must be http"@,
            *self is MissingAuthority ==> r@ == "invalid URL, missing domain"@,
    {
        match self {
            InvalidUrl::MissingScheme => "invalid URL, missing scheme".to_owned(),
            InvalidUrl::NotHttp => "invalid URL, scheme must be http".to_owned(),
            InvalidUrl::MissingAuthority => "invalid URL, missing domain".to_owned(),
        }
    }
}

/// One I/O failure as reported by the driver: the operating system's error
/// code for a failed bind, connect or resolution.
#[derive(Clone, Copy, PartialEq, Eq, Structural, Debug)]
pub struct IoFailure {
    pub code: u64,
}

/// Why a connect operation failed.
#[derive(Clone, Copy, PartialEq, Eq, Structural, Debug)]
pub enum ConnectError {
    /// The URI was rejected before any I/O.
    InvalidInput { reason: InvalidUrl },
    /// The blocking system resolution failed.
    Resolution { failure: IoFailure },
    /// The worker pool rejected or failed to run the resolution task.
    Executor,
    /// A candidate's bind or connect failed; only the last such failure is
    /// kept.
    Attempt { failure: IoFailure },
    /// No candidate was ever attempted.
    NoAddresses,
}

/// The target of one connect request, derived once from the URI.
#[derive(Clone, Debug)]
pub struct TargetSpec {
    pub host: String,
    pub port: u16,
    pub require_http_scheme: bool,
}

/// The connector configuration, shared read-only by every operation it seeds.
#[derive(Clone, Debug)]
pub struct HttpConnector {
    pub enforce_http: bool,
    pub keep_alive_timeout_ms: Option<u64>,
    pub local_address: Option<IpAddress>,
    pub dns_threads: usize,
}

/// The scheme of the URI is exactly `s`.
pub open spec fn scheme_is(u: UriParts, s: Seq<char>) -> bool {
    match u.scheme {
        Option::Some(x) => x@ == s,
        Option::None => false,
    }
}

/// The characters of the URI's host, when present.
pub open spec fn host_chars(u: UriParts) -> Seq<char> {
    match u.host {
        Option::Some(h) => h@,
        Option::None => Seq::<char>::empty(),
    }
}

/// How a URI is vetted before any I/O: with scheme enforcement the scheme
/// must be exactly `http`; without it a scheme must at least be present; and
/// a host is always required.
pub open spec fn validate_spec(c: HttpConnector, u: UriParts) -> Option<InvalidUrl> {
    if c.enforce_http && !scheme_is(u, "http"@) {
        Option::Some(InvalidUrl::NotHttp)
    } else if !c.enforce_http && u.scheme is None {
        Option::Some(InvalidUrl::MissingScheme)
    } else if u.host is None {
        Option::Some(InvalidUrl::MissingAuthority)
    } else {
        Option::None
    }
}

/// The port a request resolves to: the URI's explicit port, else 443 for
/// `https`, else 80.
pub open spec fn default_port(u: UriParts) -> u16 {
    match u.port {
        Option::Some(p) => p,
        Option::None => if scheme_is(u, "https"@) {
            443u16
        } else {
            80u16
        },
    }
}

/// A parsed URI, reduced to the parts the connector reads.
#[derive(Clone, Debug)]
pub struct UriParts {
    pub scheme: Option<String>,
    pub host: Option<String>,
    pub port: Option<u16>,
}

/// The mathematical state of one candidate sequencer.
#[verifier::ext_equal]
pub ghost struct SequencerModel {
    pub candidates: Seq<SocketAddress>,
    pub pos: int,
    pub local: Option<IpAddress>,
    pub in_flight: bool,
    pub last_error: Option<IoFailure>,
}

impl SequencerModel {
    pub open spec fn wf(self) -> bool {
        0 <= self.pos <= self.candidates.len()
    }

    /// The index of the next candidate the sequencer will attempt.
    pub open spec fn next_index(self) -> int {
        first_eligible(self.candidates, self.pos, self.local)
    }
}

/// What the driver is told to do next by the sequencer.
#[derive(Clone, Copy, PartialEq, Eq, Structural, Debug)]
pub enum SequenceStep {
    /// Open a socket of the candidate's family, bind the configured local
    /// address (ephemeral port) if one is set, and start a connect.
    Attempt { addr: SocketAddress },
    /// Every candidate is exhausted: the operation fails with this error.
    GiveUp { error: ConnectError },
}

/// The error surfaced when the sequencer gives up: the last recorded attempt
/// failure, or a generic no-addresses error if nothing was ever attempted.
pub open spec fn give_up_error_m(m: SequencerModel) -> ConnectError {
    match m.last_error {
        Option::Some(f) => ConnectError::Attempt { failure: f },
        Option::None => ConnectError::NoAddresses,
    }
}

/// What advancing the sequencer yields.
pub open spec fn advance_step_m(m: SequencerModel) -> SequenceStep {
    if m.next_index() < m.candidates.len() {
        SequenceStep::Attempt { addr: m.candidates[m.next_index()] }
    } else {
        SequenceStep::GiveUp { error: give_up_error_m(m) }
    }
}

/// The sequencer state after advancing.
pub open spec fn advance_next_m(m: SequencerModel) -> SequencerModel {
    if m.next_index() < m.candidates.len() {
        SequencerModel { pos: m.next_index() + 1, in_flight: true, ..m }
    } else {
        SequencerModel { pos: m.candidates.len() as int, in_flight: false, ..m }
    }
}

/// The sequencer state after the in-flight attempt fails: the failure is
/// recorded, overwriting any earlier one.
pub open spec fn fail_next_m(m: SequencerModel, f: IoFailure) -> SequencerModel {
    SequencerModel { in_flight: false, last_error: Option::Some(f), ..m }
}

/// The in-order, first-success-wins candidate sequencer of one request.
pub struct ConnectingTcp {
    pub local_address: Option<IpAddress>,
    pub addrs: IpAddrs,
    pub in_flight: bool,
    pub last_error: Option<IoFailure>,
}

impl View for ConnectingTcp {
    type V = SequencerModel;

    open spec fn view(&self) -> SequencerModel {
        SequencerModel {
            candidates: self.addrs.addrs@,
            pos: self.addrs.pos as int,
            local: self.local_address,
            in_flight: self.in_flight,
            last_error: self.last_error,
        }
    }
}

impl ConnectingTcp {
    /// A fresh sequencer over a candidate set.
    pub fn new(addrs: IpAddrs, local_address: Option<IpAddress>) -> (r: ConnectingTcp)
        requires
            addrs.wf(),
        ensures
            r@ == (SequencerModel {
                candidates: addrs.addrs@,
                pos: addrs.pos as int,
                local: local_address,
                in_flight: false,
                last_error: Option::None,
            }),
            r@.wf(),
    {
        ConnectingTcp {
            local_address: local_address,
            addrs: addrs,
            in_flight: false,
            last_error: Option::None,
        }
    }

    /// Advance to the next eligible candidate: yield it as the attempt to
    /// make, or give up with the last recorded error once none remain.
    /// Candidates whose IP family mismatches the configured local bind
    /// address are skipped outright, never attempted.
    pub fn advance(&mut self) -> (r: SequenceStep)
        requires
            old(self)@.wf(),
            !old(self)@.in_flight,
        ensures
            final(self)@.wf(),
            r == advance_step_m(old(self)@),
            final(self)@ == advance_next_m(old(self)@),
    {
        proof {
            crate::dns::lemma_first_eligible(
                self.addrs.addrs@,
                self.addrs.pos as int,
                self.local_address,
            );
        }
        match self.addrs.next_filter(self.local_address) {
            Option::Some(a) => {
                self.in_flight = true;
                SequenceStep::Attempt { addr: a }
            },
            Option::None => {
                let error = match self.last_error {
                    Option::Some(f) => ConnectError::Attempt { failure: f },
                    Option::None => ConnectError::NoAddresses,
                };
                SequenceStep::GiveUp { error }
            },
        }
    }

    /// The in-flight attempt failed: record its error, superseding any
    /// earlier one.
    pub fn attempt_failed(&mut self, failure: IoFailure)
        requires
            old(self)@.in_flight,
        ensures
            final(self)@ == fail_next_m(old(self)@, failure),
    {
        self.in_flight = false;
        self.last_error = Option::Some(failure);
    }

    /// The in-flight attempt connected: the sequencer is finished.
    pub fn attempt_succeeded(&mut self)
        requires
            old(self)@.in_flight,
        ensures
            final(self)@ == (SequencerModel { in_flight: false, ..old(self)@ }),
    {
        self.in_flight = false;
    }
}

/// A later failure overwrites an earlier one: after two recorded failures,
/// only the second remains, whatever happened in between.
pub proof fn lemma_failure_overwrites(m: SequencerModel, f1: IoFailure, f2: IoFailure)
    ensures
        fail_next_m(fail_next_m(m, f1), f2).last_error == Option::Some(f2),
        fail_next_m(advance_next_m(fail_next_m(m, f1)), f2).last_error == Option::Some(f2),
{
}

/// When the last candidate's attempt fails and none remain, the sequencer
/// gives up with exactly that failure — the error of the last candidate
/// attempted, not of any earlier one.
pub proof fn lemma_final_error_is_last_failure(m: SequencerModel, f: IoFailure)
    requires
        m.wf(),
        m.in_flight,
        first_eligible(m.candidates, m.pos, m.local) >= m.candidates.len(),
    ensures
        advance_step_m(fail_next_m(m, f)) == (SequenceStep::GiveUp {
            error: ConnectError::Attempt { failure: f },
        }),
{
}

/// The family filter: whatever the sequencer yields as an attempt is
/// eligible under the configured local bind address, and every candidate it
/// passes over on the way is ineligible — skipped entirely, never attempted.
pub proof fn lemma_family_filter(m: SequencerModel)
    requires
        m.wf(),
    ensures
        advance_step_m(m) matches SequenceStep::Attempt { addr } ==> eligible(addr, m.local),
        forall|j: int| m.pos <= j < m.next_index() ==> !eligible(m.candidates[j], m.local),
        advance_next_m(m).pos <= m.next_index() + 1,
{
    crate::dns::lemma_first_eligible(m.candidates, m.pos, m.local);
}

/// The sequencer state after a whole run in which every attempt fails:
/// each failure in `fs` is recorded for one advanced-to candidate, in order.
pub open spec fn run_failures_m(m: SequencerModel, fs: Seq<IoFailure>) -> SequencerModel
    decreases fs.len(),
{
    if fs.len() == 0 {
        m
    } else {
        run_failures_m(fail_next_m(advance_next_m(m), fs.first()), fs.drop_first())
    }
}

/// Over any run in which every attempt fails, the error finally surfaced is
/// the last failure of the run — each earlier one was overwritten in turn.
pub proof fn lemma_run_surfaces_last_failure(m: SequencerModel, fs: Seq<IoFailure>)
    requires
        fs.len() > 0,
    ensures
        run_failures_m(m, fs).last_error == Option::Some(fs.last()),
        give_up_error_m(run_failures_m(m, fs)) == (ConnectError::Attempt { failure: fs.last() }),
    decreases fs.len(),
{
    if fs.len() == 1 {
        assert(run_failures_m(m, fs) == fail_next_m(advance_next_m(m), fs.first()));
    } else {
        lemma_run_surfaces_last_failure(
            fail_next_m(advance_next_m(m), fs.first()),
            fs.drop_first(),
        );
        assert(fs.drop_first().last() == fs.last());
    }
}

/// The connect operation's phase.
pub enum State {
    /// Validated, not yet started.
    Lazy { target: TargetSpec, local_address: Option<IpAddress> },
    /// A blocking resolution is outstanding on the driver's worker pool.
    Resolving { local_address: Option<IpAddress> },
    /// Attempting candidates in order.
    Connecting { tcp: ConnectingTcp },
    /// Terminal failure; the error is taken out exactly once.
    Failed { error: Option<ConnectError> },
    /// Terminal success: the driver holds the connected socket.
    Done,
}

/// What the driver must do after starting an operation.
pub enum StartStep {
    /// The host was a literal IP address: no resolution, straight to the
    /// candidate sequencer.
    Literal,
    /// Submit a blocking resolution of this host and port to the worker
    /// pool, then report its outcome.
    Resolve { host: String, port: u16 },
}

/// One connect operation: the per-request state machine.
pub struct HttpConnecting {
    pub state: State,
    pub keep_alive_timeout_ms: Option<u64>,
}

impl HttpConnecting {
    pub open spec fn wf(self) -> bool {
        match self.state {
            State::Connecting { tcp } => tcp@.wf(),
            _ => true,
        }
    }

    /// Start the operation: recognise a literal host synchronously — that
    /// path never touches the worker pool — or hand the driver the
    /// resolution to run.
    pub fn poll_start(&mut self) -> (r: StartStep)
        requires
            old(self).state is Lazy,
            old(self).wf(),
        ensures
            final(self).wf(),
            final(self).keep_alive_timeout_ms == old(self).keep_alive_timeout_ms,
            old(self).state matches State::Lazy { target, local_address } ==> ({
                &&& is_ip_literal(target.host@) ==> (r is Literal && (final(self).state matches State::Connecting { tcp } && tcp@ == (SequencerModel {
                    candidates: seq![
                        SocketAddress { ip: literal_addr(target.host@), port: target.port },
                    ],
                    pos: 0,
                    local: local_address,
                    in_flight: false,
                    last_error: Option::None,
                })))
                &&& !is_ip_literal(target.host@) ==> ((r matches StartStep::Resolve { host, port }
                    && host@ == target.host@ && port == target.port) && final(self).state
                    == (State::Resolving { local_address }))
            }),
    {
        let (host, port, local_address) = match &self.state {
            State::Lazy { target, local_address } => (
                target.host.clone(),
                target.port,
                *local_address,
            ),
            _ => {
                proof {
                    assert(false);
                }
                (String::new(), 0u16, Option::None)
            },
        };
        match IpAddrs::try_parse(host.as_str(), port) {
            Option::Some(addrs) => {
                self.state = State::Connecting { tcp: ConnectingTcp::new(addrs, local_address) };
                StartStep::Literal
            },
            Option::None => {
                self.state = State::Resolving { local_address };
                StartStep::Resolve { host, port }
            },
        }
    }

    /// The driver's resolution finished: its candidates, in the order the
    /// system returned them, feed the sequencer.
    pub fn resolution_ready(&mut self, addrs: IpAddrs)
        requires
            old(self).state is Resolving,
            addrs.wf(),
        ensures
            final(self).wf(),
            final(self).keep_alive_timeout_ms == old(self).keep_alive_timeout_ms,
            old(self).state matches State::Resolving { local_address } ==> (final(self).state matches State::Connecting { tcp } && tcp@ == (SequencerModel {
                candidates: addrs.addrs@,
                pos: addrs.pos as int,
                local: local_address,
                in_flight: false,
                last_error: Option::None,
            })),
    {
        let local_address = match &self.state {
            State::Resolving { local_address } => *local_address,
            _ => Option::None,
        };
        self.state = State::Connecting { tcp: ConnectingTcp::new(addrs, local_address) };
    }

    /// The driver's resolution failed: the whole operation fails with that
    /// error; no candidate is ever attempted.
    pub fn resolution_failed(&mut self, failure: IoFailure)
        requires
            old(self).state is Resolving,
        ensures
            final(self).wf(),
            final(self).keep_alive_timeout_ms == old(self).keep_alive_timeout_ms,
            final(self).state == (State::Failed {
                error: Option::Some(ConnectError::Resolution { failure }),
            }),
    {
        self.state = State::Failed {
            error: Option::Some(ConnectError::Resolution { failure }),
        };
    }

    /// The worker pool refused the resolution task: the operation fails with
    /// an executor error, distinguishable from resolution and connect
    /// failures.
    pub fn executor_failed(&mut self)
        requires
            old(self).state is Resolving,
        ensures
            final(self).wf(),
            final(self).keep_alive_timeout_ms == old(self).keep_alive_timeout_ms,
            final(self).state == (State::Failed { error: Option::Some(ConnectError::Executor) }),
    {
        self.state = State::Failed { error: Option::Some(ConnectError::Executor) };
    }

    /// Advance the candidate sequencer: either the next attempt for the
    /// driver to make, or — once candidates are exhausted — the terminal
    /// failure, carrying the last attempt's error.
    pub fn poll_connecting(&mut self) -> (r: SequenceStep)
        requires
            old(self).wf(),
            old(self).state matches State::Connecting { tcp } && !tcp@.in_flight,
        ensures
            final(self).wf(),
            final(self).keep_alive_timeout_ms == old(self).keep_alive_timeout_ms,
            old(self).state matches State::Connecting { tcp } ==> ({
                &&& r == advance_step_m(tcp@)
                &&& (r matches SequenceStep::Attempt { .. } ==> (final(self).state matches State::Connecting { tcp: t2 } && t2@ == advance_next_m(tcp@)))
                &&& (r matches SequenceStep::GiveUp { error } ==> final(self).state
                    == (State::Failed { error: Option::Some(error) }))
            }),
    {
        let step = match &mut self.state {
            State::Connecting { tcp } => tcp.advance(),
            _ => {
                proof {
                    assert(false);
                }
                SequenceStep::GiveUp { error: ConnectError::NoAddresses }
            },
        };
        match step {
            SequenceStep::GiveUp { error } => {
                self.state = State::Failed { error: Option::Some(error) };
                SequenceStep::GiveUp { error }
            },
            SequenceStep::Attempt { addr } => SequenceStep::Attempt { addr },
        }
    }

    /// The in-flight attempt failed: record it and loop for the next
    /// candidate.
    pub fn attempt_failed(&mut self, failure: IoFailure)
        requires
            old(self).wf(),
            old(self).state matches State::Connecting { tcp } && tcp@.in_flight,
        ensures
            final(self).wf(),
            final(self).keep_alive_timeout_ms == old(self).keep_alive_timeout_ms,
            old(self).state matches State::Connecting { tcp } ==> (final(self).state matches State::Connecting { tcp: t2 } && t2@ == fail_next_m(tcp@, failure)),
    {
        match &mut self.state {
            State::Connecting { tcp } => tcp.attempt_failed(failure),
            _ => {
                proof {
                    assert(false);
                }
            },
        }
    }

    /// The in-flight attempt connected: the operation is done, and no
    /// further candidate is tried.
    pub fn attempt_succeeded(&mut self)
        requires
            old(self).wf(),
            old(self).state matches State::Connecting { tcp } && tcp@.in_flight,
        ensures
            final(self).wf(),
            final(self).keep_alive_timeout_ms == old(self).keep_alive_timeout_ms,
            final(self).state is Done,
    {
        self.state = State::Done;
    }

    /// Take the terminal error, exactly once.
    pub fn take_error(&mut self) -> (r: ConnectError)
        requires
            old(self).state matches State::Failed { error } && error is Some,
        ensures
            final(self).wf(),
            final(self).keep_alive_timeout_ms == old(self).keep_alive_timeout_ms,
            old(self).state matches State::Failed { error } ==> error == Option::Some(r),
            final(self).state == (State::Failed { error: Option::<ConnectError>::None }),
    {
        let e = match &self.state {
            State::Failed { error: Option::Some(e) } => *e,
            _ => {
                proof {
                    assert(false);
                }
                ConnectError::NoAddresses
            },
        };
        self.state = State::Failed { error: Option::None };
        e
    }
}

impl HttpConnector {
    /// A connector with the given resolver worker-thread count and the
    /// defaults: scheme enforcement on, no keep-alive, no local bind
    /// address.
    pub fn new(threads: usize) -> (c: HttpConnector)
        ensures
            c.enforce_http,
            c.keep_alive_timeout_ms is None,
            c.local_address is None,
            c.dns_threads == threads,
    {
        HttpConnector {
            enforce_http: true,
            keep_alive_timeout_ms: Option::None,
            local_address: Option::None,
            dns_threads: threads,
        }
    }

    /// Require every URI to carry the `http` scheme.  Enabled by default.
    pub fn enforce_http(&mut self, is_enforced: bool)
        ensures
            final(self).enforce_http == is_enforced,
            final(self).keep_alive_timeout_ms == old(self).keep_alive_timeout_ms,
            final(self).local_address == old(self).local_address,
            final(self).dns_threads == old(self).dns_threads,
    {
        self.enforce_http = is_enforced;
    }

    /// Have every connected socket get keep-alive with this timeout, in
    /// milliseconds; `None` leaves the option unset.  Default is `None`.
    pub fn set_keepalive(&mut self, dur_ms: Option<u64>)
        ensures
            final(self).keep_alive_timeout_ms == dur_ms,
            final(self).enforce_http == old(self).enforce_http,
            final(self).local_address == old(self).local_address,
            final(self).dns_threads == old(self).dns_threads,
    {
        self.keep_alive_timeout_ms = dur_ms;
    }

    /// Bind every socket to this local address (ephemeral port) before
    /// connecting; candidates of the other IP family are then skipped.
    /// Default is `None`.
    pub fn set_local_address(&mut self, addr: Option<IpAddress>)
        ensures
            final(self).local_address == addr,
            final(self).enforce_http == old(self).enforce_http,
            final(self).keep_alive_timeout_ms == old(self).keep_alive_timeout_ms,
            final(self).dns_threads == old(self).dns_threads,
    {
        self.local_address = addr;
    }

    /// Validate the URI and seed a connect operation.
    ///
    /// A rejected URI yields an operation already in its terminal failed
    /// state, carrying the invalid-input error; it never touches the network
    /// or the worker pool.  An accepted URI yields a not-yet-started
    /// operation for its host, resolved port, and the configured local bind
    /// address.
    pub fn call(&self, uri: UriParts) -> (r: HttpConnecting)
        ensures
            r.wf(),
            match validate_spec(*self, uri) {
                Option::Some(reason) => (r.state matches State::Failed { error } && error
                    == Option::Some(ConnectError::InvalidInput { reason }))
                    && r.keep_alive_timeout_ms is None,
                Option::None => (r.state matches State::Lazy { target, local_address } && ({
                    &&& target.host@ == host_chars(uri)
                    &&& target.port == default_port(uri)
                    &&& target.require_http_scheme == self.enforce_http
                    &&& local_address == self.local_address
                })) && r.keep_alive_timeout_ms == self.keep_alive_timeout_ms,
            },
    {
        let UriParts { scheme, host, port } = uri;
        let scheme_is_http = match &scheme {
            Option::Some(s) => {
                let http: String = "http".to_owned();
                *s == http
            },
            Option::None => false,
        };
        let scheme_is_https = match &scheme {
            Option::Some(s) => {
                let https: String = "https".to_owned();
                *s == https
            },
            Option::None => false,
        };
        if self.enforce_http {
            if !scheme_is_http {
                return invalid_url(InvalidUrl::NotHttp);
            }
        } else {
            if matches!(&scheme, Option::None) {
                return invalid_url(InvalidUrl::MissingScheme);
            }
        }
        let host = match host {
            Option::Some(h) => h,
            Option::None => {
                return invalid_url(InvalidUrl::MissingAuthority);
            },
        };
        let port = match port {
            Option::Some(p) => p,
            Option::None => if scheme_is_https {
                443
            } else {
                80
            },
        };
        HttpConnecting {
            state: State::Lazy {
                target: TargetSpec {
                    host: host,
                    port: port,
                    require_http_scheme: self.enforce_http,
                },
                local_address: self.local_address,
            },
            keep_alive_timeout_ms: self.keep_alive_timeout_ms,
        }
    }
}

/// An operation that fails validation resolves immediately, before any I/O.
fn invalid_url(reason: InvalidUrl) -> (r: HttpConnecting)
    ensures
        r.wf(),
        r.state == (State::Failed {
            error: Option::Some(ConnectError::InvalidInput { reason }),
        }),
        r.keep_alive_timeout_ms is None,
{
    HttpConnecting {
        state: State::Failed { error: Option::Some(ConnectError::InvalidInput { reason }) },
        keep_alive_timeout_ms: Option::None,
    }
}

} // verus!
