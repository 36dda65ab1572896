use http_connector::addr::{IpAddress, SocketAddress};
use http_connector::connect::{
    ConnectError, HttpConnecting, HttpConnector, InvalidUrl, SequenceStep, StartStep, State,
    UriParts,
};
use http_connector::dns::IpAddrs;

fn uri(scheme: Option<&str>, host: Option<&str>, port: Option<u16>) -> UriParts {
    UriParts {
        scheme: scheme.map(|s| s.to_owned()),
        host: host.map(|h| h.to_owned()),
        port,
    }
}

fn v4(o0: u8, o1: u8, o2: u8, o3: u8, port: u16) -> SocketAddress {
    SocketAddress { ip: IpAddress::V4 { o0, o1, o2, o3 }, port }
}

fn v6_loopback(port: u16) -> SocketAddress {
    SocketAddress {
        ip: IpAddress::V6 { s0: 0, s1: 0, s2: 0, s3: 0, s4: 0, s5: 0, s6: 0, s7: 1 },
        port,
    }
}

fn take_error(op: &mut HttpConnecting) -> ConnectError {
    op.take_error()
}

// The URI "/foo/bar?baz" has neither scheme nor authority.
#[test]
fn test_errors_missing_authority() {
    let connector = HttpConnector::new(1);
    let mut op = connector.call(uri(None, None, None));
    let err = take_error(&mut op);
    assert!(matches!(err, ConnectError::InvalidInput { .. }));
}

// The URI "https://example.domain/foo/bar?baz" is rejected under enforcement.
#[test]
fn test_errors_enforce_http() {
    let connector = HttpConnector::new(1);
    let mut op = connector.call(uri(Some("https"), Some("example.domain"), None));
    let err = take_error(&mut op);
    assert!(matches!(err, ConnectError::InvalidInput { .. }));
}

// The URI "example.domain" carries no scheme.
#[test]
fn test_errors_missing_scheme() {
    let connector = HttpConnector::new(1);
    let mut op = connector.call(uri(None, Some("example.domain"), None));
    let err = take_error(&mut op);
    assert!(matches!(err, ConnectError::InvalidInput { .. }));
}

#[test]
fn test_enforce_rejects_https_with_reason() {
    let connector = HttpConnector::new(1);
    let mut op = connector.call(uri(Some("https"), Some("example.domain"), None));
    let err = op.take_error();
    assert_eq!(err, ConnectError::InvalidInput { reason: InvalidUrl::NotHttp });
}

#[test]
fn test_missing_scheme_unenforced() {
    let mut connector = HttpConnector::new(1);
    connector.enforce_http(false);
    let mut op = connector.call(uri(None, Some("example.domain"), None));
    let err = op.take_error();
    assert_eq!(err, ConnectError::InvalidInput { reason: InvalidUrl::MissingScheme });
}

#[test]
fn test_missing_authority_with_scheme() {
    let connector = HttpConnector::new(1);
    let mut op = connector.call(uri(Some("http"), None, None));
    let err = op.take_error();
    assert_eq!(err, ConnectError::InvalidInput { reason: InvalidUrl::MissingAuthority });
}

// Port defaulting: "https://host/path" resolves to 443 once enforcement is
// off; with enforcement on the same URI is rejected before any I/O.
#[test]
fn test_port_default_https_both_configurations() {
    let mut relaxed = HttpConnector::new(1);
    relaxed.enforce_http(false);
    let mut op = relaxed.call(uri(Some("https"), Some("host"), None));
    match op.poll_start() {
        StartStep::Resolve { host, port } => {
            assert_eq!(host, "host");
            assert_eq!(port, 443);
        }
        StartStep::Literal => panic!("a domain name is no literal"),
    }

    let strict = HttpConnector::new(1);
    let mut op = strict.call(uri(Some("https"), Some("host"), None));
    let err = op.take_error();
    assert_eq!(err, ConnectError::InvalidInput { reason: InvalidUrl::NotHttp });
}

#[test]
fn test_port_default_http_is_80() {
    let connector = HttpConnector::new(1);
    let mut op = connector.call(uri(Some("http"), Some("example.domain"), None));
    match op.poll_start() {
        StartStep::Resolve { host, port } => {
            assert_eq!(host, "example.domain");
            assert_eq!(port, 80);
        }
        StartStep::Literal => panic!("a domain name is no literal"),
    }
}

#[test]
fn test_explicit_port_wins() {
    let connector = HttpConnector::new(1);
    let mut op = connector.call(uri(Some("http"), Some("example.domain"), Some(8080)));
    match op.poll_start() {
        StartStep::Resolve { port, .. } => assert_eq!(port, 8080),
        StartStep::Literal => panic!("a domain name is no literal"),
    }
}

// A literal host goes straight to connecting: no resolution step, so the
// worker pool is never handed a task.
#[test]
fn test_literal_fast_path_skips_resolution() {
    let connector = HttpConnector::new(1);
    let mut op = connector.call(uri(Some("http"), Some("127.0.0.1"), None));
    match op.poll_start() {
        StartStep::Literal => {}
        StartStep::Resolve { .. } => panic!("literal host must not resolve"),
    }
    match op.poll_connecting() {
        SequenceStep::Attempt { addr } => assert_eq!(addr, v4(127, 0, 0, 1, 80)),
        SequenceStep::GiveUp { .. } => panic!("one candidate exists"),
    }
}

#[test]
fn test_resolution_flow() {
    let connector = HttpConnector::new(1);
    let mut op = connector.call(uri(Some("http"), Some("example.domain"), None));
    match op.poll_start() {
        StartStep::Resolve { host, port } => {
            assert_eq!(host, "example.domain");
            assert_eq!(port, 80);
        }
        StartStep::Literal => panic!("a domain name is no literal"),
    }
    let addrs = IpAddrs::from_addresses(vec![v4(10, 0, 0, 1, 80), v4(10, 0, 0, 2, 80)]);
    op.resolution_ready(addrs);
    match op.poll_connecting() {
        SequenceStep::Attempt { addr } => assert_eq!(addr, v4(10, 0, 0, 1, 80)),
        SequenceStep::GiveUp { .. } => panic!("candidates exist"),
    }
}

#[test]
fn test_resolution_failure_is_terminal() {
    let connector = HttpConnector::new(1);
    let mut op = connector.call(uri(Some("http"), Some("example.domain"), None));
    op.poll_start();
    op.resolution_failed(http_connector::connect::IoFailure { code: 11001 });
    let err = op.take_error();
    assert_eq!(
        err,
        ConnectError::Resolution { failure: http_connector::connect::IoFailure { code: 11001 } }
    );
}

#[test]
fn test_executor_failure_is_distinguishable() {
    let connector = HttpConnector::new(1);
    let mut op = connector.call(uri(Some("http"), Some("example.domain"), None));
    op.poll_start();
    op.executor_failed();
    let err = op.take_error();
    assert_eq!(err, ConnectError::Executor);
}

// Candidates [A, B, C]: A and B fail, C connects.  The operation succeeds,
// and the recorded error at that moment is B's — A's was overwritten.
#[test]
fn test_fallback_third_candidate_wins() {
    let connector = HttpConnector::new(1);
    let mut op = connector.call(uri(Some("http"), Some("example.domain"), None));
    op.poll_start();
    op.resolution_ready(IpAddrs::from_addresses(vec![
        v4(10, 0, 0, 1, 80),
        v4(10, 0, 0, 2, 80),
        v4(10, 0, 0, 3, 80),
    ]));

    match op.poll_connecting() {
        SequenceStep::Attempt { addr } => assert_eq!(addr, v4(10, 0, 0, 1, 80)),
        SequenceStep::GiveUp { .. } => panic!("A expected"),
    }
    op.attempt_failed(http_connector::connect::IoFailure { code: 111 });

    match op.poll_connecting() {
        SequenceStep::Attempt { addr } => assert_eq!(addr, v4(10, 0, 0, 2, 80)),
        SequenceStep::GiveUp { .. } => panic!("B expected"),
    }
    op.attempt_failed(http_connector::connect::IoFailure { code: 112 });

    // only B's failure remains recorded
    match &op.state {
        State::Connecting { tcp } => {
            assert_eq!(tcp.last_error, Some(http_connector::connect::IoFailure { code: 112 }));
        }
        _ => panic!("still connecting"),
    }

    match op.poll_connecting() {
        SequenceStep::Attempt { addr } => assert_eq!(addr, v4(10, 0, 0, 3, 80)),
        SequenceStep::GiveUp { .. } => panic!("C expected"),
    }
    op.attempt_succeeded();
    assert!(matches!(op.state, State::Done));
}

// All candidates fail: the surfaced error is the last candidate's, in order.
#[test]
fn test_all_fail_surfaces_last_error() {
    let connector = HttpConnector::new(1);
    let mut op = connector.call(uri(Some("http"), Some("example.domain"), None));
    op.poll_start();
    op.resolution_ready(IpAddrs::from_addresses(vec![
        v4(10, 0, 0, 1, 80),
        v4(10, 0, 0, 2, 80),
    ]));

    op.poll_connecting();
    op.attempt_failed(http_connector::connect::IoFailure { code: 1 });
    op.poll_connecting();
    op.attempt_failed(http_connector::connect::IoFailure { code: 2 });

    match op.poll_connecting() {
        SequenceStep::GiveUp { error } => {
            assert_eq!(
                error,
                ConnectError::Attempt { failure: http_connector::connect::IoFailure { code: 2 } }
            );
        }
        SequenceStep::Attempt { .. } => panic!("exhausted"),
    }
    let err = op.take_error();
    assert_eq!(
        err,
        ConnectError::Attempt { failure: http_connector::connect::IoFailure { code: 2 } }
    );
}

#[test]
fn test_empty_candidate_set_gives_no_addresses() {
    let connector = HttpConnector::new(1);
    let mut op = connector.call(uri(Some("http"), Some("example.domain"), None));
    op.poll_start();
    op.resolution_ready(IpAddrs::from_addresses(vec![]));
    match op.poll_connecting() {
        SequenceStep::GiveUp { error } => assert_eq!(error, ConnectError::NoAddresses),
        SequenceStep::Attempt { .. } => panic!("no candidates exist"),
    }
}

// A configured IPv4 local bind address makes the IPv6 candidate ineligible:
// it is skipped outright, never attempted.
#[test]
fn test_family_mismatch_skipped() {
    let mut connector = HttpConnector::new(1);
    connector.set_local_address(Some(IpAddress::V4 { o0: 192, o1: 168, o2: 0, o3: 10 }));
    let mut op = connector.call(uri(Some("http"), Some("example.domain"), None));
    op.poll_start();
    op.resolution_ready(IpAddrs::from_addresses(vec![
        v6_loopback(80),
        v4(10, 0, 0, 7, 80),
    ]));
    match op.poll_connecting() {
        SequenceStep::Attempt { addr } => assert_eq!(addr, v4(10, 0, 0, 7, 80)),
        SequenceStep::GiveUp { .. } => panic!("the IPv4 candidate is eligible"),
    }
    // iteration has moved past both candidates: the IPv6 one was never yielded
    match &op.state {
        State::Connecting { tcp } => assert_eq!(tcp.addrs.pos, 2),
        _ => panic!("still connecting"),
    }
}

#[test]
fn test_family_mismatch_all_skipped_gives_no_addresses() {
    let mut connector = HttpConnector::new(1);
    connector.set_local_address(Some(IpAddress::V4 { o0: 192, o1: 168, o2: 0, o3: 10 }));
    let mut op = connector.call(uri(Some("http"), Some("example.domain"), None));
    op.poll_start();
    op.resolution_ready(IpAddrs::from_addresses(vec![v6_loopback(80)]));
    match op.poll_connecting() {
        SequenceStep::GiveUp { error } => assert_eq!(error, ConnectError::NoAddresses),
        SequenceStep::Attempt { .. } => panic!("the IPv6 candidate is ineligible"),
    }
}

// Two operations served by one connector advance independently: interleaved
// stepping never mixes their candidates or errors.
#[test]
fn test_concurrent_operations_do_not_interfere() {
    let connector = HttpConnector::new(2);
    let mut op_a = connector.call(uri(Some("http"), Some("127.0.0.1"), Some(1000)));
    let mut op_b = connector.call(uri(Some("http"), Some("10.1.2.3"), Some(2000)));

    assert!(matches!(op_a.poll_start(), StartStep::Literal));
    assert!(matches!(op_b.poll_start(), StartStep::Literal));

    let step_b = op_b.poll_connecting();
    let step_a = op_a.poll_connecting();
    match step_a {
        SequenceStep::Attempt { addr } => assert_eq!(addr, v4(127, 0, 0, 1, 1000)),
        SequenceStep::GiveUp { .. } => panic!("one candidate exists"),
    }
    match step_b {
        SequenceStep::Attempt { addr } => assert_eq!(addr, v4(10, 1, 2, 3, 2000)),
        SequenceStep::GiveUp { .. } => panic!("one candidate exists"),
    }
    op_a.attempt_failed(http_connector::connect::IoFailure { code: 61 });
    op_b.attempt_succeeded();
    assert!(matches!(op_b.state, State::Done));
    match op_a.poll_connecting() {
        SequenceStep::GiveUp { error } => assert_eq!(
            error,
            ConnectError::Attempt { failure: http_connector::connect::IoFailure { code: 61 } }
        ),
        SequenceStep::Attempt { .. } => panic!("exhausted"),
    }
}

#[test]
fn test_error_descriptions() {
    assert_eq!(InvalidUrl::MissingScheme.description(), "invalid URL, missing scheme");
    assert_eq!(InvalidUrl::NotHttp.description(), "invalid URL, scheme must be http");
    assert_eq!(InvalidUrl::MissingAuthority.description(), "invalid URL, missing domain");
}

#[test]
fn test_keepalive_configuration_carries_over() {
    let mut connector = HttpConnector::new(1);
    connector.set_keepalive(Some(30_000));
    let op = connector.call(uri(Some("http"), Some("127.0.0.1"), None));
    assert_eq!(op.keep_alive_timeout_ms, Some(30_000));
    // a rejected URI carries no keep-alive configuration
    let bad = connector.call(uri(None, None, None));
    assert_eq!(bad.keep_alive_timeout_ms, None);
}
