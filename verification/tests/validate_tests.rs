use downtime_benchmarker::target::{Check, CheckKind};
use downtime_benchmarker::validate::{validate_targets, ArgName, ArgValue, RawTarget, ValidationError};

fn raw(name: &str, kind: &str, args: Vec<(&str, ArgValue)>) -> RawTarget {
    RawTarget {
        name: name.to_string(),
        kind: kind.to_string(),
        args: args.into_iter().map(|(k, v)| (k.to_string(), v)).collect(),
    }
}

fn str_arg(v: &str) -> ArgValue {
    ArgValue::Str(v.to_string())
}

#[test]
fn valid_http_and_tcp_records_convert() {
    let raws = vec![
        raw("web", "http", vec![("url", str_arg("http://example.com/health"))]),
        raw("db", "tcp", vec![("host", str_arg("::1")), ("port", ArgValue::Int(5432))]),
    ];
    let targets = validate_targets(raws).expect("both records are valid");
    assert_eq!(targets.len(), 2);
    assert_eq!(targets[0].name, "web");
    match &targets[0].check {
        Check::Http { url } => assert_eq!(url, "http://example.com/health"),
        _ => panic!("expected an http check"),
    }
    assert_eq!(targets[1].name, "db");
    match &targets[1].check {
        Check::Tcp { host, port } => {
            assert_eq!(host, "::1");
            assert_eq!(*port, 5432);
        }
        _ => panic!("expected a tcp check"),
    }
}

#[test]
fn empty_list_is_trivially_valid() {
    let targets = validate_targets(vec![]).expect("nothing to reject");
    assert!(targets.is_empty());
}

#[test]
fn unsupported_type_is_rejected_with_its_position() {
    let raws = vec![
        raw("ok", "http", vec![("url", str_arg("http://x/"))]),
        raw("bad", "ping", vec![]),
    ];
    match validate_targets(raws) {
        Err(ValidationError::UnsupportedType { idx, found }) => {
            assert_eq!(idx, 2);
            assert_eq!(found, "ping");
        }
        other => panic!("expected an unsupported-type error, got {:?}", other.is_ok()),
    }
}

#[test]
fn unknown_http_arg_is_rejected() {
    let raws = vec![raw(
        "web",
        "http",
        vec![("url", str_arg("http://x/")), ("metohd", str_arg("GET"))],
    )];
    match validate_targets(raws) {
        Err(ValidationError::UnknownArg { idx, kind, key }) => {
            assert_eq!(idx, 1);
            assert_eq!(kind, CheckKind::Http);
            assert_eq!(key, "metohd");
        }
        _ => panic!("expected an unknown-arg error"),
    }
}

#[test]
fn unknown_tcp_arg_is_rejected() {
    let raws = vec![raw(
        "db",
        "tcp",
        vec![("host", str_arg("h")), ("portt", ArgValue::Int(1))],
    )];
    match validate_targets(raws) {
        Err(ValidationError::UnknownArg { idx, kind, key }) => {
            assert_eq!(idx, 1);
            assert_eq!(kind, CheckKind::Tcp);
            assert_eq!(key, "portt");
        }
        _ => panic!("expected an unknown-arg error"),
    }
}

#[test]
fn missing_url_is_rejected() {
    let raws = vec![raw("web", "http", vec![])];
    match validate_targets(raws) {
        Err(ValidationError::MissingArg { idx, kind, arg }) => {
            assert_eq!(idx, 1);
            assert_eq!(kind, CheckKind::Http);
            assert_eq!(arg, ArgName::Url);
        }
        _ => panic!("expected a missing-arg error"),
    }
}

#[test]
fn url_must_be_a_string() {
    let raws = vec![raw("web", "http", vec![("url", ArgValue::Int(3))])];
    match validate_targets(raws) {
        Err(ValidationError::NotAString { idx, kind, arg }) => {
            assert_eq!(idx, 1);
            assert_eq!(kind, CheckKind::Http);
            assert_eq!(arg, ArgName::Url);
        }
        _ => panic!("expected a not-a-string error"),
    }
}

#[test]
fn missing_host_is_reported_before_port_checks() {
    let raws = vec![raw("db", "tcp", vec![("port", ArgValue::Int(80)) ])];
    match validate_targets(raws) {
        Err(ValidationError::MissingArg { idx, kind, arg }) => {
            assert_eq!(idx, 1);
            assert_eq!(kind, CheckKind::Tcp);
            assert_eq!(arg, ArgName::Host);
        }
        _ => panic!("expected a missing-host error"),
    }
}

#[test]
fn host_must_be_a_string() {
    let raws = vec![raw("db", "tcp", vec![("host", ArgValue::Other), ("port", ArgValue::Int(80))])];
    match validate_targets(raws) {
        Err(ValidationError::NotAString { idx, kind, arg }) => {
            assert_eq!(idx, 1);
            assert_eq!(kind, CheckKind::Tcp);
            assert_eq!(arg, ArgName::Host);
        }
        _ => panic!("expected a not-a-string error"),
    }
}

#[test]
fn missing_port_is_rejected() {
    let raws = vec![raw("db", "tcp", vec![("host", str_arg("h"))])];
    match validate_targets(raws) {
        Err(ValidationError::MissingArg { idx, kind, arg }) => {
            assert_eq!(idx, 1);
            assert_eq!(kind, CheckKind::Tcp);
            assert_eq!(arg, ArgName::Port);
        }
        _ => panic!("expected a missing-port error"),
    }
}

#[test]
fn port_must_be_a_number() {
    let raws = vec![raw("db", "tcp", vec![("host", str_arg("h")), ("port", str_arg("80"))])];
    match validate_targets(raws) {
        Err(ValidationError::PortNotANumber { idx }) => assert_eq!(idx, 1),
        _ => panic!("expected a port-not-a-number error"),
    }
}

#[test]
fn port_zero_and_oversized_ports_are_rejected() {
    let raws = vec![raw("db", "tcp", vec![("host", str_arg("h")), ("port", ArgValue::Int(0))])];
    assert!(matches!(
        validate_targets(raws),
        Err(ValidationError::PortOutOfRange { idx: 1 })
    ));
    let raws = vec![raw("db", "tcp", vec![("host", str_arg("h")), ("port", ArgValue::Int(70000))])];
    assert!(matches!(
        validate_targets(raws),
        Err(ValidationError::PortOutOfRange { idx: 1 })
    ));
    // A number that does not fit an unsigned 64-bit integer (negative or
    // fractional in the file) is out of range too.
    let raws = vec![raw("db", "tcp", vec![("host", str_arg("h")), ("port", ArgValue::OtherNum)])];
    assert!(matches!(
        validate_targets(raws),
        Err(ValidationError::PortOutOfRange { idx: 1 })
    ));
}

#[test]
fn first_invalid_record_wins() {
    let raws = vec![
        raw("ok", "tcp", vec![("host", str_arg("h")), ("port", ArgValue::Int(22))]),
        raw("bad1", "http", vec![]),
        raw("bad2", "gopher", vec![]),
    ];
    match validate_targets(raws) {
        Err(ValidationError::MissingArg { idx, kind, arg }) => {
            assert_eq!(idx, 2);
            assert_eq!(kind, CheckKind::Http);
            assert_eq!(arg, ArgName::Url);
        }
        _ => panic!("expected the second record's error"),
    }
}
