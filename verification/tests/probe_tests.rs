use downtime_benchmarker::probe::{
    http_outcome_healthy, http_status_healthy, tcp_connect_addr, tcp_outcome_healthy,
};
use downtime_benchmarker::target::{Check, Target};

#[test]
fn http_status_boundaries() {
    assert!(http_status_healthy(200));
    assert!(http_status_healthy(399));
    assert!(!http_status_healthy(400));
    assert!(!http_status_healthy(199));
    assert!(http_status_healthy(301));
    assert!(!http_status_healthy(500));
}

#[test]
fn transport_failure_is_unhealthy() {
    // Connection refused, DNS failure, TLS error, timeout: no status at all.
    assert!(!http_outcome_healthy(None));
    assert!(http_outcome_healthy(Some(204)));
    assert!(!http_outcome_healthy(Some(404)));
}

#[test]
fn tcp_outcome_follows_connection() {
    assert!(tcp_outcome_healthy(true));
    assert!(!tcp_outcome_healthy(false));
}

#[test]
fn ipv6_hosts_are_bracket_wrapped() {
    assert_eq!(tcp_connect_addr("::1", 8080), "[::1]:8080");
    assert_eq!(tcp_connect_addr("2001:db8::7", 443), "[2001:db8::7]:443");
}

#[test]
fn plain_hosts_join_with_a_colon() {
    assert_eq!(tcp_connect_addr("example.com", 80), "example.com:80");
    assert_eq!(tcp_connect_addr("127.0.0.1", 65535), "127.0.0.1:65535");
    assert_eq!(tcp_connect_addr("db", 1), "db:1");
}

#[test]
fn icons_and_kind_names_follow_the_check() {
    let h = Target { name: "web".to_string(), check: Check::Http { url: "http://x/".to_string() } };
    let t = Target { name: "db".to_string(), check: Check::Tcp { host: "h".to_string(), port: 1 } };
    assert_eq!(h.icon(), "🌐");
    assert_eq!(t.icon(), "🔌");
    assert_eq!(h.kind_name(), "http");
    assert_eq!(t.kind_name(), "tcp");
}
