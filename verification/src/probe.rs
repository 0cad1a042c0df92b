use vstd::prelude::*;
use vstd::string::StrSliceExecFns;
use vstd::string::StringExecFns;

verus! {

/// An HTTP probe is healthy exactly when the numeric status code lies in
/// [200, 400).
pub open spec fn spec_http_healthy(status: u16) -> bool {
    200 <= status < 400
}

/// Classify a numeric HTTP status code.
pub fn http_status_healthy(status: u16) -> (r: bool)
    ensures
        r == spec_http_healthy(status),
{
    200 <= status && status < 400
}

/// Collapse an HTTP probe's outcome to a boolean: a response is healthy
/// exactly when its status lies in [200, 400); a transport failure (no
/// status at all: DNS, refusal, TLS, timeout) is unhealthy.
pub fn http_outcome_healthy(status: Option<u16>) -> (r: bool)
    ensures
        r == (status matches Some(s) && spec_http_healthy(s)),
{
    match status {
        Some(s) => http_status_healthy(s),
        None => false,
    }
}

/// A TCP probe is healthy exactly when the connection attempt completed.
pub fn tcp_outcome_healthy(connected: bool) -> (r: bool)
    ensures
        r == connected,
{
    connected
}

/// The decimal digit character for `d` in 0..10.
pub open spec fn digit_char(d: int) -> char {
    if d == 0 {
        '0'
    } else if d == 1 {
        '1'
    } else if d == 2 {
        '2'
    } else if d == 3 {
        '3'
    } else if d == 4 {
        '4'
    } else if d == 5 {
        '5'
    } else if d == 6 {
        '6'
    } else if d == 7 {
        '7'
    } else if d == 8 {
        '8'
    } else {
        '9'
    }
}

/// Decimal digits of `n`, most significant first, no leading zeros (a single
/// zero for 0).
pub open spec fn spec_decimal(n: int) -> Seq<char>
    recommends
        n >= 0,
    decreases n,
{
    if n < 10 {
        seq![digit_char(n)]
    } else {
        spec_decimal(n / 10).push(digit_char(n % 10))
    }
}

/// One decimal digit as a string slice.
fn digit_str(d: u16) -> (r: &'static str)
    requires
        d < 10,
    ensures
        r@ == seq![digit_char(d as int)],
{
    let s: &'static str = match d {
        0 => "0",
        1 => "1",
        2 => "2",
        3 => "3",
        4 => "4",
        5 => "5",
        6 => "6",
        7 => "7",
        8 => "8",
        _ => "9",
    };
    proof {
        reveal_strlit("0");
        reveal_strlit("1");
        reveal_strlit("2");
        reveal_strlit("3");
        reveal_strlit("4");
        reveal_strlit("5");
        reveal_strlit("6");
        reveal_strlit("7");
        reveal_strlit("8");
        reveal_strlit("9");
        assert(s@ =~= seq![digit_char(d as int)]);
    }
    s
}

/// Append the decimal rendering of `n` to `out`.
fn push_decimal(out: &mut String, n: u16)
    ensures
        final(out)@ == old(out)@ + spec_decimal(n as int),
    decreases n,
{
    if n < 10 {
        out.append(digit_str(n));
        proof {
            assert(final(out)@ =~= old(out)@ + spec_decimal(n as int));
        }
    } else {
        push_decimal(out, n / 10);
        out.append(digit_str(n % 10));
        proof {
            assert((n / 10) as int == n as int / 10);
            assert((n % 10) as int == n as int % 10);
            assert(final(out)@ =~= old(out)@ + spec_decimal(n as int));
        }
    }
}

/// Whether the host string contains a colon, marking an IPv6 literal.
fn contains_colon(host: &str) -> (r: bool)
    ensures
        r == host@.contains(':'),
{
    let n = host.unicode_len();
    let mut i: usize = 0;
    while i < n
        invariant
            n == host@.len(),
            i <= n,
            forall|j: int| 0 <= j < i ==> host@[j] != ':',
        decreases n - i,
    {
        if host.get_char(i) == ':' {
            assert(host@.contains(':'));
            return true;
        }
        i += 1;
    }
    assert(!host@.contains(':'));
    false
}

/// The authority string a TCP probe connects to: `host:port`, with the host
/// bracket-wrapped (`[host]:port`) when it holds a colon, per standard
/// authority syntax for IPv6 literals.
pub open spec fn spec_tcp_addr(host: Seq<char>, port: u16) -> Seq<char> {
    if host.contains(':') {
        seq!['['] + host + seq![']', ':'] + spec_decimal(port as int)
    } else {
        host + seq![':'] + spec_decimal(port as int)
    }
}

/// Build the connection address for a TCP check.
pub fn tcp_connect_addr(host: &str, port: u16) -> (addr: String)
    ensures
        addr@ == spec_tcp_addr(host@, port),
{
    let mut s = String::new();
    if contains_colon(host) {
        s.append("[");
        s.append(host);
        s.append("]:");
        push_decimal(&mut s, port);
        proof {
            reveal_strlit("[");
            reveal_strlit("]:");
            assert(s@ =~= spec_tcp_addr(host@, port));
        }
    } else {
        s.append(host);
        s.append(":");
        push_decimal(&mut s, port);
        proof {
            reveal_strlit(":");
            assert(s@ =~= spec_tcp_addr(host@, port));
        }
    }
    s
}

} // verus!
