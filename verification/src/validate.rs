use vstd::prelude::*;
use crate::target::{Check, CheckKind, Target};

verus! {

/// One configuration argument value, as the loader hands it over: a string,
/// a number that fits an unsigned 64-bit integer, a number that does not
/// (negative, fractional or too large), or any other value.
pub enum ArgValue {
    Str(String),
    Int(u64),
    OtherNum,
    Other,
}

/// One raw target record from the configuration file: display name, check
/// kind string, and named arguments in file order.  A configuration mapping
/// cannot repeat a key, so the argument keys are distinct.
pub struct RawTarget {
    pub name: String,
    pub kind: String,
    pub args: Vec<(String, ArgValue)>,
}

/// The named argument a validation error refers to.
#[derive(Clone, Copy, PartialEq, Eq, Structural, Debug)]
pub enum ArgName {
    Url,
    Host,
    Port,
}

/// Why a raw record was rejected; `idx` is the 1-based position of the
/// record in the file.  Rendering a message out of it is a presentation
/// concern.
#[derive(Debug)]
pub enum ValidationError {
    UnsupportedType { idx: usize, found: String },
    UnknownArg { idx: usize, kind: CheckKind, key: String },
    MissingArg { idx: usize, kind: CheckKind, arg: ArgName },
    NotAString { idx: usize, kind: CheckKind, arg: ArgName },
    PortNotANumber { idx: usize },
    PortOutOfRange { idx: usize },
}

/// Some argument carries this key.
pub open spec fn spec_has_key(args: Seq<(String, ArgValue)>, key: Seq<char>) -> bool {
    exists|i: int| 0 <= i < args.len() && (#[trigger] args[i]).0@ == key
}

/// The value bound to `key`; with distinct keys the binding is unique.
pub open spec fn spec_lookup(args: Seq<(String, ArgValue)>, key: Seq<char>) -> ArgValue {
    args[choose|i: int| 0 <= i < args.len() && (#[trigger] args[i]).0@ == key].1
}

/// No two arguments carry the same key.
pub open spec fn spec_keys_distinct(args: Seq<(String, ArgValue)>) -> bool {
    forall|i: int, j: int|
        #![trigger args[i], args[j]]
        0 <= i < j < args.len() ==> args[i].0@ != args[j].0@
}

/// The argument keys each check kind accepts: `url` for HTTP; `host` and
/// `port` for TCP.
pub open spec fn spec_key_allowed(key: Seq<char>, kind: CheckKind) -> bool {
    match kind {
        CheckKind::Http => key == "url"@,
        CheckKind::Tcp => key == "host"@ || key == "port"@,
    }
}

/// Every argument key is accepted for this check kind.
pub open spec fn spec_args_allowed(args: Seq<(String, ArgValue)>, kind: CheckKind) -> bool {
    forall|i: int| 0 <= i < args.len() ==> spec_key_allowed((#[trigger] args[i]).0@, kind)
}

pub open spec fn spec_is_http_kind(t: RawTarget) -> bool {
    t.kind@ == "http"@
}

pub open spec fn spec_is_tcp_kind(t: RawTarget) -> bool {
    t.kind@ == "tcp"@
}

/// A usable port argument: a number that fits an unsigned 64-bit integer and
/// lies in [1, 65535].
pub open spec fn spec_port_ok(v: ArgValue) -> bool {
    v matches ArgValue::Int(p) && 1 <= p <= 65535
}

/// The records the validator accepts.
pub open spec fn spec_valid(t: RawTarget) -> bool {
    if spec_is_http_kind(t) {
        &&& spec_args_allowed(t.args@, CheckKind::Http)
        &&& spec_has_key(t.args@, "url"@)
        &&& spec_lookup(t.args@, "url"@) matches ArgValue::Str(_)
    } else if spec_is_tcp_kind(t) {
        &&& spec_args_allowed(t.args@, CheckKind::Tcp)
        &&& spec_has_key(t.args@, "host"@)
        &&& spec_lookup(t.args@, "host"@) matches ArgValue::Str(_)
        &&& spec_has_key(t.args@, "port"@)
        &&& spec_port_ok(spec_lookup(t.args@, "port"@))
    } else {
        false
    }
}

/// The target a valid record turns into: the same name, and the check built
/// from the record's own argument values.
pub open spec fn spec_converted(t: RawTarget, tt: Target) -> bool {
    &&& tt.name@ == t.name@
    &&& spec_is_http_kind(t) ==> (tt.check matches Check::Http { url } && (spec_lookup(
        t.args@,
        "url"@,
    ) matches ArgValue::Str(u) && u@ == url@))
    &&& !spec_is_http_kind(t) && spec_is_tcp_kind(t) ==> (tt.check matches Check::Tcp {
        host,
        port,
    } && (spec_lookup(t.args@, "host"@) matches ArgValue::Str(h) && h@ == host@) && spec_lookup(
        t.args@,
        "port"@,
    ) == ArgValue::Int(port as u64))
}

/// Position `p` holds the first argument whose key the kind does not accept.
pub open spec fn spec_first_unknown(args: Seq<(String, ArgValue)>, kind: CheckKind, p: int) -> bool {
    &&& 0 <= p < args.len()
    &&& !spec_key_allowed(args[p].0@, kind)
    &&& forall|q: int| 0 <= q < p ==> spec_key_allowed((#[trigger] args[q]).0@, kind)
}

/// Exactly the error the validator reports for record `t` at 1-based
/// position `idx` — each variant paired with the condition that raises it,
/// in the order the checks run: kind, unknown args, then per-kind required
/// arguments (for TCP: host before port).
pub open spec fn spec_error_for(t: RawTarget, idx: int, e: ValidationError) -> bool {
    match e {
        ValidationError::UnsupportedType { idx: ei, found } => {
            &&& ei == idx
            &&& found@ == t.kind@
            &&& !spec_is_http_kind(t) && !spec_is_tcp_kind(t)
        },
        ValidationError::UnknownArg { idx: ei, kind, key } => {
            &&& ei == idx
            &&& (if spec_is_http_kind(t) {
                kind == CheckKind::Http
            } else {
                spec_is_tcp_kind(t) && kind == CheckKind::Tcp
            })
            &&& exists|p: int|
                #![trigger t.args@[p]]
                spec_first_unknown(t.args@, kind, p) && key@ == t.args@[p].0@
        },
        ValidationError::MissingArg { idx: ei, kind, arg } => {
            &&& ei == idx
            &&& (if spec_is_http_kind(t) {
                &&& kind == CheckKind::Http
                &&& arg == ArgName::Url
                &&& spec_args_allowed(t.args@, CheckKind::Http)
                &&& !spec_has_key(t.args@, "url"@)
            } else {
                &&& spec_is_tcp_kind(t)
                &&& kind == CheckKind::Tcp
                &&& spec_args_allowed(t.args@, CheckKind::Tcp)
                &&& (if arg == ArgName::Host {
                    !spec_has_key(t.args@, "host"@)
                } else {
                    &&& arg == ArgName::Port
                    &&& spec_has_key(t.args@, "host"@)
                    &&& spec_lookup(t.args@, "host"@) matches ArgValue::Str(_)
                    &&& !spec_has_key(t.args@, "port"@)
                })
            })
        },
        ValidationError::NotAString { idx: ei, kind, arg } => {
            &&& ei == idx
            &&& (if spec_is_http_kind(t) {
                &&& kind == CheckKind::Http
                &&& arg == ArgName::Url
                &&& spec_args_allowed(t.args@, CheckKind::Http)
                &&& spec_has_key(t.args@, "url"@)
                &&& !(spec_lookup(t.args@, "url"@) matches ArgValue::Str(_))
            } else {
                &&& spec_is_tcp_kind(t)
                &&& kind == CheckKind::Tcp
                &&& arg == ArgName::Host
                &&& spec_args_allowed(t.args@, CheckKind::Tcp)
                &&& spec_has_key(t.args@, "host"@)
                &&& !(spec_lookup(t.args@, "host"@) matches ArgValue::Str(_))
            })
        },
        ValidationError::PortNotANumber { idx: ei } => {
            &&& ei == idx
            &&& !spec_is_http_kind(t) && spec_is_tcp_kind(t)
            &&& spec_args_allowed(t.args@, CheckKind::Tcp)
            &&& spec_has_key(t.args@, "host"@)
            &&& spec_lookup(t.args@, "host"@) matches ArgValue::Str(_)
            &&& spec_has_key(t.args@, "port"@)
            &&& (spec_lookup(t.args@, "port"@) matches ArgValue::Str(_) || spec_lookup(
                t.args@,
                "port"@,
            ) matches ArgValue::Other)
        },
        ValidationError::PortOutOfRange { idx: ei } => {
            &&& ei == idx
            &&& !spec_is_http_kind(t) && spec_is_tcp_kind(t)
            &&& spec_args_allowed(t.args@, CheckKind::Tcp)
            &&& spec_has_key(t.args@, "host"@)
            &&& spec_lookup(t.args@, "host"@) matches ArgValue::Str(_)
            &&& spec_has_key(t.args@, "port"@)
            &&& (spec_lookup(t.args@, "port"@) matches ArgValue::OtherNum || (spec_lookup(
                t.args@,
                "port"@,
            ) matches ArgValue::Int(p) && !(1 <= p <= 65535)))
        },
    }
}

/// Compare a string's characters against a literal's.
fn str_is(s: &String, lit: &str) -> (r: bool)
    ensures
        r == (s@ == lit@),
{
    let o: String = lit.to_owned();
    *s == o
}

/// With distinct keys, a key found at `j` is the key looked up.
proof fn lemma_lookup_at(args: Seq<(String, ArgValue)>, key: Seq<char>, j: int)
    requires
        spec_keys_distinct(args),
        0 <= j < args.len(),
        args[j].0@ == key,
    ensures
        spec_has_key(args, key),
        spec_lookup(args, key) == args[j].1,
{
    assert(spec_has_key(args, key));
    let c = choose|i: int| 0 <= i < args.len() && (#[trigger] args[i]).0@ == key;
    if c != j {
        assert(args[c].0@ != args[j].0@);
    }
}

/// Reject the first argument, in file order, whose key the kind does not
/// accept.
fn check_unknown_args(args: &Vec<(String, ArgValue)>, kind: CheckKind, idx: usize) -> (r: Result<
    (),
    ValidationError,
>)
    ensures
        (r matches Ok(_)) == spec_args_allowed(args@, kind),
        r matches Err(e) ==> e matches ValidationError::UnknownArg { idx: ei, kind: ek, key }
            && ei == idx && ek == kind && (exists|p: int|
            #![trigger args@[p]]
            spec_first_unknown(args@, kind, p) && key@ == args@[p].0@),
{
    let mut i: usize = 0;
    while i < args.len()
        invariant
            i <= args@.len(),
            forall|q: int| 0 <= q < i ==> spec_key_allowed((#[trigger] args@[q]).0@, kind),
        decreases args@.len() - i,
    {
        let allowed = match kind {
            CheckKind::Http => str_is(&args[i].0, "url"),
            CheckKind::Tcp => str_is(&args[i].0, "host") || str_is(&args[i].0, "port"),
        };
        if !allowed {
            proof {
                assert(spec_first_unknown(args@, kind, i as int));
            }
            return Err(ValidationError::UnknownArg { idx, kind, key: args[i].0.clone() });
        }
        i += 1;
    }
    Ok(())
}

/// Index of the argument carrying `key`, if any.
fn find_index(args: &Vec<(String, ArgValue)>, key: &str) -> (r: Option<usize>)
    ensures
        r matches Some(j) ==> j < args@.len() && args@[j as int].0@ == key@,
        r is None ==> !spec_has_key(args@, key@),
{
    let mut i: usize = 0;
    while i < args.len()
        invariant
            i <= args@.len(),
            forall|q: int| 0 <= q < i ==> (#[trigger] args@[q]).0@ != key@,
        decreases args@.len() - i,
    {
        if str_is(&args[i].0, key) {
            return Some(i);
        }
        i += 1;
    }
    None
}

/// Copy the string value of the argument at `j`.
fn clone_string_at(args: &Vec<(String, ArgValue)>, j: usize) -> (s: String)
    requires
        j < args@.len(),
        args@[j as int].1 matches ArgValue::Str(_),
    ensures
        args@[j as int].1 matches ArgValue::Str(u) && u@ == s@,
{
    match &args[j].1 {
        ArgValue::Str(u) => u.clone(),
        _ => {
            proof {
                assert(false);
            }
            String::new()
        },
    }
}

/// Validate one raw record at 1-based position `idx`: accepted exactly when
/// `spec_valid` holds, and then converted per `spec_converted`; otherwise
/// rejected with exactly the error `spec_error_for` pins down.
fn validate_one(t: &RawTarget, idx: usize) -> (r: Result<Target, ValidationError>)
    requires
        spec_keys_distinct(t.args@),
    ensures
        (r matches Ok(_)) == spec_valid(*t),
        r matches Ok(tt) ==> spec_converted(*t, tt),
        r matches Err(e) ==> spec_error_for(*t, idx as int, e),
{
    let is_http = str_is(&t.kind, "http");
    let is_tcp = str_is(&t.kind, "tcp");
    if !is_http && !is_tcp {
        return Err(ValidationError::UnsupportedType { idx, found: t.kind.clone() });
    }
    if is_http {
        match check_unknown_args(&t.args, CheckKind::Http, idx) {
            Ok(_) => {},
            Err(e) => {
                return Err(e);
            },
        }
        let j = match find_index(&t.args, "url") {
            Some(j) => j,
            None => {
                return Err(
                    ValidationError::MissingArg { idx, kind: CheckKind::Http, arg: ArgName::Url },
                );
            },
        };
        proof {
            lemma_lookup_at(t.args@, "url"@, j as int);
        }
        if !matches!(&t.args[j].1, ArgValue::Str(_)) {
            return Err(
                ValidationError::NotAString { idx, kind: CheckKind::Http, arg: ArgName::Url },
            );
        }
        let url = clone_string_at(&t.args, j);
        Ok(Target { name: t.name.clone(), check: Check::Http { url } })
    } else {
        match check_unknown_args(&t.args, CheckKind::Tcp, idx) {
            Ok(_) => {},
            Err(e) => {
                return Err(e);
            },
        }
        let jh = match find_index(&t.args, "host") {
            Some(j) => j,
            None => {
                return Err(
                    ValidationError::MissingArg { idx, kind: CheckKind::Tcp, arg: ArgName::Host },
                );
            },
        };
        proof {
            lemma_lookup_at(t.args@, "host"@, jh as int);
        }
        if !matches!(&t.args[jh].1, ArgValue::Str(_)) {
            return Err(
                ValidationError::NotAString { idx, kind: CheckKind::Tcp, arg: ArgName::Host },
            );
        }
        let jp = match find_index(&t.args, "port") {
            Some(j) => j,
            None => {
                return Err(
                    ValidationError::MissingArg { idx, kind: CheckKind::Tcp, arg: ArgName::Port },
                );
            },
        };
        proof {
            lemma_lookup_at(t.args@, "port"@, jp as int);
        }
        let port: u16 = match &t.args[jp].1 {
            ArgValue::Int(v) => {
                let v: u64 = *v;
                if 1 <= v && v <= 65535 {
                    v as u16
                } else {
                    return Err(ValidationError::PortOutOfRange { idx });
                }
            },
            ArgValue::OtherNum => {
                return Err(ValidationError::PortOutOfRange { idx });
            },
            _ => {
                return Err(ValidationError::PortNotANumber { idx });
            },
        };
        let host = clone_string_at(&t.args, jh);
        Ok(Target { name: t.name.clone(), check: Check::Tcp { host, port } })
    }
}

/// Validate the whole raw target list, in order, stopping at the first bad
/// record: accepted exactly when every record is valid, and then converted
/// record by record; otherwise rejected with the first bad record's error.
pub fn validate_targets(raw_targets: Vec<RawTarget>) -> (r: Result<Vec<Target>, ValidationError>)
    requires
        forall|i: int|
            0 <= i < raw_targets@.len() ==> spec_keys_distinct(
                (#[trigger] raw_targets@[i]).args@,
            ),
    ensures
        (r matches Ok(_)) == (forall|i: int|
            0 <= i < raw_targets@.len() ==> spec_valid(#[trigger] raw_targets@[i])),
        r matches Ok(ts) ==> ts@.len() == raw_targets@.len() && (forall|i: int|
            0 <= i < ts@.len() ==> spec_converted(raw_targets@[i], #[trigger] ts@[i])),
        r matches Err(e) ==> exists|i: int|
            #![trigger raw_targets@[i]]
            0 <= i < raw_targets@.len() && !spec_valid(raw_targets@[i]) && (forall|j: int|
                0 <= j < i ==> spec_valid(#[trigger] raw_targets@[j])) && spec_error_for(
                raw_targets@[i],
                i + 1,
                e,
            ),
{
    let mut targets: Vec<Target> = Vec::new();
    let mut i: usize = 0;
    while i < raw_targets.len()
        invariant
            i <= raw_targets@.len(),
            targets@.len() == i,
            forall|q: int|
                0 <= q < raw_targets@.len() ==> spec_keys_distinct(
                    (#[trigger] raw_targets@[q]).args@,
                ),
            forall|j: int| 0 <= j < i ==> spec_valid(#[trigger] raw_targets@[j]),
            forall|j: int| 0 <= j < i ==> spec_converted(raw_targets@[j], #[trigger] targets@[j]),
        decreases raw_targets@.len() - i,
    {
        let idx = i + 1;
        match validate_one(&raw_targets[i], idx) {
            Ok(tt) => {
                targets.push(tt);
            },
            Err(e) => {
                proof {
                    assert(!spec_valid(raw_targets@[i as int]));
                    assert(spec_error_for(raw_targets@[i as int], i as int + 1, e));
                }
                return Err(e);
            },
        }
        i += 1;
    }
    Ok(targets)
}

} // verus!
