use vstd::prelude::*;

verus! {

/// How a target is probed: an HTTP GET against a URL, or a raw TCP
/// connection attempt against a host and port.
#[derive(Clone)]
pub enum Check {
    Http { url: String },
    Tcp { host: String, port: u16 },
}

/// Just the kind of a check, without its parameters.
#[derive(Clone, Copy, PartialEq, Eq, Structural, Debug)]
pub enum CheckKind {
    Http,
    Tcp,
}

/// A named entity to be health-checked.  Created once from validated
/// configuration and never mutated afterwards.
#[derive(Clone)]
pub struct Target {
    pub name: String,
    pub check: Check,
}

impl Target {
    pub open spec fn is_http(self) -> bool {
        self.check matches Check::Http { .. }
    }

    pub open spec fn spec_kind(self) -> CheckKind {
        if self.is_http() {
            CheckKind::Http
        } else {
            CheckKind::Tcp
        }
    }

    /// The kind of this target's check.
    pub fn kind(&self) -> (k: CheckKind)
        ensures
            k == self.spec_kind(),
    {
        match self.check {
            Check::Http { .. } => CheckKind::Http,
            Check::Tcp { .. } => CheckKind::Tcp,
        }
    }

    /// Display icon for the target's check kind.
    pub fn icon(&self) -> (r: &'static str)
        ensures
            r@ == (if self.is_http() {
                "🌐"@
            } else {
                "🔌"@
            }),
    {
        match self.check {
            Check::Http { .. } => "🌐",
            Check::Tcp { .. } => "🔌",
        }
    }

    /// Short label for the target's check kind.
    pub fn kind_name(&self) -> (r: &'static str)
        ensures
            r@ == (if self.is_http() {
                "http"@
            } else {
                "tcp"@
            }),
    {
        match self.check {
            Check::Http { .. } => "http",
            Check::Tcp { .. } => "tcp",
        }
    }
}

} // verus!
