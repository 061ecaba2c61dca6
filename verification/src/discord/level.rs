//! Severity of alerts.
use std::cmp::Ordering;
use vstd::prelude::*;

verus! {

/// Alert severity level
#[derive(Debug, Clone, Copy, PartialEq, Eq, Ord, Hash, Structural)]
pub enum AlertLevel {
    /// Informational alerts (trades, opportunities)
    Info,
    /// Warning alerts (rate limits, minor errors)
    Warning,
    /// Critical alerts (circuit breaker, crashes)
    Critical,
}

impl Default for AlertLevel {
    fn default() -> (r: Self)
        ensures
            r == AlertLevel::Info,
    {
        AlertLevel::Info
    }
}

impl AlertLevel {
    /// The place of the level in the order of severity.
    pub open spec fn severity(self) -> u8 {
        match self {
            AlertLevel::Info => 0,
            AlertLevel::Warning => 1,
            AlertLevel::Critical => 2,
        }
    }

    fn rank(&self) -> (r: u8)
        ensures
            r == self.severity(),
    {
        match self {
            AlertLevel::Info => 0,
            AlertLevel::Warning => 1,
            AlertLevel::Critical => 2,
        }
    }

    /// The Discord embed color.
    pub open spec fn embed_color(self) -> u32 {
        match self {
            AlertLevel::Info => 0x3498DB,
            AlertLevel::Warning => 0xF39C12,
            AlertLevel::Critical => 0xE74C3C,
        }
    }

    /// The human-readable name.
    pub open spec fn name(self) -> Seq<char> {
        match self {
            AlertLevel::Info => "Info"@,
            AlertLevel::Warning => "Warning"@,
            AlertLevel::Critical => "Critical"@,
        }
    }

    /// Get Discord embed color for this alert level
    pub fn color(&self) -> (r: u32)
        ensures
            r == self.embed_color(),
    {
        match self {
            AlertLevel::Info => 0x3498DB,
            AlertLevel::Warning => 0xF39C12,
            AlertLevel::Critical => 0xE74C3C,
        }
    }

    /// Get emoji for this alert level: none of them has one
    pub fn emoji(&self) -> (r: &'static str)
        ensures
            r@ == ""@,
    {
        match self {
            AlertLevel::Info => "",
            AlertLevel::Warning => "",
            AlertLevel::Critical => "",
        }
    }

    /// Get human-readable name
    pub fn as_str(&self) -> (r: &'static str)
        ensures
            r@ == self.name(),
    {
        match self {
            AlertLevel::Info => "Info",
            AlertLevel::Warning => "Warning",
            AlertLevel::Critical => "Critical",
        }
    }
}

impl PartialOrd for AlertLevel {
    fn partial_cmp(&self, other: &Self) -> (r: Option<Ordering>) {
        let a: u8 = self.rank();
        let b: u8 = other.rank();
        if a < b {
            Some(Ordering::Less)
        } else if a > b {
            Some(Ordering::Greater)
        } else {
            Some(Ordering::Equal)
        }
    }
}

impl vstd::std_specs::cmp::PartialOrdSpecImpl for AlertLevel {
    open spec fn obeys_partial_cmp_spec() -> bool {
        true
    }

    open spec fn partial_cmp_spec(&self, other: &Self) -> Option<Ordering> {
        if self.severity() < other.severity() {
            Some(Ordering::Less)
        } else if self.severity() > other.severity() {
            Some(Ordering::Greater)
        } else {
            Some(Ordering::Equal)
        }
    }
}

/// Two levels of the same severity are the same level.
pub proof fn law_severity_tells_levels_apart(a: AlertLevel, b: AlertLevel)
    ensures
        a.severity() == b.severity() <==> a == b,
{
}

} // verus!
