//! Leveled logging decisions and search telemetry.
//!
//! The library decides what a level is called, how a level name is read,
//! and whether a message at one level passes a given threshold; where the
//! threshold lives and where messages go is the application's business.

use crate::moves::{ascii_lower, lower_ascii};
use crate::search::{elapsed_ms, instant_now};
use crate::text::{str_chars, trim, trim_chars};
use std::time::Instant;
use vstd::prelude::*;

verus! {

/// Severity levels, ordered from most to least severe.
#[derive(Clone, Copy, PartialEq, Eq, PartialOrd, Ord, Debug, Structural)]
pub enum Level {
    Off,
    Error,
    Warn,
    Info,
    Debug,
    Trace,
}

/// The lowercase form of an ASCII string.
pub open spec fn lower_seq(s: Seq<char>) -> Seq<char> {
    Seq::new(s.len(), |i: int| ascii_lower(s[i]))
}

impl Level {
    /// The position of a level in the severity order (`Off` is 0).
    pub open spec fn spec_rank(self) -> u8 {
        match self {
            Level::Off => 0,
            Level::Error => 1,
            Level::Warn => 2,
            Level::Info => 3,
            Level::Debug => 4,
            Level::Trace => 5,
        }
    }

    /// The position of a level in the severity order (`Off` is 0).
    #[verifier::when_used_as_spec(spec_rank)]
    pub fn rank(self) -> (r: u8)
        ensures
            r == self.spec_rank(),
    {
        match self {
            Level::Off => 0,
            Level::Error => 1,
            Level::Warn => 2,
            Level::Info => 3,
            Level::Debug => 4,
            Level::Trace => 5,
        }
    }

    /// The level at position `r` of the severity order; `Off` past the end.
    pub fn from_rank(r: u8) -> (l: Level)
        ensures
            r <= 5 ==> l.spec_rank() == r,
            r > 5 ==> l == Level::Off,
    {
        if r == 1 {
            Level::Error
        } else if r == 2 {
            Level::Warn
        } else if r == 3 {
            Level::Info
        } else if r == 4 {
            Level::Debug
        } else if r == 5 {
            Level::Trace
        } else {
            Level::Off
        }
    }

    /// The level a (case-insensitive, whitespace-trimmed) name denotes.
    pub open spec fn parse_spec(s: Seq<char>) -> Level {
        let t = lower_seq(trim(s));
        if t == "off"@ || t == "0"@ {
            Level::Off
        } else if t == "error"@ {
            Level::Error
        } else if t == "warn"@ || t == "warning"@ {
            Level::Warn
        } else if t == "info"@ {
            Level::Info
        } else if t == "debug"@ {
            Level::Debug
        } else if t == "trace"@ {
            Level::Trace
        } else {
            Level::Info
        }
    }

    /// Read a level name: `off`/`0`, `error`, `warn`/`warning`, `info`,
    /// `debug`, `trace` in any case, surrounding whitespace ignored; anything
    /// else is `Info`.
    pub fn from_str(s: &str) -> (l: Level)
        ensures
            l == Level::parse_spec(s@),
    {
        let raw = str_chars(s);
        let t = trim_chars(raw.as_slice());
        let mut low: Vec<char> = Vec::new();
        let mut i: usize = 0;
        while i < t.len()
            invariant
                i <= t.len(),
                low@ == lower_seq(t@.subrange(0, i as int)),
            decreases t.len() - i,
        {
            low.push(lower_ascii(t[i]));
            i = i + 1;
            assert(low@ =~= lower_seq(t@.subrange(0, i as int)));
        }
        assert(t@.subrange(0, t@.len() as int) =~= t@);
        let l = low.as_slice();
        proof {
            reveal_strlit("off");
            reveal_strlit("0");
            reveal_strlit("error");
            reveal_strlit("warn");
            reveal_strlit("warning");
            reveal_strlit("info");
            reveal_strlit("debug");
            reveal_strlit("trace");
        }
        if crate::text::chars_eq_str(l, "off") || crate::text::chars_eq_str(l, "0") {
            Level::Off
        } else if crate::text::chars_eq_str(l, "error") {
            Level::Error
        } else if crate::text::chars_eq_str(l, "warn") || crate::text::chars_eq_str(l, "warning") {
            Level::Warn
        } else if crate::text::chars_eq_str(l, "info") {
            Level::Info
        } else if crate::text::chars_eq_str(l, "debug") {
            Level::Debug
        } else if crate::text::chars_eq_str(l, "trace") {
            Level::Trace
        } else {
            Level::Info
        }
    }

    /// The level's name in capitals.
    pub fn label(self) -> (s: &'static str)
        ensures
            s@ == match self {
                Level::Off => "OFF"@,
                Level::Error => "ERROR"@,
                Level::Warn => "WARN"@,
                Level::Info => "INFO"@,
                Level::Debug => "DEBUG"@,
                Level::Trace => "TRACE"@,
            },
    {
        match self {
            Level::Off => "OFF",
            Level::Error => "ERROR",
            Level::Warn => "WARN",
            Level::Info => "INFO",
            Level::Debug => "DEBUG",
            Level::Trace => "TRACE",
        }
    }
}

/// A message at `lvl` passes the threshold `active` when it is at least as
/// severe (no later in the order).
pub fn enabled_at(lvl: Level, active: Level) -> (r: bool)
    ensures
        r == (lvl.spec_rank() <= active.spec_rank()),
{
    lvl.rank() <= active.rank()
}

/// Aggregated counters for one search.
#[derive(Clone, Copy, Debug, Default)]
pub struct SearchTelemetry {
    pub nodes: u64,
    pub qnodes: u64,
    pub tt_hits: u64,
    pub tt_probes: u64,
    pub beta_cutoffs: u64,
    /// Of the beta cutoffs, how many came on the first move searched.
    pub first_move_cutoffs: u64,
    pub elapsed_ms: u128,
}

impl SearchTelemetry {
    /// Nodes per second, `nodes * 1000 / elapsed_ms` truncated to 64 bits,
    /// or 0 when no time has elapsed.
    pub fn nps(&self) -> (r: u64)
        ensures
            self.elapsed_ms == 0 ==> r == 0,
            self.elapsed_ms > 0 ==> r == ((self.nodes as int * 1000) / (self.elapsed_ms as int)) as u64,
    {
        let scaled: u128 = self.nodes as u128 * 1000;
        if self.elapsed_ms == 0 {
            0
        } else {
            (scaled / self.elapsed_ms) as u64
        }
    }
}

/// A stopwatch with a label, started when made.
pub struct Timer {
    label: &'static str,
    start: Instant,
}

impl Timer {
    /// The label.
    pub closed spec fn label_view(&self) -> Seq<char> {
        self.label@
    }

    /// A stopwatch started now. Nothing is stated of the instant it holds.
    pub fn new(label: &'static str) -> (t: Timer)
        ensures
            t.label_view() == label@,
    {
        Timer { label, start: instant_now() }
    }

    /// The label.
    pub fn label(&self) -> (r: &'static str)
        ensures
            r@ == self.label_view(),
    {
        self.label
    }

    /// Whole milliseconds since the stopwatch started; it reads the clock,
    /// so nothing is stated of it.
    pub fn elapsed_ms(&self) -> u128 {
        elapsed_ms(&self.start)
    }
}

} // verus!
