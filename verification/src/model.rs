//! The input side of the summary: the diagnostic records the aggregation
//! pass consumes, the execution mode that gates which categories are
//! tallied, and the run-level counters forwarded to the summary renderer.

use vstd::prelude::*;

verus! {

/// Severity of a diagnostic, from the mildest to the most severe.
#[derive(Clone, Copy, Debug, PartialEq, Eq, Structural)]
pub enum Severity {
    Hint,
    Information,
    Warning,
    Error,
    Fatal,
}

impl Severity {
    /// Position in the severity order.
    pub open spec fn spec_rank(self) -> int {
        match self {
            Severity::Hint => 0,
            Severity::Information => 1,
            Severity::Warning => 2,
            Severity::Error => 3,
            Severity::Fatal => 4,
        }
    }

    fn rank(&self) -> (r: u8)
        ensures
            r as int == self.spec_rank(),
    {
        match self {
            Severity::Hint => 0,
            Severity::Information => 1,
            Severity::Warning => 2,
            Severity::Error => 3,
            Severity::Fatal => 4,
        }
    }

    /// Whether this severity reaches the threshold `min`.
    pub open spec fn spec_at_least(self, min: Severity) -> bool {
        self.spec_rank() >= min.spec_rank()
    }

    pub fn at_least(&self, min: &Severity) -> (r: bool)
        ensures
            r == self.spec_at_least(*min),
    {
        self.rank() >= min.rank()
    }
}

/// The operation the tool ran; it determines which diagnostic categories
/// are eligible for tallying.
#[derive(Clone, Copy, Debug, PartialEq, Eq, Structural)]
pub enum ExecutionMode {
    Check,
    Lint,
    Format,
    Ci,
}

impl ExecutionMode {
    pub fn is_check(&self) -> (r: bool)
        ensures
            r == (*self is Check),
    {
        matches!(self, ExecutionMode::Check)
    }

    pub fn is_lint(&self) -> (r: bool)
        ensures
            r == (*self is Lint),
    {
        matches!(self, ExecutionMode::Lint)
    }

    pub fn is_format(&self) -> (r: bool)
        ensures
            r == (*self is Format),
    {
        matches!(self, ExecutionMode::Format)
    }

    pub fn is_ci(&self) -> (r: bool)
        ensures
            r == (*self is Ci),
    {
        matches!(self, ExecutionMode::Ci)
    }
}

/// One reported issue, reduced to the fields the summary reads of it.
pub struct Diagnostic {
    /// The file the diagnostic points at, when its location resolves to one.
    pub file_path: Option<String>,
    /// The category name, such as a `lint/...` rule or a `format` issue.
    pub category: Option<String>,
    pub severity: Severity,
    /// Whether the diagnostic is surfaced only on request for verbose output.
    pub verbose: bool,
}

/// The diagnostic stream together with the display settings it was
/// produced under.
pub struct DiagnosticsPayload {
    pub diagnostics: Vec<Diagnostic>,
    /// Whether verbose output was requested.
    pub verbose: bool,
    /// The minimum severity a diagnostic needs to be tallied.
    pub diagnostic_level: Severity,
}

/// Run-level counters produced by the traversal layer, consumed read-only.
pub struct TraversalSummary {
    /// How many suggested (unsafe) fixes were skipped.
    pub suggested_fixes_skipped: usize,
    /// How many diagnostics the display cap withheld.
    pub diagnostics_not_printed: usize,
}

} // verus!
