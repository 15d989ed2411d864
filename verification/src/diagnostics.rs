//! Diagnostics raised by entry discovery and chunking, and the build error
//! taxonomy. A fatal diagnostic aborts the whole build; diagnostics collected
//! up to that point are reported together, never one at a time.

use vstd::prelude::*;

verus! {

#[derive(Clone, Copy, Debug, PartialEq, Eq, Structural)]
pub enum IssueSeverity {
    Bug,
    Fatal,
    Error,
    Warning,
    Hint,
    Note,
    Suggestion,
    Info,
}

/// One diagnostic reported by a compilation or resolution step.
#[derive(Debug, Clone)]
pub struct Issue {
    pub severity: IssueSeverity,
    pub message: String,
}

/// A severity at or above error strength aborts the build.
pub open spec fn severity_is_fatal(s: IssueSeverity) -> bool {
    s == IssueSeverity::Bug || s == IssueSeverity::Fatal || s == IssueSeverity::Error
}

impl Issue {
    pub open spec fn is_fatal(self) -> bool {
        severity_is_fatal(self.severity)
    }
}

pub open spec fn spec_has_fatal(issues: Seq<Issue>) -> bool {
    exists|i: int| 0 <= i < issues.len() && issues[i].is_fatal()
}

/// Why a build resolved to failure.
#[derive(Debug)]
pub enum BuildError {
    /// The project path is not nested under the configured root.
    Confinement,
    /// A step reported at least one error-severity diagnostic; all diagnostics
    /// collected up to the abort are carried together.
    FatalDiagnostic { issues: Vec<Issue> },
}

pub fn severity_is_fatal_exec(s: IssueSeverity) -> (r: bool)
    ensures
        r == severity_is_fatal(s),
{
    s == IssueSeverity::Bug || s == IssueSeverity::Fatal || s == IssueSeverity::Error
}

pub fn has_fatal_issue(issues: &Vec<Issue>) -> (r: bool)
    ensures
        r == spec_has_fatal(issues@),
{
    let mut i: usize = 0;
    while i < issues.len()
        invariant
            i <= issues@.len(),
            forall|j: int| 0 <= j < i ==> !issues@[j].is_fatal(),
        decreases issues@.len() - i,
    {
        if severity_is_fatal_exec(issues[i].severity) {
            return true;
        }
        i += 1;
    }
    false
}

/// `b` appended to `a`, by value: diagnostics from several concurrent steps
/// are aggregated before they are judged.
pub fn concat_issues(a: Vec<Issue>, b: Vec<Issue>) -> (r: Vec<Issue>)
    ensures
        r@ == a@ + b@,
{
    let mut out = a;
    let mut rest = b;
    while rest.len() > 0
        invariant
            out@ + rest@ == a@ + b@,
        decreases rest@.len(),
    {
        let x = rest.remove(0);
        out.push(x);
    }
    proof {
        assert(out@ =~= out@ + rest@);
    }
    out
}

/// Judges a batch of collected diagnostics: succeeds exactly when none is
/// fatal, and otherwise aborts carrying the whole batch.
pub fn handle_issues(issues: Vec<Issue>) -> (r: Result<(), BuildError>)
    ensures
        r is Ok <==> !spec_has_fatal(issues@),
        r is Err ==> r->Err_0 == (BuildError::FatalDiagnostic { issues }),
{
    if has_fatal_issue(&issues) {
        Err(BuildError::FatalDiagnostic { issues })
    } else {
        Ok(())
    }
}

} // verus!
