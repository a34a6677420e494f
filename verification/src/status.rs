use vstd::prelude::*;
use vstd::string::StringExecFns;

verus! {

/// One job or pipeline status as the remote API reports it.
///
/// The known values get their own variants; anything else is kept
/// verbatim in `Other`, so unrecognized future statuses pass through
/// unchanged.
#[derive(Debug, Clone, PartialEq, Eq)]
pub enum Status {
    Success,
    Failed,
    Running,
    Manual,
    Unknown,
    Other(String),
}

impl Status {
    /// The raw text this status stands for.
    pub open spec fn text(self) -> Seq<char> {
        match self {
            Status::Success => "success"@,
            Status::Failed => "failed"@,
            Status::Running => "running"@,
            Status::Manual => "manual"@,
            Status::Unknown => "unknown"@,
            Status::Other(s) => s@,
        }
    }

    /// A well-formed `Other` never shadows a known status, so matching
    /// on the variant agrees with matching on the raw text.
    pub open spec fn wf(self) -> bool {
        match self {
            Status::Other(s) => {
                &&& s@ != "success"@
                &&& s@ != "failed"@
                &&& s@ != "running"@
                &&& s@ != "manual"@
                &&& s@ != "unknown"@
            },
            _ => true,
        }
    }

    /// Classifies a raw status string.
    pub fn from_text(s: String) -> (r: Status)
        ensures
            r.wf(),
            r.text() == s@,
    {
        if s == String::from_str("success") {
            Status::Success
        } else if s == String::from_str("failed") {
            Status::Failed
        } else if s == String::from_str("running") {
            Status::Running
        } else if s == String::from_str("manual") {
            Status::Manual
        } else if s == String::from_str("unknown") {
            Status::Unknown
        } else {
            Status::Other(s)
        }
    }

    pub fn is_running(&self) -> (r: bool)
        ensures
            r == (*self is Running),
    {
        match self {
            Status::Running => true,
            _ => false,
        }
    }

    pub fn is_failed(&self) -> (r: bool)
        ensures
            r == (*self is Failed),
    {
        match self {
            Status::Failed => true,
            _ => false,
        }
    }

    pub fn is_success(&self) -> (r: bool)
        ensures
            r == (*self is Success),
    {
        match self {
            Status::Success => true,
            _ => false,
        }
    }

    /// The raw text back out; `from_text` and `as_text` round-trip.
    pub fn as_text(&self) -> (r: &str)
        ensures
            r@ == self.text(),
    {
        match self {
            Status::Success => "success",
            Status::Failed => "failed",
            Status::Running => "running",
            Status::Manual => "manual",
            Status::Unknown => "unknown",
            Status::Other(s) => s.as_str(),
        }
    }
}

} // verus!
