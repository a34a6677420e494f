use vstd::prelude::*;

verus! {

/// The error taxonomy of the tool.
///
/// A missing project identifier or token is a configuration error; a
/// network-level failure or non-success response is a transport error; a
/// body that does not decode into the expected shape is a parse error;
/// and a present `finished_at` that is not valid RFC 3339 is a timestamp
/// parse error.  Each variant carries a descriptive message.
#[derive(Debug, Clone, PartialEq, Eq)]
pub enum GlpError {
    Config(String),
    Transport(String),
    Parse(String),
    TimestampParse(String),
}

impl GlpError {
    /// The message carried by the error.
    pub open spec fn text(self) -> Seq<char> {
        match self {
            GlpError::Config(s) => s@,
            GlpError::Transport(s) => s@,
            GlpError::Parse(s) => s@,
            GlpError::TimestampParse(s) => s@,
        }
    }

    pub fn message(&self) -> (r: &str)
        ensures
            r@ == self.text(),
    {
        match self {
            GlpError::Config(s) => s.as_str(),
            GlpError::Transport(s) => s.as_str(),
            GlpError::Parse(s) => s.as_str(),
            GlpError::TimestampParse(s) => s.as_str(),
        }
    }
}

} // verus!
