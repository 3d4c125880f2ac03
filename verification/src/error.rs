//! Errors of searching and downloading.
use vstd::prelude::*;

verus! {

/// What can go wrong when searching or downloading.
#[derive(Debug, Clone, PartialEq, Eq)]
pub enum ArxivError {
    /// The request failed; the text is the transport's own description.
    Network(String),
    /// The response could not be read.
    Parse(String),
    /// The server has no paper under the id.
    PaperNotFound(String),
}

impl ArxivError {
    /// The human-readable description of the error.
    pub open spec fn spec_message(&self) -> Seq<char> {
        match self {
            ArxivError::Network(s) => "Network error: "@ + s@,
            ArxivError::Parse(s) => "Parse error: "@ + s@,
            ArxivError::PaperNotFound(s) => "Paper not found: "@ + s@,
        }
    }

    /// The human-readable description of the error.
    pub fn message(&self) -> (m: String)
        ensures
            m@ == self.spec_message(),
    {
        let (mut m, detail) = match self {
            ArxivError::Network(s) => (String::from_str("Network error: "), s),
            ArxivError::Parse(s) => (String::from_str("Parse error: "), s),
            ArxivError::PaperNotFound(s) => (String::from_str("Paper not found: "), s),
        };
        m.append(detail.as_str());
        m
    }
}

/// The detail that an error carries.
pub open spec fn error_detail(e: ArxivError) -> Seq<char> {
    match e {
        ArxivError::Network(s) => s@,
        ArxivError::Parse(s) => s@,
        ArxivError::PaperNotFound(s) => s@,
    }
}

/// An error's description names its kind and then gives its whole detail:
/// it ends with the detail, and what comes before the detail is
/// `Network error: `, `Parse error: ` or `Paper not found: ` by the kind.
pub proof fn lemma_message_ends_with_detail(e: ArxivError)
    ensures
        ({
            let m = e.spec_message();
            let d = error_detail(e);
            &&& m.len() >= d.len()
            &&& m.subrange(m.len() - d.len(), m.len() as int) == d
            &&& m.subrange(0, m.len() - d.len()) == match e {
                ArxivError::Network(_) => "Network error: "@,
                ArxivError::Parse(_) => "Parse error: "@,
                ArxivError::PaperNotFound(_) => "Paper not found: "@,
            }
        }),
{
    let m = e.spec_message();
    let d = error_detail(e);
    let pre = match e {
        ArxivError::Network(_) => "Network error: "@,
        ArxivError::Parse(_) => "Parse error: "@,
        ArxivError::PaperNotFound(_) => "Paper not found: "@,
    };
    assert(m == pre + d);
    assert(m.subrange(m.len() - d.len(), m.len() as int) =~= d);
    assert(m.subrange(0, m.len() - d.len()) =~= pre);
}

} // verus!
