use vstd::prelude::*;
use vstd::string::*;

verus! {

/// Failure of a single field extraction or validation step inside the
/// line scanner. Carries no payload: the caller attaches the reason.
#[derive(Debug)]
pub struct ParseError {}

impl ParseError {
    pub fn new() -> ParseError {
        ParseError {}
    }
}

/// Outcome for a line that is not ingested: either a classified parse
/// failure with a reason, or the marker for a line that an earlier run
/// already ingested (the watermark filter). The two are mutually
/// exclusive, distinguished by the `filter` flag.
#[derive(Debug)]
pub struct LogError {
    filter: bool,
    line: String,
    error: String,
}

impl LogError {
    /// True for the already-ingested marker, false for a parse failure.
    pub closed spec fn filter_spec(&self) -> bool {
        self.filter
    }

    /// The raw line the outcome is about.
    pub closed spec fn line_view(&self) -> Seq<char> {
        self.line@
    }

    /// The classification reason; empty for the filtered marker.
    pub closed spec fn error_view(&self) -> Seq<char> {
        self.error@
    }

    pub fn new(line: &str, error: &str) -> (r: LogError)
        ensures
            !r.filter_spec(),
            r.line_view() == line@,
            r.error_view() == error@,
    {
        LogError { line: line.to_owned(), error: error.to_owned(), filter: false }
    }

    pub fn new_filtered(line: &str) -> (r: LogError)
        ensures
            r.filter_spec(),
            r.line_view() == line@,
            r.error_view() == Seq::<char>::empty(),
    {
        LogError { line: line.to_owned(), error: String::new(), filter: true }
    }

    pub fn is_filtered(&self) -> (r: bool)
        ensures
            r == self.filter_spec(),
    {
        self.filter
    }

    /// The error-surface form of a non-filtered failure:
    /// `Invalid entry: <raw line> (<reason>)`.
    pub fn display_string(&self) -> (r: String)
        ensures
            r@ == "Invalid entry: "@ + self.line_view() + " ("@ + self.error_view() + ")"@,
    {
        let mut s = String::new();
        s.append("Invalid entry: ");
        s.append(self.line.as_str());
        s.append(" (");
        s.append(self.error.as_str());
        s.append(")");
        proof {
            assert(s@ =~= "Invalid entry: "@ + self.line_view() + " ("@ + self.error_view()
                + ")"@);
        }
        s
    }
}

} // verus!
