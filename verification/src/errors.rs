//! The ways in which looking up a value in a page can fail.

use vstd::prelude::*;

verus! {

broadcast use vstd::string::group_string_axioms;

/// A value that a page should hold was not found in it.
#[derive(Debug)]
pub enum NotFoundError {
    TickerError(),
    NameError(),
    AltmanError(),
    FScoreError(),
    FloatError(),
    /// The indicators page behind the link does not hold the expected table.
    WrongLinkError(String),
}

/// The text that describes `e`.
pub open spec fn not_found_message(e: NotFoundError) -> Seq<char> {
    match e {
        NotFoundError::TickerError() => "TickerError: Searched value not found"@,
        NotFoundError::NameError() => "NameError: Searched value not found"@,
        NotFoundError::AltmanError() => "AltmanError: Searched value not found"@,
        NotFoundError::FScoreError() => "FScoreError: Searched value not found"@,
        NotFoundError::FloatError() => "FloatError: Searched value not found"@,
        NotFoundError::WrongLinkError(link) => "WrongLinkError: Wrong link "@ + link@
            + ", Identify correct link for the company, and put the diff between links into links_mapping.yaml"@,
    }
}

impl NotFoundError {
    /// The text that describes the error.
    pub fn message(&self) -> (m: String)
        ensures
            m@ == not_found_message(*self),
    {
        match self {
            NotFoundError::TickerError() => "TickerError: Searched value not found".to_string(),
            NotFoundError::NameError() => "NameError: Searched value not found".to_string(),
            NotFoundError::AltmanError() => "AltmanError: Searched value not found".to_string(),
            NotFoundError::FScoreError() => "FScoreError: Searched value not found".to_string(),
            NotFoundError::FloatError() => "FloatError: Searched value not found".to_string(),
            NotFoundError::WrongLinkError(link) => {
                let mut m = "WrongLinkError: Wrong link ".to_string();
                m.append(link.as_str());
                m.append(
                    ", Identify correct link for the company, and put the diff between links into links_mapping.yaml",
                );
                m
            },
        }
    }
}

} // verus!
