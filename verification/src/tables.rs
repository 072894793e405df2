//! The first HTML table of a page, as rows of cells.

use vstd::prelude::*;

verus! {

/// What `table_extract::Table::find_first` finds in `html`, as the cells of
/// each data row, each cell its inner HTML with surrounding white space
/// trimmed (`None` when the page has no table).
pub uninterp spec fn first_table_rows(html: Seq<char>) -> Option<Seq<Seq<Seq<char>>>>;

/// Calls `table_extract::Table::find_first` on `html` and reads out every
/// row the table iterates over (its `<td>` rows; a leading row of `<th>`
/// headers is not among them) as the trimmed inner HTML of its cells. Claimed: the result
/// is `first_table_rows` of `html`. Unsaid: how the HTML is parsed into cells.
#[verifier::external_body]
pub(crate) fn find_first_table(html: &str) -> (r: Option<Vec<Vec<String>>>)
    ensures
        r matches Some(rows) ==> first_table_rows(html@) == Some(rows.deep_view()),
        r is None ==> first_table_rows(html@) is None,
{
    table_extract::Table::find_first(html).map(
        |table| table.iter().map(|row| row.as_slice().to_vec()).collect(),
    )
}

} // verus!
