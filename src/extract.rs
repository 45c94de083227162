//! Reading the entries off one index page: the first main-text cell, the
//! first fourth column inside it, and the text of every anchor there.
use vstd::prelude::*;
use scraper::{Html, Selector};

verus! {

/// The CSS selector of the main-text cell.
pub const MAIN_TEXT_SELECTOR: &'static str = "td#maintext";

/// The CSS selector of the fourth column.
pub const FOURTH_COLUMN_SELECTOR: &'static str = "td:nth-child(4)";

/// The CSS selector of an anchor.
pub const ANCHOR_SELECTOR: &'static str = "a";

/// Why a page yielded no entries.
#[derive(Clone, Copy, Debug, PartialEq, Eq, Structural)]
pub enum ExtractError {
    /// A selector of the extraction was not valid CSS.
    InvalidSelector,
    /// The page has no main-text cell.
    MissingMainText,
    /// The main-text cell has no fourth column.
    MissingFourthColumn,
}

/// What scraper finds in `page` for a cell, a column and an anchor
/// selector: nothing where a selector is not valid CSS; else whether the
/// page has a cell, and, where the first cell has a column, the text of each
/// anchor in the first such column.
pub uninterp spec fn page_lookup(
    page: Seq<char>,
    cell: Seq<char>,
    column: Seq<char>,
    anchor: Seq<char>,
) -> Option<(bool, Option<Seq<Seq<char>>>)>;

/// Whether a lookup found a main-text cell.
pub open spec fn cell_found(found: Option<(bool, Option<Seq<Seq<char>>>)>) -> bool {
    match found {
        Some((cell, _)) => cell,
        None => false,
    }
}

/// The anchor texts of the column that a lookup found, if it found one.
pub open spec fn column_texts(found: Option<(bool, Option<Seq<Seq<char>>>)>) -> Option<Seq<Seq<char>>> {
    match found {
        Some((_, texts)) => texts,
        None => None,
    }
}

/// Relies on scraper: `Selector::parse` for the three selectors,
/// `Html::parse_document` (which repairs bad markup and never fails), and
/// `select` with `ElementRef::text` for the lookups, which depend on the
/// page text and the selectors alone.
#[verifier::external_body]
fn lookup_page(page: &str, cell: &str, column: &str, anchor: &str) -> (r: Option<
    (bool, Option<Vec<String>>),
>)
    ensures
        r.deep_view() == page_lookup(page@, cell@, column@, anchor@),
{
    let (cell, column, anchor) = match (Selector::parse(cell), Selector::parse(column), Selector::parse(anchor)) {
        (Ok(cell), Ok(column), Ok(anchor)) => (cell, column, anchor),
        _ => return None,
    };
    let document = Html::parse_document(page);
    let found = document.select(&cell).next();
    let anchors = found.and_then(|c| c.select(&column).next()).map(
        |col| col.select(&anchor).map(|a| a.text().collect::<String>()).collect(),
    );
    Some((found.is_some(), anchors))
}

/// The entries of one index page, given as its markup: the text of each
/// anchor in the fourth column of the first main-text cell, in document
/// order. A page of another shape yields none.
pub fn extract_entries(page: &str) -> (r: Result<Vec<String>, ExtractError>)
    ensures
        ({
            let found = page_lookup(
                page@,
                MAIN_TEXT_SELECTOR@,
                FOURTH_COLUMN_SELECTOR@,
                ANCHOR_SELECTOR@,
            );
            &&& found is None ==> r == Err::<Vec<String>, ExtractError>(
                ExtractError::InvalidSelector,
            )
            &&& found is Some && !cell_found(found) ==> r == Err::<Vec<String>, ExtractError>(
                ExtractError::MissingMainText,
            )
            &&& found is Some && cell_found(found) && column_texts(found) is None ==> r == Err::<
                Vec<String>,
                ExtractError,
            >(ExtractError::MissingFourthColumn)
            &&& cell_found(found) && column_texts(found) is Some ==> r is Ok
                && r->Ok_0.deep_view() == column_texts(found)->0
        }),
{
    match lookup_page(page, MAIN_TEXT_SELECTOR, FOURTH_COLUMN_SELECTOR, ANCHOR_SELECTOR) {
        None => Err(ExtractError::InvalidSelector),
        Some((main_text_found, column_anchors)) => page_entries(main_text_found, column_anchors),
    }
}

/// The entries of a page, given what its lookups found: whether it has a
/// main-text cell, and the text of the anchors in that cell's fourth
/// column, if it has one. A page of another shape yields no entries at all.
pub fn page_entries(main_text_found: bool, column_anchors: Option<Vec<String>>) -> (r: Result<
    Vec<String>,
    ExtractError,
>)
    ensures
        !main_text_found ==> r == Err::<Vec<String>, ExtractError>(ExtractError::MissingMainText),
        main_text_found && column_anchors is None ==> r == Err::<Vec<String>, ExtractError>(
            ExtractError::MissingFourthColumn,
        ),
        main_text_found && column_anchors is Some ==> r == Ok::<Vec<String>, ExtractError>(
            column_anchors->0,
        ),
{
    if !main_text_found {
        Err(ExtractError::MissingMainText)
    } else {
        match column_anchors {
            None => Err(ExtractError::MissingFourthColumn),
            Some(anchors) => Ok(anchors),
        }
    }
}

} // verus!
