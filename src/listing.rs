use vstd::prelude::*;

use crate::aggregate::{flatten_rows, flattened, group_rows, grouped};
use crate::query::{FilterSpec, FilterView, ROW_CAP};
use crate::ranking::{rank_rows, ranked};
use crate::records::{CardListing, ListingView, RawJoinedRow};

verus! {

/// The first `ROW_CAP` rows.
pub open spec fn capped(rows: Seq<RawJoinedRow>) -> Seq<RawJoinedRow> {
    if rows.len() <= ROW_CAP {
        rows
    } else {
        rows.subrange(0, ROW_CAP as int)
    }
}

/// The output shape for a row sequence: flat when a set filter was given,
/// grouped by card otherwise.
pub open spec fn folded(rows: Seq<RawJoinedRow>, set_filter_present: bool) -> ListingView {
    if set_filter_present {
        ListingView::Flat(flattened(rows))
    } else {
        ListingView::Grouped(grouped(rows))
    }
}

/// The rows that a listing is made of: ranked for the name search, then cut
/// to the row cap.
pub open spec fn listing_rows(rows: Seq<RawJoinedRow>, name: Option<Seq<char>>) -> Seq<RawJoinedRow> {
    capped(ranked(rows, name))
}

/// The listing for a filter over the rows that its query returned.
pub open spec fn listing_of(filter: FilterView, rows: Seq<RawJoinedRow>) -> ListingView {
    folded(listing_rows(rows, filter.name), filter.set_name is Some)
}

/// Keeps at most the first `ROW_CAP` rows.
pub fn cap_rows(rows: &mut Vec<RawJoinedRow>)
    ensures
        final(rows)@ == capped(old(rows)@),
{
    rows.truncate(ROW_CAP);
}

/// Folds rows into the flat shape when a set filter was present, else into
/// the grouped shape.
pub fn fold_rows(rows: Vec<RawJoinedRow>, set_filter_present: bool) -> (r: CardListing)
    ensures
        r@ == folded(rows@, set_filter_present),
{
    if set_filter_present {
        CardListing::Flat(flatten_rows(rows))
    } else {
        CardListing::Grouped(group_rows(rows))
    }
}

/// The card listing for `filter` from the rows that its query returned.
pub fn list_cards(filter: &FilterSpec, rows: Vec<RawJoinedRow>) -> (r: CardListing)
    ensures
        r@ == listing_of(filter@, rows@),
{
    let mut rows = rank_rows(rows, &filter.name);
    cap_rows(&mut rows);
    fold_rows(rows, filter.set_name.is_some())
}

} // verus!
