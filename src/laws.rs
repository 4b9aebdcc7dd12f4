use vstd::prelude::*;

use crate::aggregate::{
    add_printing, card_index, card_of_row, flat_record_of, flattened, fold_row, grouped,
    lemma_card_index, lemma_set_index, new_set, set_index,
};
use crate::image::{resolved_location, slash_normalized};
use crate::listing::{folded, listing_of, listing_rows};
use crate::query::{FilterView, ROW_CAP};
use crate::ranking::{lemma_ranked_permutes, ranked};
use crate::records::{CardSetView, CardView, ListingView, Printing, RawJoinedRow};

verus! {

/// The distinct card ids among the rows.
pub open spec fn card_ids(rows: Seq<RawJoinedRow>) -> Set<i64>
    decreases rows.len(),
{
    if rows.len() == 0 {
        Set::empty()
    } else {
        card_ids(rows.drop_last()).insert(rows.last().info.id)
    }
}

/// The distinct set codes among the printings of the rows for card `id`.
pub open spec fn set_codes(rows: Seq<RawJoinedRow>, id: i64) -> Set<Seq<char>>
    decreases rows.len(),
{
    if rows.len() == 0 {
        Set::empty()
    } else {
        let s = set_codes(rows.drop_last(), id);
        match rows.last().printing {
            Some(p) => if rows.last().info.id == id {
                s.insert(p.set_code@)
            } else {
                s
            },
            None => s,
        }
    }
}

pub open spec fn has_card(cards: Seq<CardView>, id: i64) -> bool {
    exists|j: int| 0 <= j < cards.len() && (#[trigger] cards[j]).info.id == id
}

pub open spec fn has_set(sets: Seq<CardSetView>, code: Seq<char>) -> bool {
    exists|j: int| 0 <= j < sets.len() && (#[trigger] sets[j]).set_code@ == code
}

/// Set entries that stand one for one for the codes of `codes`.
pub open spec fn sets_match(sets: Seq<CardSetView>, codes: Set<Seq<char>>) -> bool {
    &&& codes.finite()
    &&& sets.len() == codes.len()
    &&& forall|c: Seq<char>| codes.contains(c) <==> has_set(sets, c)
}

proof fn lemma_add_printing(sets: Seq<CardSetView>, codes: Set<Seq<char>>, p: Printing)
    requires
        sets_match(sets, codes),
    ensures
        sets_match(add_printing(sets, p), codes.insert(p.set_code@)),
{
    lemma_set_index(sets, p.set_code@);
    let j = set_index(sets, p.set_code@);
    let s2 = add_printing(sets, p);
    let c2 = codes.insert(p.set_code@);
    if j < 0 {
        assert(!codes.contains(p.set_code@));
        assert forall|c: Seq<char>| c2.contains(c) <==> has_set(s2, c) by {
            if has_set(s2, c) {
                let w = choose|w: int| 0 <= w < s2.len() && (#[trigger] s2[w]).set_code@ == c;
                if w < sets.len() {
                    assert(sets[w] == s2[w]);
                }
            }
            if c2.contains(c) {
                if c == p.set_code@ {
                    assert(s2[sets.len() as int] == new_set(p));
                } else {
                    let w = choose|w: int| 0 <= w < sets.len() && (#[trigger] sets[w]).set_code@ == c;
                    assert(s2[w] == sets[w]);
                }
            }
        }
    } else {
        assert(codes.contains(p.set_code@));
        assert(c2 =~= codes);
        assert forall|c: Seq<char>| c2.contains(c) <==> has_set(s2, c) by {
            if has_set(s2, c) {
                let w = choose|w: int| 0 <= w < s2.len() && (#[trigger] s2[w]).set_code@ == c;
                assert(s2[w].set_code == sets[w].set_code);
            }
            if c2.contains(c) {
                let w = choose|w: int| 0 <= w < sets.len() && (#[trigger] sets[w]).set_code@ == c;
                assert(s2[w].set_code == sets[w].set_code);
            }
        }
    }
}

/// What the grouped shape keeps of its rows: one card per distinct id, each
/// card's attributes those of a row, and one set entry per distinct set code
/// among the card's printings.
pub open spec fn grouping_holds(rows: Seq<RawJoinedRow>) -> bool {
    let g = grouped(rows);
    &&& card_ids(rows).finite()
    &&& g.len() == card_ids(rows).len()
    &&& g.len() <= rows.len()
    &&& forall|k: i64| card_ids(rows).contains(k) <==> has_card(g, k)
    &&& forall|i: int, j: int|
        0 <= i < j < g.len() ==> (#[trigger] g[i]).info.id != (#[trigger] g[j]).info.id
    &&& forall|i: int| 0 <= i < g.len() ==> sets_match((#[trigger] g[i]).sets, set_codes(rows, g[i].info.id))
    &&& forall|i: int| 0 <= i < g.len() ==> exists|r: int| 0 <= r < rows.len() && (#[trigger] rows[r]).info == (#[trigger] g[i]).info
}

proof fn lemma_no_codes_without_card(rows: Seq<RawJoinedRow>, id: i64)
    requires
        !card_ids(rows).contains(id),
    ensures
        set_codes(rows, id) == Set::<Seq<char>>::empty(),
    decreases rows.len(),
{
    if rows.len() > 0 {
        lemma_no_codes_without_card(rows.drop_last(), id);
    }
}

proof fn lemma_set_codes_finite(rows: Seq<RawJoinedRow>, id: i64)
    ensures
        set_codes(rows, id).finite(),
    decreases rows.len(),
{
    if rows.len() > 0 {
        lemma_set_codes_finite(rows.drop_last(), id);
    }
}

/// The grouped shape keeps every row's card exactly once, with one set entry
/// per distinct set code of its printings.
pub proof fn lemma_grouping_holds(rows: Seq<RawJoinedRow>)
    ensures
        grouping_holds(rows),
    decreases rows.len(),
{
    if rows.len() == 0 {
        assert(card_ids(rows) =~= Set::<i64>::empty());
        return;
    }
    let prev = rows.drop_last();
    let x = rows.last();
    let k = x.info.id;
    lemma_grouping_holds(prev);
    let g0 = grouped(prev);
    let g = grouped(rows);
    assert(g == fold_row(g0, x));
    lemma_card_index(g0, k);
    let i = card_index(g0, k);
    assert forall|r: int| 0 <= r < prev.len() implies prev[r] == rows[r] by {}
    assert(rows[rows.len() - 1] == x);
    if i < 0 {
        assert(!has_card(g0, k));
        assert(!card_ids(prev).contains(k));
        lemma_no_codes_without_card(prev, k);
        let c = card_of_row(x);
        assert(g == g0.push(c));
        assert(g[g0.len() as int] == c);
        assert forall|j: int| 0 <= j < g0.len() implies g[j] == g0[j] by {}
        assert forall|k2: i64| card_ids(rows).contains(k2) <==> has_card(g, k2) by {
            if has_card(g, k2) {
                let w = choose|w: int| 0 <= w < g.len() && (#[trigger] g[w]).info.id == k2;
                if w < g0.len() {
                    assert(g0[w] == g[w]);
                    assert(has_card(g0, k2));
                    assert(card_ids(prev).contains(k2));
                } else {
                    assert(k2 == k);
                }
                assert(card_ids(rows) == card_ids(prev).insert(k));
            }
            if k2 == k {
                assert(g[g0.len() as int].info.id == k);
            }
            if card_ids(rows).contains(k2) && k2 != k {
                assert(card_ids(rows) == card_ids(prev).insert(k));
                assert(card_ids(prev).contains(k2));
                assert(has_card(g0, k2));
                let w = choose|w: int| 0 <= w < g0.len() && (#[trigger] g0[w]).info.id == k2;
                assert(g[w] == g0[w]);
            }
        }
        assert forall|a: int| 0 <= a < g.len() implies sets_match((#[trigger] g[a]).sets, set_codes(rows, g[a].info.id)) by {
            if a < g0.len() {
                assert(g[a] == g0[a]);
                assert(set_codes(rows, g[a].info.id) == set_codes(prev, g[a].info.id));
            } else {
                assert(g[a] == c);
                match x.printing {
                    Some(p) => {
                        assert(set_codes(rows, k) =~= Set::<Seq<char>>::empty().insert(p.set_code@));
                        assert(c.sets[0] == new_set(p));
                        assert forall|cd: Seq<char>| set_codes(rows, k).contains(cd) <==> has_set(c.sets, cd) by {
                            if set_codes(rows, k).contains(cd) {
                                assert(c.sets[0].set_code@ == cd);
                            }
                        }
                    },
                    None => {
                        assert(set_codes(rows, k) =~= Set::<Seq<char>>::empty());
                    },
                }
            }
        }
        assert forall|a: int| 0 <= a < g.len() implies exists|r: int| 0 <= r < rows.len() && (#[trigger] rows[r]).info == (#[trigger] g[a]).info by {
            if a < g0.len() {
                let r = choose|r: int| 0 <= r < prev.len() && (#[trigger] prev[r]).info == (#[trigger] g0[a]).info;
                assert(rows[r].info == g[a].info);
            } else {
                assert(rows[rows.len() - 1].info == g[a].info);
            }
        }
    } else {
        assert(has_card(g0, k)) by {
            assert(g0[i].info.id == k);
        }
        assert(card_ids(rows) =~= card_ids(prev));
        match x.printing {
            Some(p) => {
                let ci = CardView { sets: add_printing(g0[i].sets, p), ..g0[i] };
                assert(g == g0.update(i, ci));
                lemma_set_codes_finite(rows, k);
                assert(sets_match(g0[i].sets, set_codes(prev, k)));
                assert(set_codes(rows, k) == set_codes(prev, k).insert(p.set_code@));
                lemma_add_printing(g0[i].sets, set_codes(prev, k), p);
                assert forall|k2: i64| card_ids(rows).contains(k2) <==> has_card(g, k2) by {
                    if has_card(g, k2) {
                        let w = choose|w: int| 0 <= w < g.len() && (#[trigger] g[w]).info.id == k2;
                        assert(g0[w].info.id == g[w].info.id);
                        assert(has_card(g0, k2));
                    }
                    if card_ids(rows).contains(k2) {
                        assert(card_ids(prev).contains(k2));
                        assert(has_card(g0, k2));
                        let w = choose|w: int| 0 <= w < g0.len() && (#[trigger] g0[w]).info.id == k2;
                        assert(g[w].info.id == g0[w].info.id);
                    }
                }
                assert forall|a: int, b: int| 0 <= a < b < g.len() implies (#[trigger] g[a]).info.id != (#[trigger] g[b]).info.id by {
                    assert(g[a].info == g0[a].info && g[b].info == g0[b].info);
                }
                assert forall|a: int| 0 <= a < g.len() implies sets_match((#[trigger] g[a]).sets, set_codes(rows, g[a].info.id)) by {
                    if a != i {
                        assert(g[a] == g0[a]);
                        assert(g0[a].info.id != k);
                        assert(set_codes(rows, g[a].info.id) == set_codes(prev, g[a].info.id));
                    }
                }
                assert forall|a: int| 0 <= a < g.len() implies exists|r: int| 0 <= r < rows.len() && (#[trigger] rows[r]).info == (#[trigger] g[a]).info by {
                    let r = choose|r: int| 0 <= r < prev.len() && (#[trigger] prev[r]).info == (#[trigger] g0[a]).info;
                    assert(rows[r].info == g[a].info);
                }
            },
            None => {
                assert(g == g0);
                assert forall|a: int| 0 <= a < g.len() implies sets_match((#[trigger] g[a]).sets, set_codes(rows, g[a].info.id)) by {
                    assert(set_codes(rows, g[a].info.id) == set_codes(prev, g[a].info.id));
                }
                assert forall|a: int| 0 <= a < g.len() implies exists|r: int| 0 <= r < rows.len() && (#[trigger] rows[r]).info == (#[trigger] g[a]).info by {
                    let r = choose|r: int| 0 <= r < prev.len() && (#[trigger] prev[r]).info == (#[trigger] g0[a]).info;
                    assert(rows[r].info == g[a].info);
                }
            },
        }
    }
}

proof fn lemma_card_ids_members(rows: Seq<RawJoinedRow>, id: i64)
    ensures
        card_ids(rows).contains(id) <==> exists|r: int| 0 <= r < rows.len() && (#[trigger] rows[r]).info.id == id,
    decreases rows.len(),
{
    if rows.len() > 0 {
        let prev = rows.drop_last();
        lemma_card_ids_members(prev, id);
        if exists|r: int| 0 <= r < rows.len() && (#[trigger] rows[r]).info.id == id {
            let r = choose|r: int| 0 <= r < rows.len() && (#[trigger] rows[r]).info.id == id;
            if r < prev.len() {
                assert(prev[r] == rows[r]);
            }
        }
        if exists|r: int| 0 <= r < prev.len() && (#[trigger] prev[r]).info.id == id {
            let r = choose|r: int| 0 <= r < prev.len() && (#[trigger] prev[r]).info.id == id;
            assert(rows[r] == prev[r]);
        }
        if rows.last().info.id == id {
            assert(rows[rows.len() - 1].info.id == id);
        }
    }
}

/// Set code `code` belongs to a printing of a row for card `id`.
pub open spec fn code_seen(rows: Seq<RawJoinedRow>, id: i64, code: Seq<char>) -> bool {
    exists|r: int|
        0 <= r < rows.len() && (#[trigger] rows[r]).info.id == id && rows[r].printing is Some
            && rows[r].printing->0.set_code@ == code
}

/// The distinct set codes of card `id` are exactly the codes of its rows'
/// printings.
pub proof fn lemma_set_codes_members(rows: Seq<RawJoinedRow>, id: i64, code: Seq<char>)
    ensures
        set_codes(rows, id).contains(code) <==> code_seen(rows, id, code),
    decreases rows.len(),
{
    if rows.len() > 0 {
        let prev = rows.drop_last();
        lemma_set_codes_members(prev, id, code);
        if code_seen(rows, id, code) {
            let r = choose|r: int|
                0 <= r < rows.len() && (#[trigger] rows[r]).info.id == id && rows[r].printing is Some
                    && rows[r].printing->0.set_code@ == code;
            if r < prev.len() {
                assert(prev[r] == rows[r]);
            }
        }
        if code_seen(prev, id, code) {
            let r = choose|r: int|
                0 <= r < prev.len() && (#[trigger] prev[r]).info.id == id && prev[r].printing is Some
                    && prev[r].printing->0.set_code@ == code;
            assert(rows[r] == prev[r]);
        }
        if set_codes(rows, id).contains(code) && !set_codes(prev, id).contains(code) {
            assert(rows[rows.len() - 1] == rows.last());
        }
    }
}

/// Every card id among the rows has exactly one card in the grouped shape,
/// and that card has one set entry per distinct set code among the
/// printings of the rows with its id.
pub proof fn lemma_one_card_per_id(rows: Seq<RawJoinedRow>, id: i64)
    requires
        exists|r: int| 0 <= r < rows.len() && (#[trigger] rows[r]).info.id == id,
    ensures
        exists|i: int|
            0 <= i < grouped(rows).len() && (#[trigger] grouped(rows)[i]).info.id == id && (forall|j: int|
                0 <= j < grouped(rows).len() && (#[trigger] grouped(rows)[j]).info.id == id ==> j == i)
                && grouped(rows)[i].sets.len() == set_codes(rows, id).len(),
        set_codes(rows, id).finite(),
{
    lemma_grouping_holds(rows);
    lemma_card_ids_members(rows, id);
    lemma_set_codes_finite(rows, id);
    let g = grouped(rows);
    assert(has_card(g, id));
    let i = choose|i: int| 0 <= i < g.len() && (#[trigger] g[i]).info.id == id;
    assert(sets_match(g[i].sets, set_codes(rows, g[i].info.id)));
    assert forall|j: int| 0 <= j < g.len() && (#[trigger] g[j]).info.id == id implies j == i by {
        if j < i {
            assert(g[j].info.id != g[i].info.id);
        } else if i < j {
            assert(g[i].info.id != g[j].info.id);
        }
    }
}

/// The flat shape has one record per row; the grouped shape one card per
/// distinct card id. Which shape comes out is decided by the set filter alone.
pub proof fn lemma_shape_selection(rows: Seq<RawJoinedRow>, set_filter_present: bool)
    ensures
        set_filter_present ==> folded(rows, set_filter_present) == ListingView::Flat(flattened(rows))
            && flattened(rows).len() == rows.len(),
        !set_filter_present ==> folded(rows, set_filter_present) == ListingView::Grouped(grouped(rows))
            && card_ids(rows).finite() && grouped(rows).len() == card_ids(rows).len(),
{
    lemma_grouping_holds(rows);
}

proof fn lemma_listing_rows_from_input(rows: Seq<RawJoinedRow>, name: Option<Seq<char>>)
    ensures
        listing_rows(rows, name).len() <= ROW_CAP,
        forall|i: int| 0 <= i < listing_rows(rows, name).len() ==> rows.contains(
            #[trigger] listing_rows(rows, name)[i],
        ),
{
    broadcast use vstd::seq_lib::to_multiset_contains;

    lemma_ranked_permutes(rows, name);
    let s = ranked(rows, name);
    let l = listing_rows(rows, name);
    assert forall|i: int| 0 <= i < l.len() implies rows.contains(#[trigger] l[i]) by {
        assert(l[i] == s[i]);
        assert(s.contains(s[i]));
        assert(s.to_multiset().count(s[i]) > 0);
    }
}

/// A listing holds at most `ROW_CAP` entries, and the attributes of each
/// are those of one of the rows it was made from.
pub proof fn lemma_listing_bounded(filter: FilterView, rows: Seq<RawJoinedRow>)
    ensures
        match listing_of(filter, rows) {
            ListingView::Grouped(cards) => cards.len() <= ROW_CAP && forall|i: int|
                0 <= i < cards.len() ==> exists|r: int| 0 <= r < rows.len() && (#[trigger] rows[r]).info == (#[trigger] cards[i]).info,
            ListingView::Flat(records) => records.len() <= ROW_CAP && forall|i: int|
                0 <= i < records.len() ==> exists|r: int| 0 <= r < rows.len() && (#[trigger] rows[r]).info == (#[trigger] records[i]).info,
        },
{
    let l = listing_rows(rows, filter.name);
    lemma_listing_rows_from_input(rows, filter.name);
    lemma_grouping_holds(l);
    match listing_of(filter, rows) {
        ListingView::Grouped(cards) => {
            assert forall|i: int| 0 <= i < cards.len() implies exists|r: int| 0 <= r < rows.len() && (#[trigger] rows[r]).info == (#[trigger] cards[i]).info by {
                let m = choose|m: int| 0 <= m < l.len() && (#[trigger] l[m]).info == (#[trigger] cards[i]).info;
                assert(rows.contains(l[m]));
                let r = choose|r: int| 0 <= r < rows.len() && rows[r] == l[m];
                assert(rows[r].info == cards[i].info);
            }
        },
        ListingView::Flat(records) => {
            assert forall|i: int| 0 <= i < records.len() implies exists|r: int| 0 <= r < rows.len() && (#[trigger] rows[r]).info == (#[trigger] records[i]).info by {
                assert(records[i] == flat_record_of(l[i]));
                assert(rows.contains(l[i]));
                let r = choose|r: int| 0 <= r < rows.len() && rows[r] == l[i];
                assert(rows[r].info == records[i].info);
            }
        },
    }
}

/// The same filter over the same rows gives the same listing.
pub proof fn lemma_listing_repeatable(
    f1: FilterView,
    f2: FilterView,
    rows1: Seq<RawJoinedRow>,
    rows2: Seq<RawJoinedRow>,
)
    requires
        f1 == f2,
        rows1 == rows2,
    ensures
        listing_of(f1, rows1) == listing_of(f2, rows2),
{
}

/// Two stored paths that differ only in which slash separates their parts
/// resolve to the same location.
pub proof fn lemma_slash_conventions_agree(root: Seq<char>, p: Seq<char>, q: Seq<char>)
    requires
        p.len() == q.len(),
        forall|i: int|
            0 <= i < p.len() ==> (#[trigger] p[i]) == q[i] || ((p[i] == '/' || p[i] == '\\') && (q[i] == '/'
                || q[i] == '\\')),
    ensures
        resolved_location(root, p) == resolved_location(root, q),
{
    assert(slash_normalized(p) =~= slash_normalized(q));
}

/// A row without an image gives a card, and a flat record, without an image
/// path and without alternate art.
pub proof fn lemma_missing_image(r: RawJoinedRow)
    requires
        r.image is None,
    ensures
        card_of_row(r).image_path is None,
        !card_of_row(r).has_alt_art,
        card_of_row(r).img_base64 is None,
        flat_record_of(r).image_path is None,
        !flat_record_of(r).has_alt_art,
        flat_record_of(r).img_base64 is None,
{
}

} // verus!
