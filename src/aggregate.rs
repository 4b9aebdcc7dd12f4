use vstd::prelude::*;

use crate::image::{alt_art, has_alt_art, normalize_image_path, slash_normalized};
use crate::records::{
    Card, CardSet, CardSetRarity, CardSetView, CardView, FlatCardRecord, FlatRecordView,
    ImageRef, Printing, RawJoinedRow, card_views, record_views, set_views,
};

verus! {

/// The rarity record that a printing contributes.
pub open spec fn rarity_of(p: Printing) -> CardSetRarity {
    CardSetRarity { rarity: p.rarity, quantity: p.quantity, price: p.price }
}

/// The set entry that the first printing of a set creates.
pub open spec fn new_set(p: Printing) -> CardSetView {
    CardSetView { set_code: p.set_code, set_name: p.set_name, rarities: seq![rarity_of(p)] }
}

/// Index of the first set entry with code `code`, or -1 if there is none.
pub open spec fn set_index(sets: Seq<CardSetView>, code: Seq<char>) -> int
    decreases sets.len(),
{
    if sets.len() == 0 {
        -1
    } else {
        let i = set_index(sets.drop_last(), code);
        if i >= 0 {
            i
        } else if sets.last().set_code@ == code {
            sets.len() - 1
        } else {
            -1
        }
    }
}

/// Set entries after one more printing: its rarity joins the entry of its
/// set code, which is created if the code is new.
pub open spec fn add_printing(sets: Seq<CardSetView>, p: Printing) -> Seq<CardSetView> {
    let j = set_index(sets, p.set_code@);
    if j < 0 {
        sets.push(new_set(p))
    } else {
        sets.update(j, CardSetView { rarities: sets[j].rarities.push(rarity_of(p)), ..sets[j] })
    }
}

pub open spec fn image_path_of(image: Option<ImageRef>) -> Option<Seq<char>> {
    match image {
        Some(img) => Some(slash_normalized(img.path@)),
        None => None,
    }
}

/// The card that the first row seen for its id creates.
pub open spec fn card_of_row(r: RawJoinedRow) -> CardView {
    CardView {
        info: r.info,
        image_path: image_path_of(r.image),
        has_alt_art: alt_art(r.info.id, r.image),
        img_base64: None,
        sets: match r.printing {
            Some(p) => seq![new_set(p)],
            None => seq![],
        },
    }
}

/// The flat record that one row becomes.
pub open spec fn flat_record_of(r: RawJoinedRow) -> FlatRecordView {
    FlatRecordView {
        info: r.info,
        image_path: image_path_of(r.image),
        has_alt_art: alt_art(r.info.id, r.image),
        img_base64: None,
        printing: r.printing,
    }
}

/// Index of the first card with id `id`, or -1 if there is none.
pub open spec fn card_index(cards: Seq<CardView>, id: i64) -> int
    decreases cards.len(),
{
    if cards.len() == 0 {
        -1
    } else {
        let i = card_index(cards.drop_last(), id);
        if i >= 0 {
            i
        } else if cards.last().info.id == id {
            cards.len() - 1
        } else {
            -1
        }
    }
}

/// Cards after one more row: a new id creates its card from this row; a
/// known id only gains the row's printing, if it has one.
pub open spec fn fold_row(cards: Seq<CardView>, r: RawJoinedRow) -> Seq<CardView> {
    let i = card_index(cards, r.info.id);
    if i < 0 {
        cards.push(card_of_row(r))
    } else {
        match r.printing {
            Some(p) => cards.update(i, CardView { sets: add_printing(cards[i].sets, p), ..cards[i] }),
            None => cards,
        }
    }
}

/// The grouped shape of a row sequence, cards in order of first appearance.
pub open spec fn grouped(rows: Seq<RawJoinedRow>) -> Seq<CardView>
    decreases rows.len(),
{
    if rows.len() == 0 {
        seq![]
    } else {
        fold_row(grouped(rows.drop_last()), rows.last())
    }
}

/// The flat shape of a row sequence: one record per row, in row order.
pub open spec fn flattened(rows: Seq<RawJoinedRow>) -> Seq<FlatRecordView> {
    rows.map_values(|r: RawJoinedRow| flat_record_of(r))
}

pub proof fn lemma_set_index(sets: Seq<CardSetView>, code: Seq<char>)
    ensures
        -1 <= set_index(sets, code) < sets.len(),
        set_index(sets, code) == -1 <==> forall|j: int|
            0 <= j < sets.len() ==> (#[trigger] sets[j]).set_code@ != code,
        set_index(sets, code) >= 0 ==> {
            &&& sets[set_index(sets, code)].set_code@ == code
            &&& forall|j: int| 0 <= j < set_index(sets, code) ==> (#[trigger] sets[j]).set_code@ != code
        },
    decreases sets.len(),
{
    if sets.len() > 0 {
        let prev = sets.drop_last();
        lemma_set_index(prev, code);
        assert forall|j: int| 0 <= j < prev.len() implies prev[j] == sets[j] by {}
    }
}

pub proof fn lemma_card_index(cards: Seq<CardView>, id: i64)
    ensures
        -1 <= card_index(cards, id) < cards.len(),
        card_index(cards, id) == -1 <==> forall|j: int|
            0 <= j < cards.len() ==> (#[trigger] cards[j]).info.id != id,
        card_index(cards, id) >= 0 ==> {
            &&& cards[card_index(cards, id)].info.id == id
            &&& forall|j: int| 0 <= j < card_index(cards, id) ==> (#[trigger] cards[j]).info.id != id
        },
    decreases cards.len(),
{
    if cards.len() > 0 {
        let prev = cards.drop_last();
        lemma_card_index(prev, id);
        assert forall|j: int| 0 <= j < prev.len() implies prev[j] == cards[j] by {}
    }
}

fn find_set(sets: &Vec<CardSet>, code: &String) -> (r: Option<usize>)
    ensures
        match r {
            Some(j) => set_index(set_views(sets@), code@) == j as int,
            None => set_index(set_views(sets@), code@) == -1,
        },
{
    let ghost v = set_views(sets@);
    proof {
        lemma_set_index(v, code@);
    }
    let mut j: usize = 0;
    while j < sets.len()
        invariant
            v == set_views(sets@),
            v.len() == sets@.len(),
            j <= sets@.len(),
            forall|k: int| 0 <= k < j ==> (#[trigger] v[k]).set_code@ != code@,
        decreases sets@.len() - j,
    {
        assert(v[j as int] == sets@[j as int]@);
        if sets[j].set_code == *code {
            assert(v[j as int].set_code@ == code@);
            assert(set_index(v, code@) == j as int) by {
                lemma_set_index(v, code@);
                let ci = set_index(v, code@);
                if 0 <= ci < j {
                    assert(v[ci].set_code@ != code@);
                }
            }
            return Some(j);
        }
        j += 1;
    }
    None
}

fn find_card(cards: &Vec<Card>, id: i64) -> (r: Option<usize>)
    ensures
        match r {
            Some(i) => card_index(card_views(cards@), id) == i as int,
            None => card_index(card_views(cards@), id) == -1,
        },
{
    let ghost v = card_views(cards@);
    proof {
        lemma_card_index(v, id);
    }
    let mut i: usize = 0;
    while i < cards.len()
        invariant
            v == card_views(cards@),
            v.len() == cards@.len(),
            i <= cards@.len(),
            forall|k: int| 0 <= k < i ==> (#[trigger] v[k]).info.id != id,
        decreases cards@.len() - i,
    {
        assert(v[i as int] == cards@[i as int]@);
        if cards[i].info.id == id {
            assert(v[i as int].info.id == id);
            assert(card_index(v, id) == i as int) by {
                lemma_card_index(v, id);
                let ci = card_index(v, id);
                if 0 <= ci < i {
                    assert(v[ci].info.id != id);
                }
            }
            return Some(i);
        }
        i += 1;
    }
    None
}

fn rarity_from(p: Printing) -> (r: CardSetRarity)
    ensures
        r == rarity_of(p),
{
    CardSetRarity { rarity: p.rarity, quantity: p.quantity, price: p.price }
}

fn new_card_set(p: Printing) -> (s: CardSet)
    ensures
        s@ == new_set(p),
{
    let Printing { set_code, set_name, rarity, quantity, price } = p;
    let mut rarities = Vec::new();
    rarities.push(CardSetRarity { rarity, quantity, price });
    let s = CardSet { set_code, set_name, rarities };
    assert(s@.rarities =~= new_set(p).rarities);
    s
}

fn add_printing_to(sets: &mut Vec<CardSet>, p: Printing)
    ensures
        set_views(final(sets)@) == add_printing(set_views(old(sets)@), p),
{
    let ghost before = sets@;
    proof {
        lemma_set_index(set_views(before), p.set_code@);
    }
    assert(set_views(before).len() == before.len());
    match find_set(sets, &p.set_code) {
        None => {
            sets.push(new_card_set(p));
            assert(set_views(sets@) =~= set_views(before).push(new_set(p)));
        },
        Some(j) => {
            let mut s = sets.remove(j);
            let ghost s0 = s;
            s.rarities.push(rarity_from(p));
            sets.insert(j, s);
            assert(sets@ =~= before.update(j as int, s));
            assert(s@ == (CardSetView { rarities: s0@.rarities.push(rarity_of(p)), ..s0@ }));
            assert(set_views(sets@) =~= set_views(before).update(j as int, s@));
        },
    }
}

fn new_card(row: RawJoinedRow) -> (c: Card)
    ensures
        c@ == card_of_row(row),
{
    let RawJoinedRow { info, image, printing } = row;
    let alt = has_alt_art(info.id, &image);
    let image_path = match &image {
        Some(img) => Some(normalize_image_path(img.path.as_str())),
        None => None,
    };
    let mut sets: Vec<CardSet> = Vec::new();
    match printing {
        Some(p) => {
            sets.push(new_card_set(p));
        },
        None => {},
    }
    let c = Card { info, image_path, has_alt_art: alt, img_base64: None, sets };
    assert(c@.sets =~= card_of_row(row).sets);
    c
}

/// Folds joined rows into one card per distinct id, in order of first
/// appearance. A card's attributes and image come from the first row with
/// its id; every row with a printing adds that printing's rarity to the
/// card's entry for the printing's set code.
pub fn group_rows(rows: Vec<RawJoinedRow>) -> (cards: Vec<Card>)
    ensures
        card_views(cards@) == grouped(rows@),
{
    let ghost all = rows@;
    let mut rows = rows;
    let mut cards: Vec<Card> = Vec::new();
    let ghost mut k: int = 0;
    assert(all.subrange(0, 0) =~= Seq::<RawJoinedRow>::empty());
    while rows.len() > 0
        invariant
            0 <= k <= all.len(),
            all.len() == k + rows@.len(),
            rows@ =~= all.subrange(k, all.len() as int),
            card_views(cards@) == grouped(all.subrange(0, k)),
        decreases rows@.len(),
    {
        let ghost done = all.subrange(0, k + 1);
        assert(done.drop_last() =~= all.subrange(0, k));
        let row = rows.remove(0);
        let ghost views = card_views(cards@);
        proof {
            lemma_card_index(views, row.info.id);
        }
        match find_card(&cards, row.info.id) {
            None => {
                cards.push(new_card(row));
                assert(card_views(cards@) =~= views.push(card_of_row(row)));
            },
            Some(i) => {
                let RawJoinedRow { info, image, printing } = row;
                match printing {
                    Some(p) => {
                        let mut c = cards.remove(i);
                        let ghost c0 = c;
                        add_printing_to(&mut c.sets, p);
                        assert(c@ == (CardView { sets: add_printing(c0@.sets, p), ..c0@ }));
                        cards.insert(i, c);
                        assert(card_views(cards@) =~= views.update(i as int, c@));
                    },
                    None => {},
                }
            },
        }
        proof {
            k = k + 1;
        }
    }
    assert(all.subrange(0, k) =~= all);
    cards
}

fn flat_record(row: RawJoinedRow) -> (r: FlatCardRecord)
    ensures
        r@ == flat_record_of(row),
{
    let RawJoinedRow { info, image, printing } = row;
    let alt = has_alt_art(info.id, &image);
    let image_path = match &image {
        Some(img) => Some(normalize_image_path(img.path.as_str())),
        None => None,
    };
    FlatCardRecord { info, image_path, has_alt_art: alt, img_base64: None, printing }
}

/// Turns each joined row into one flat record, in row order, with no
/// merging across rows.
pub fn flatten_rows(rows: Vec<RawJoinedRow>) -> (records: Vec<FlatCardRecord>)
    ensures
        record_views(records@) == flattened(rows@),
{
    let ghost all = rows@;
    let mut rows = rows;
    let mut records: Vec<FlatCardRecord> = Vec::new();
    let ghost mut k: int = 0;
    assert(record_views(records@) =~= flattened(all.subrange(0, 0)));
    while rows.len() > 0
        invariant
            0 <= k <= all.len(),
            all.len() == k + rows@.len(),
            rows@ =~= all.subrange(k, all.len() as int),
            record_views(records@) == flattened(all.subrange(0, k)),
        decreases rows@.len(),
    {
        let row = rows.remove(0);
        let ghost before = records@;
        records.push(flat_record(row));
        assert(record_views(records@) =~= record_views(before).push(flat_record_of(row)));
        assert(all.subrange(0, k + 1) =~= all.subrange(0, k).push(row));
        assert(flattened(all.subrange(0, k + 1)) =~= flattened(all.subrange(0, k)).push(
            flat_record_of(row),
        ));
        proof {
            k = k + 1;
        }
    }
    assert(all.subrange(0, k) =~= all);
    records
}

} // verus!
