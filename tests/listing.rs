use ygodatabase::aggregate::{flatten_rows, group_rows};
use ygodatabase::listing::{cap_rows, fold_rows, list_cards};
use ygodatabase::query::{FilterSpec, ROW_CAP};
use ygodatabase::records::{
    Card, CardInfo, CardListing, FlatCardRecord, ImageRef, Printing, RawJoinedRow,
};

fn info(id: i64, name: &str) -> CardInfo {
    CardInfo {
        id,
        name: name.to_string(),
        card_type: "Normal Monster".to_string(),
        description: format!("card {}", id),
        atk: Some(3000),
        def: Some(2500),
        level: Some(8),
        type_line: Some("Dragon / Normal".to_string()),
    }
}

fn printing(code: &str, rarity: &str, quantity: i64) -> Printing {
    Printing {
        set_code: code.to_string(),
        set_name: Some(format!("Set {}", code)),
        rarity: Some(rarity.to_string()),
        quantity: Some(quantity),
        price: Some("1.50".to_string()),
    }
}

fn row(id: i64, name: &str, image: Option<ImageRef>, p: Option<Printing>) -> RawJoinedRow {
    RawJoinedRow { info: info(id, name), image, printing: p }
}

fn no_filter() -> FilterSpec {
    FilterSpec { name: None, card_type: None, set_name: None }
}

fn grouped(listing: CardListing) -> Vec<Card> {
    match listing {
        CardListing::Grouped(cards) => cards,
        CardListing::Flat(_) => panic!("expected the grouped shape"),
    }
}

fn flat(listing: CardListing) -> Vec<FlatCardRecord> {
    match listing {
        CardListing::Flat(records) => records,
        CardListing::Grouped(_) => panic!("expected the flat shape"),
    }
}

#[test]
fn two_rarities_of_one_set_share_one_entry() {
    let rows = vec![
        row(1, "Dark Magician", None, Some(printing("A", "Common", 2))),
        row(1, "Dark Magician", None, Some(printing("A", "Rare", 0))),
    ];
    let cards = group_rows(rows);
    assert_eq!(cards.len(), 1);
    assert_eq!(cards[0].info.id, 1);
    assert_eq!(cards[0].sets.len(), 1);
    let set = &cards[0].sets[0];
    assert_eq!(set.set_code, "A");
    assert_eq!(set.rarities.len(), 2);
    assert_eq!(set.rarities[0].rarity.as_deref(), Some("Common"));
    assert_eq!(set.rarities[0].quantity, Some(2));
    assert_eq!(set.rarities[1].rarity.as_deref(), Some("Rare"));
    assert_eq!(set.rarities[1].quantity, Some(0));
}

#[test]
fn one_card_per_id_and_one_entry_per_set_code() {
    let rows = vec![
        row(7, "Kuriboh", None, Some(printing("LOB", "Common", 1))),
        row(3, "Jinzo", None, Some(printing("PSV", "Ultra Rare", 1))),
        row(7, "Kuriboh", None, Some(printing("MRD", "Rare", 0))),
        row(7, "Kuriboh", None, Some(printing("LOB", "Common", 1))),
        row(3, "Jinzo", None, None),
        row(9, "Sangan", None, None),
    ];
    let cards = group_rows(rows);
    let ids: Vec<i64> = cards.iter().map(|c| c.info.id).collect();
    assert_eq!(ids, vec![7, 3, 9]);
    let codes: Vec<&str> = cards[0].sets.iter().map(|s| s.set_code.as_str()).collect();
    assert_eq!(codes, vec!["LOB", "MRD"]);
    assert_eq!(cards[0].sets[0].rarities.len(), 2);
    assert_eq!(cards[1].sets.len(), 1);
    assert_eq!(cards[2].sets.len(), 0);
}

#[test]
fn card_attributes_come_from_its_first_row() {
    let mut second = row(5, "Mirror Force", None, Some(printing("B", "Rare", 1)));
    second.info.description = "a later description".to_string();
    let rows = vec![
        row(5, "Mirror Force", Some(ImageRef { image_id: 5, path: "img\\5.jpg".to_string() }), None),
        second,
    ];
    let cards = group_rows(rows);
    assert_eq!(cards.len(), 1);
    assert_eq!(cards[0].info.description, "card 5");
    assert_eq!(cards[0].image_path.as_deref(), Some("img/5.jpg"));
    assert_eq!(cards[0].sets.len(), 1);
    assert_eq!(cards[0].sets[0].set_name.as_deref(), Some("Set B"));
}

#[test]
fn set_entry_keeps_the_name_of_its_first_printing() {
    let mut later = printing("X", "Rare", 1);
    later.set_name = Some("Renamed".to_string());
    let rows = vec![
        row(2, "Man-Eater Bug", None, Some(printing("X", "Common", 1))),
        row(2, "Man-Eater Bug", None, Some(later)),
    ];
    let cards = group_rows(rows);
    assert_eq!(cards[0].sets[0].set_name.as_deref(), Some("Set X"));
    assert_eq!(cards[0].sets[0].rarities.len(), 2);
}

#[test]
fn repeated_rarity_rows_are_all_kept() {
    let rows = vec![
        row(4, "Pot of Greed", None, Some(printing("LOB", "Rare", 1))),
        row(4, "Pot of Greed", None, Some(printing("LOB", "Rare", 1))),
    ];
    let cards = group_rows(rows);
    assert_eq!(cards[0].sets[0].rarities.len(), 2);
}

#[test]
fn set_filter_selects_the_flat_shape() {
    let rows = vec![
        row(1, "Dark Magician", None, Some(printing("A", "Common", 2))),
        row(1, "Dark Magician", None, Some(printing("B", "Rare", 0))),
        row(2, "Kuriboh", None, Some(printing("A", "Common", 1))),
    ];
    let records = flat(fold_rows(rows.clone(), true));
    assert_eq!(records.len(), 3);
    assert_eq!(records[1].printing.as_ref().map(|p| p.set_code.as_str()), Some("B"));
    let cards = grouped(fold_rows(rows, false));
    assert_eq!(cards.len(), 2);
}

#[test]
fn flat_records_follow_their_rows() {
    let rows = vec![
        row(8, "Trap Hole", Some(ImageRef { image_id: 80, path: "img\\80.jpg".to_string() }), None),
        row(8, "Trap Hole", None, Some(printing("C", "Common", 3))),
    ];
    let records = flatten_rows(rows);
    assert_eq!(records.len(), 2);
    assert_eq!(records[0].image_path.as_deref(), Some("img/80.jpg"));
    assert!(records[0].has_alt_art);
    assert!(records[0].printing.is_none());
    assert_eq!(records[1].image_path, None);
    assert!(!records[1].has_alt_art);
    assert_eq!(records[1].printing.as_ref().and_then(|p| p.quantity), Some(3));
}

#[test]
fn missing_image_gives_no_path_and_no_alt_art() {
    let cards = group_rows(vec![row(11, "Gaia", None, None)]);
    assert_eq!(cards[0].image_path, None);
    assert_eq!(cards[0].img_base64, None);
    assert!(!cards[0].has_alt_art);
}

#[test]
fn alt_art_when_image_id_differs() {
    let cards = group_rows(vec![
        row(12, "Blue-Eyes", Some(ImageRef { image_id: 12, path: "img/12.jpg".to_string() }), None),
        row(13, "Red-Eyes", Some(ImageRef { image_id: 99, path: "img/99.jpg".to_string() }), None),
    ]);
    assert!(!cards[0].has_alt_art);
    assert!(cards[1].has_alt_art);
}

#[test]
fn listing_keeps_at_most_the_row_cap() {
    let mut rows = Vec::new();
    for i in 0..60 {
        rows.push(row(i, &format!("Card {:02}", i), None, None));
    }
    let cards = grouped(list_cards(&no_filter(), rows.clone()));
    assert_eq!(ROW_CAP, 50);
    assert_eq!(cards.len(), 50);
    for c in &cards {
        assert!(rows.iter().any(|r| r.info == c.info));
    }
    let mut capped = rows;
    cap_rows(&mut capped);
    assert_eq!(capped.len(), 50);
}

#[test]
fn short_input_is_not_capped() {
    let mut rows = vec![row(1, "A", None, None), row(2, "B", None, None)];
    cap_rows(&mut rows);
    assert_eq!(rows.len(), 2);
}

#[test]
fn heavily_printed_card_can_fill_the_cap() {
    let mut rows = Vec::new();
    for i in 0..55 {
        rows.push(row(1, "Polymerization", None, Some(printing(&format!("S{}", i), "Common", 0))));
    }
    rows.push(row(2, "Raigeki", None, None));
    let cards = grouped(list_cards(&no_filter(), rows));
    assert_eq!(cards.len(), 1);
    assert_eq!(cards[0].sets.len(), 50);
}

#[test]
fn listing_twice_gives_the_same_result() {
    let rows = vec![
        row(3, "Jinzo", None, Some(printing("PSV", "Ultra Rare", 1))),
        row(1, "Dark Magician", None, Some(printing("A", "Common", 2))),
        row(3, "Jinzo", None, Some(printing("DB1", "Rare", 0))),
    ];
    let filter = FilterSpec { name: Some("Jinzo".to_string()), card_type: None, set_name: None };
    let first = list_cards(&filter, rows.clone());
    let second = list_cards(&filter, rows);
    assert_eq!(first, second);
}

#[test]
fn exact_name_match_sorts_first() {
    let rows = vec![
        row(2, "Blue-Eyes Ultimate Dragon", None, None),
        row(1, "Blue-Eyes White Dragon", None, None),
    ];
    let filter = FilterSpec {
        name: Some("Blue-Eyes White Dragon".to_string()),
        card_type: None,
        set_name: None,
    };
    let cards = grouped(list_cards(&filter, rows));
    assert_eq!(cards[0].info.name, "Blue-Eyes White Dragon");
    assert_eq!(cards[1].info.name, "Blue-Eyes Ultimate Dragon");
}

#[test]
fn flat_listing_is_ranked_by_name() {
    let rows = vec![
        row(4, "Dark Magician Girl", None, Some(printing("A", "Rare", 1))),
        row(5, "Dark Hole", None, Some(printing("A", "Rare", 1))),
        row(6, "DARK MAGICIAN", None, Some(printing("A", "Rare", 1))),
    ];
    let filter = FilterSpec {
        name: Some("dark magician".to_string()),
        card_type: None,
        set_name: Some("Set A".to_string()),
    };
    let records = flat(list_cards(&filter, rows));
    let names: Vec<&str> = records.iter().map(|r| r.info.name.as_str()).collect();
    assert_eq!(names, vec!["DARK MAGICIAN", "Dark Hole", "Dark Magician Girl"]);
}

#[test]
fn empty_input_gives_empty_listing() {
    assert!(grouped(list_cards(&no_filter(), Vec::new())).is_empty());
    let filter = FilterSpec { name: None, card_type: None, set_name: Some("X".to_string()) };
    assert!(flat(list_cards(&filter, Vec::new())).is_empty());
}
