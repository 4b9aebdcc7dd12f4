use ygodatabase::ranking::rank_rows;
use ygodatabase::records::{CardInfo, RawJoinedRow};
use ygodatabase::text::{lex_less, same_ignoring_ascii_case};

fn named(id: i64, name: &str) -> RawJoinedRow {
    RawJoinedRow {
        info: CardInfo {
            id,
            name: name.to_string(),
            card_type: "Spell Card".to_string(),
            description: String::new(),
            atk: None,
            def: None,
            level: None,
            type_line: None,
        },
        image: None,
        printing: None,
    }
}

fn ids(rows: &[RawJoinedRow]) -> Vec<i64> {
    rows.iter().map(|r| r.info.id).collect()
}

#[test]
fn exact_match_precedes_partial_matches() {
    let rows = vec![named(1, "Blue-Eyes Ultimate Dragon"), named(2, "Blue-Eyes White Dragon")];
    let ranked = rank_rows(rows, &Some("Blue-Eyes White Dragon".to_string()));
    assert_eq!(ids(&ranked), vec![2, 1]);
}

#[test]
fn without_query_rows_sort_by_name() {
    let rows = vec![named(1, "Monster Reborn"), named(2, "Change of Heart"), named(3, "Dark Hole")];
    let ranked = rank_rows(rows, &None);
    assert_eq!(ids(&ranked), vec![2, 3, 1]);
}

#[test]
fn equal_names_keep_their_order() {
    let rows = vec![named(1, "Kuriboh"), named(2, "Jinzo"), named(3, "Kuriboh"), named(4, "Jinzo")];
    let ranked = rank_rows(rows, &Some("kuriboh".to_string()));
    assert_eq!(ids(&ranked), vec![1, 3, 2, 4]);
}

#[test]
fn ascii_case_is_ignored() {
    assert!(same_ignoring_ascii_case("Dark Magician", "dARK mAGICIAN"));
    assert!(!same_ignoring_ascii_case("Dark Magician", "Dark Magician Girl"));
    assert!(!same_ignoring_ascii_case("Dark", "Dork"));
    assert!(same_ignoring_ascii_case("", ""));
}

#[test]
fn lexical_order_by_code_point() {
    assert!(lex_less("Abc", "Abd"));
    assert!(lex_less("Ab", "Abc"));
    assert!(!lex_less("Abc", "Abc"));
    assert!(!lex_less("b", "B"));
    assert!(lex_less("", "a"));
    assert!(!lex_less("a", ""));
}
