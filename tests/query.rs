use ygodatabase::query::{build_card_query, collect_results, FilterSpec, CARD_QUERY, ROW_CAP};

fn binding<'a>(q: &'a ygodatabase::query::BoundQuery, name: &str) -> Option<&'a str> {
    let p = q.params.iter().find(|p| p.name == name).expect("parameter is bound");
    p.value.as_deref()
}

#[test]
fn absent_filters_bind_null() {
    let q = build_card_query(&FilterSpec { name: None, card_type: None, set_name: None });
    assert_eq!(q.sql, CARD_QUERY);
    assert_eq!(q.params.len(), 4);
    assert_eq!(binding(&q, ":name"), None);
    assert_eq!(binding(&q, ":name_exact"), None);
    assert_eq!(binding(&q, ":card_type"), None);
    assert_eq!(binding(&q, ":set"), None);
}

#[test]
fn name_is_bound_as_substring_pattern() {
    let q = build_card_query(&FilterSpec {
        name: Some("Dragon".to_string()),
        card_type: Some("Normal Monster".to_string()),
        set_name: Some("Legend of Blue Eyes".to_string()),
    });
    assert_eq!(binding(&q, ":name"), Some("%Dragon%"));
    assert_eq!(binding(&q, ":name_exact"), Some("Dragon"));
    assert_eq!(binding(&q, ":card_type"), Some("Normal Monster"));
    assert_eq!(binding(&q, ":set"), Some("Legend of Blue Eyes"));
}

#[test]
fn query_text_has_optional_clauses_and_cap() {
    assert!(CARD_QUERY.contains("(:name IS NULL OR c.name LIKE :name)"));
    assert!(CARD_QUERY.contains("(:card_type IS NULL OR c.type = :card_type)"));
    assert!(CARD_QUERY.contains("(:set IS NULL OR cs.set_name = :set)"));
    assert!(CARD_QUERY.ends_with(&format!("LIMIT {}", ROW_CAP)));
}

#[test]
fn all_decoded_rows_are_collected() {
    let r = collect_results(vec![Ok(1), Ok(2), Ok(3)]);
    assert_eq!(r, Ok(vec![1, 2, 3]));
    let empty: Vec<Result<i32, String>> = Vec::new();
    assert_eq!(collect_results(empty), Ok(Vec::new()));
}

#[test]
fn first_decode_error_discards_the_rows() {
    let r = collect_results(vec![
        Ok(1),
        Err("bad column 2".to_string()),
        Ok(3),
        Err("bad column 4".to_string()),
    ]);
    assert_eq!(r, Err("bad column 2".to_string()));
}
