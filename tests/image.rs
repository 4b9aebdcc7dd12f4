use ygodatabase::aggregate::group_rows;
use ygodatabase::image::{has_alt_art, image_location, image_payload, normalize_image_path};
use ygodatabase::records::{CardInfo, ImageRef, RawJoinedRow};

#[test]
fn backslash_and_slash_paths_resolve_alike() {
    let a = image_location("E:/ygodatabase", "img\\12345.jpg");
    let b = image_location("E:/ygodatabase", "img/12345.jpg");
    assert_eq!(a, "E:/ygodatabase/img/12345.jpg");
    assert_eq!(a, b);
}

#[test]
fn normalization_changes_only_backslashes() {
    assert_eq!(normalize_image_path("a\\b\\c.png"), "a/b/c.png");
    assert_eq!(normalize_image_path("a/b c.png"), "a/b c.png");
    assert_eq!(normalize_image_path(""), "");
}

#[test]
fn alt_art_flag() {
    assert!(!has_alt_art(1, &None));
    assert!(!has_alt_art(1, &Some(ImageRef { image_id: 1, path: "x".to_string() })));
    assert!(has_alt_art(1, &Some(ImageRef { image_id: 2, path: "x".to_string() })));
}

#[test]
fn payload_is_standard_base64() {
    assert_eq!(image_payload(Some(vec![1, 2, 3])).as_deref(), Some("AQID"));
    assert_eq!(image_payload(Some(b"Man".to_vec())).as_deref(), Some("TWFu"));
    assert_eq!(image_payload(Some(vec![0xff])).as_deref(), Some("/w=="));
    assert_eq!(image_payload(Some(Vec::new())).as_deref(), Some(""));
}

#[test]
fn failed_read_gives_no_payload() {
    assert_eq!(image_payload(None), None);
}

#[test]
fn card_image_is_located_and_attached() {
    let row = RawJoinedRow {
        info: CardInfo {
            id: 46986414,
            name: "Dark Magician".to_string(),
            card_type: "Normal Monster".to_string(),
            description: String::new(),
            atk: Some(2500),
            def: Some(2100),
            level: Some(7),
            type_line: None,
        },
        image: Some(ImageRef { image_id: 46986414, path: "img\\46986414.jpg".to_string() }),
        printing: None,
    };
    let mut cards = group_rows(vec![row]);
    let card = &mut cards[0];
    assert_eq!(card.image_location("/data").as_deref(), Some("/data/img/46986414.jpg"));
    card.attach_image(Some(vec![1, 2, 3]));
    assert_eq!(card.img_base64.as_deref(), Some("AQID"));
    card.attach_image(None);
    assert_eq!(card.img_base64, None);
}
