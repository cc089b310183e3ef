use mflash_core::importer::{decimal_text, from_csv, imported_card_id_text, BASIC_CARD_KIND};
use mflash_core::pb::Card;

fn record(fields: &[&str]) -> Vec<String> {
    fields.iter().map(|f| f.to_string()).collect()
}

#[test]
fn from_csv_builds_one_card_per_two_column_record() {
    let records = vec![
        record(&["hola", "hello"]),
        record(&["only one column"]),
        record(&["adiós", "goodbye", "extra"]),
    ];
    let deck = from_csv(&records);
    assert_eq!(deck.title, "Imported Deck");
    assert_eq!(deck.id, "");
    assert_eq!(deck.version, 0);
    assert_eq!(deck.format, "");
    assert_eq!(deck.default_term_lang, None);
    assert_eq!(
        deck.cards,
        vec![
            Card {
                id: "imported_card_0".to_string(),
                kind: 1,
                term: Some("hola".to_string()),
                definition: Some("hello".to_string()),
                prompt: None,
                answer: None,
            },
            Card {
                id: "imported_card_2".to_string(),
                kind: BASIC_CARD_KIND,
                term: Some("adiós".to_string()),
                definition: Some("goodbye".to_string()),
                prompt: None,
                answer: None,
            },
        ]
    );
}

#[test]
fn from_csv_of_nothing() {
    let deck = from_csv(&Vec::new());
    assert_eq!(deck.title, "Imported Deck");
    assert!(deck.cards.is_empty());
}

#[test]
fn imported_ids_are_distinct() {
    let records: Vec<Vec<String>> = (0..25).map(|i| record(&[&i.to_string(), "d"])).collect();
    let deck = from_csv(&records);
    let mut ids: Vec<&String> = deck.cards.iter().map(|c| &c.id).collect();
    ids.sort();
    ids.dedup();
    assert_eq!(ids.len(), 25);
    assert_eq!(deck.cards[12].id, "imported_card_12");
}

#[test]
fn decimal_text_examples() {
    assert_eq!(decimal_text(0), "0");
    assert_eq!(decimal_text(7), "7");
    assert_eq!(decimal_text(10), "10");
    assert_eq!(decimal_text(1234509), "1234509");
    assert_eq!(decimal_text(usize::MAX), usize::MAX.to_string());
    assert_eq!(imported_card_id_text(42), "imported_card_42");
}
