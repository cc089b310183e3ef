use mflash_core::codec::{decode_deck, encode_card, encode_deck, MalformedDeck};
use mflash_core::pb::{Card, Deck};
use mflash_core::schema::{read_deck, write_deck, SchemaError};
use mflash_core::varint::{read_varint, write_varint};
use mflash_core::wire::{read_key, read_string, skip_value};
use prost::encoding::{encode_key, encode_varint, int32, string, uint32, WireType};

fn sample_card(id: &str, kind: i32) -> Card {
    Card {
        id: id.to_string(),
        kind,
        term: Some("der Hund".to_string()),
        definition: Some("the dog".to_string()),
        prompt: None,
        answer: Some(String::new()),
    }
}

fn sample_deck() -> Deck {
    Deck {
        id: "deck-1".to_string(),
        title: "Deutsch Vokabeln ü".to_string(),
        version: 4,
        default_term_lang: Some("de".to_string()),
        default_def_lang: None,
        format: "mflash".to_string(),
        cards: vec![sample_card("c1", 1), sample_card("c2", -3)],
    }
}

fn prost_card(card: &Card) -> Vec<u8> {
    let mut buf = Vec::new();
    if !card.id.is_empty() {
        string::encode(1, &card.id, &mut buf);
    }
    if card.kind != 0 {
        int32::encode(2, &card.kind, &mut buf);
    }
    for (tag, v) in [(3, &card.term), (4, &card.definition), (5, &card.prompt), (6, &card.answer)] {
        if let Some(t) = v {
            string::encode(tag, t, &mut buf);
        }
    }
    buf
}

fn prost_deck(deck: &Deck) -> Vec<u8> {
    let mut buf = Vec::new();
    if !deck.id.is_empty() {
        string::encode(1, &deck.id, &mut buf);
    }
    if !deck.title.is_empty() {
        string::encode(2, &deck.title, &mut buf);
    }
    if deck.version != 0 {
        uint32::encode(3, &deck.version, &mut buf);
    }
    if let Some(t) = &deck.default_term_lang {
        string::encode(4, t, &mut buf);
    }
    if let Some(t) = &deck.default_def_lang {
        string::encode(5, t, &mut buf);
    }
    if !deck.format.is_empty() {
        string::encode(6, &deck.format, &mut buf);
    }
    for card in &deck.cards {
        let body = prost_card(card);
        encode_key(7, WireType::LengthDelimited, &mut buf);
        encode_varint(body.len() as u64, &mut buf);
        buf.extend_from_slice(&body);
    }
    buf
}

#[test]
fn encode_matches_prost_field_encoders() {
    let deck = sample_deck();
    assert_eq!(encode_deck(&deck), prost_deck(&deck));
}

#[test]
fn encode_card_exact_bytes() {
    let card = Card { id: "a".to_string(), kind: 1, term: Some("x".to_string()), ..Card::default() };
    let mut out = vec![0xff];
    encode_card(&card, &mut out);
    assert_eq!(out, vec![0xff, 0x0a, 0x01, b'a', 0x10, 0x01, 0x1a, 0x01, b'x']);
}

#[test]
fn negative_kind_takes_ten_bytes() {
    let card = Card { kind: -1, ..Card::default() };
    let mut out = Vec::new();
    encode_card(&card, &mut out);
    assert_eq!(out, vec![0x10, 0xff, 0xff, 0xff, 0xff, 0xff, 0xff, 0xff, 0xff, 0xff, 0x01]);
}

#[test]
fn default_deck_encodes_to_nothing() {
    assert_eq!(encode_deck(&Deck::default()), Vec::<u8>::new());
    assert_eq!(decode_deck(&[]), Ok(Deck::default()));
}

#[test]
fn deck_roundtrip() {
    let deck = sample_deck();
    let bytes = encode_deck(&deck);
    assert_eq!(decode_deck(&bytes), Ok(deck));
}

#[test]
fn schema_write_then_read() {
    let deck = sample_deck();
    let bytes = write_deck(&deck);
    assert_eq!(read_deck(Some(&bytes)), Ok(deck));
}

#[test]
fn schema_missing_file() {
    assert_eq!(read_deck(None), Err(SchemaError::MissingDeckFile));
}

#[test]
fn schema_invalid_contents() {
    assert_eq!(read_deck(Some(&[0x0a, 0x05, b'a'])), Err(SchemaError::InvalidDeck));
}

#[test]
fn decode_skips_unknown_fields() {
    let mut buf = Vec::new();
    uint32::encode(15, &77, &mut buf);
    string::encode(1, &"x".to_string(), &mut buf);
    encode_key(9, WireType::StartGroup, &mut buf);
    uint32::encode(1, &5, &mut buf);
    encode_key(9, WireType::EndGroup, &mut buf);
    encode_key(10, WireType::ThirtyTwoBit, &mut buf);
    buf.extend_from_slice(&[1, 2, 3, 4]);
    let deck = decode_deck(&buf).unwrap();
    assert_eq!(deck.id, "x");
    assert_eq!(deck.cards.len(), 0);
}

#[test]
fn decode_last_value_wins_and_cards_accumulate() {
    let mut buf = Vec::new();
    string::encode(2, &"first".to_string(), &mut buf);
    let body = prost_card(&sample_card("c", 1));
    encode_key(7, WireType::LengthDelimited, &mut buf);
    encode_varint(body.len() as u64, &mut buf);
    buf.extend_from_slice(&body);
    string::encode(2, &"second".to_string(), &mut buf);
    encode_key(7, WireType::LengthDelimited, &mut buf);
    encode_varint(0, &mut buf);
    let deck = decode_deck(&buf).unwrap();
    assert_eq!(deck.title, "second");
    assert_eq!(deck.cards, vec![sample_card("c", 1), Card::default()]);
}

#[test]
fn decode_rejects_wrong_wire_type() {
    let mut buf = Vec::new();
    uint32::encode(1, &3, &mut buf);
    assert_eq!(decode_deck(&buf), Err(MalformedDeck));
}

#[test]
fn decode_rejects_invalid_utf8() {
    assert_eq!(decode_deck(&[0x0a, 0x02, 0xc3, 0x28]), Err(MalformedDeck));
}

#[test]
fn decode_rejects_truncated_input() {
    let bytes = encode_deck(&sample_deck());
    assert_eq!(decode_deck(&bytes[..bytes.len() - 1]), Err(MalformedDeck));
}

#[test]
fn decode_rejects_field_zero_and_stray_end_group() {
    assert_eq!(decode_deck(&[0x02, 0x00]), Err(MalformedDeck));
    assert_eq!(decode_deck(&[0x0c]), Err(MalformedDeck));
}

#[test]
fn decode_rejects_card_field_running_past_its_entry() {
    // a card entry of length 2 whose string field claims 3 bytes
    let buf = vec![0x3a, 0x02, 0x0a, 0x03, b'a', b'b', b'c'];
    assert_eq!(decode_deck(&buf), Err(MalformedDeck));
}

#[test]
fn decode_reads_version_truncated_to_32_bits() {
    let mut buf = Vec::new();
    encode_key(3, WireType::Varint, &mut buf);
    encode_varint(0x1_0000_0005, &mut buf);
    assert_eq!(decode_deck(&buf).unwrap().version, 5);
}

fn nested_groups(depth: usize) -> Vec<u8> {
    let mut buf = Vec::new();
    for _ in 0..depth {
        encode_key(20, WireType::StartGroup, &mut buf);
    }
    for _ in 0..depth {
        encode_key(20, WireType::EndGroup, &mut buf);
    }
    buf
}

#[test]
fn decode_deep_groups_hit_the_recursion_limit() {
    assert!(decode_deck(&nested_groups(100)).is_ok());
    assert_eq!(decode_deck(&nested_groups(101)), Err(MalformedDeck));
}

#[test]
fn skip_value_agrees_with_prost_skip_field() {
    for depth in [1usize, 2, 99, 100, 101] {
        let bytes = nested_groups(depth);
        let after_key = &bytes[2..];
        let mut buf: &[u8] = after_key;
        let prost = prost::encoding::skip_field(WireType::StartGroup, 20, &mut buf, prost::encoding::DecodeContext::default())
            .ok()
            .map(|_| after_key.len() - buf.len());
        assert_eq!(skip_value(3, 20, after_key, 100), prost, "depth {}", depth);
    }
}

#[test]
fn varint_examples() {
    let mut out = Vec::new();
    write_varint(300, &mut out);
    assert_eq!(out, vec![0xac, 0x02]);
    assert_eq!(read_varint(&[0xac, 0x02, 0x99]), Some((300, 2)));
    assert_eq!(read_varint(&[0x80, 0x00]), Some((0, 2)));
    let mut max = Vec::new();
    write_varint(u64::MAX, &mut max);
    assert_eq!(max.len(), 10);
    assert_eq!(read_varint(&max), Some((u64::MAX, 10)));
    assert_eq!(read_varint(&[0xff; 9]), None);
    assert_eq!(read_varint(&[0xff, 0xff, 0xff, 0xff, 0xff, 0xff, 0xff, 0xff, 0xff, 0x02]), None);
    assert_eq!(read_varint(&[]), None);
}

#[test]
fn key_examples() {
    assert_eq!(read_key(&[0x3a]), Some((7, 2, 1)));
    assert_eq!(read_key(&[0x07]), None);
    assert_eq!(read_key(&[0x06]), None);
    assert_eq!(read_key(&[0x80, 0x80, 0x80, 0x80, 0x10]), None);
}

#[test]
fn string_value_examples() {
    assert_eq!(read_string(2, &[0x02, 0xc3, 0xa9, 0x00]), Some(("é".to_string(), 3)));
    assert_eq!(read_string(0, &[0x00]), None);
    assert_eq!(read_string(2, &[0x05, b'a']), None);
}

#[test]
fn skip_value_examples() {
    assert_eq!(skip_value(0, 9, &[0x96, 0x01, 0x00], 100), Some(2));
    assert_eq!(skip_value(1, 9, &[0; 8], 100), Some(8));
    assert_eq!(skip_value(1, 9, &[0; 7], 100), None);
    assert_eq!(skip_value(5, 9, &[0; 4], 100), Some(4));
    assert_eq!(skip_value(2, 9, &[0x02, 1, 2, 3], 100), Some(3));
    assert_eq!(skip_value(4, 9, &[], 100), None);
    assert_eq!(skip_value(0, 9, &[0x01], 0), None);
    // group 9 holding field 1 = 1, closed by the end-group key of field 9
    assert_eq!(skip_value(3, 9, &[0x08, 0x01, 0x4c], 100), Some(3));
    // closed by the end-group key of another field
    assert_eq!(skip_value(3, 9, &[0x08, 0x01, 0x54], 100), None);
}

#[test]
fn read_key_agrees_with_prost_decode_key() {
    let inputs: Vec<Vec<u8>> = vec![
        vec![0x08],
        vec![0x3a, 0x00],
        vec![0x07],
        vec![0x06],
        vec![0x00],
        vec![0xf8, 0xff, 0xff, 0xff, 0x0f],
        vec![0x80, 0x80, 0x80, 0x80, 0x10],
        vec![0x88],
        vec![],
    ];
    for input in inputs {
        let mut buf: &[u8] = &input;
        let prost = prost::encoding::decode_key(&mut buf)
            .ok()
            .map(|(tag, wt)| (tag, wt as u8, input.len() - buf.len()));
        assert_eq!(read_key(&input), prost, "input {:?}", input);
    }
}

#[test]
fn read_string_agrees_with_prost_string_merge() {
    let inputs: Vec<Vec<u8>> = vec![
        vec![0x03, b'a', b'b', b'c', b'd'],
        vec![0x00],
        vec![0x02, 0xc3, 0xa9],
        vec![0x02, 0xc3, 0x28],
        vec![0x04, b'a'],
        vec![0x80],
    ];
    for input in inputs {
        let mut buf: &[u8] = &input;
        let mut value = String::new();
        let prost = prost::encoding::string::merge(
            WireType::LengthDelimited,
            &mut value,
            &mut buf,
            prost::encoding::DecodeContext::default(),
        )
        .ok()
        .map(|_| (value.clone(), input.len() - buf.len()));
        assert_eq!(read_string(2, &input), prost, "input {:?}", input);
    }
}
