use mflash_core::db::{deck_from_rows, deck_meta_row, media_column_status, MediaColumn, MetaRow};
use mflash_core::optimizer::{heavy_format, images_to_convert, is_convertible_image, AssetEntry};
use mflash_core::pb::{Card, Deck};
use mflash_core::workspace::{forward_slashes, pack_action, unpack_action, PackAction, UnpackAction};

fn deck() -> Deck {
    Deck {
        id: "d".to_string(),
        title: "T".to_string(),
        version: 3,
        default_term_lang: Some("en".to_string()),
        default_def_lang: Some("fr".to_string()),
        format: "something".to_string(),
        cards: vec![Card { id: "c".to_string(), kind: 1, ..Card::default() }],
    }
}

#[test]
fn meta_row_of_deck() {
    let row = deck_meta_row(&deck());
    assert_eq!(
        row,
        MetaRow {
            id: "d".to_string(),
            title: "T".to_string(),
            version: 3,
            default_term_lang: Some("en".to_string()),
            default_def_lang: Some("fr".to_string()),
        }
    );
}

#[test]
fn export_of_import_gives_the_deck_in_mflash_format() {
    let d = deck();
    let back = deck_from_rows(deck_meta_row(&d), d.cards.clone());
    assert_eq!(back, Deck { format: "mflash".to_string(), ..d });
}

#[test]
fn media_column_cases() {
    let cols = |names: &[Option<&str>]| -> Vec<Option<String>> {
        names.iter().map(|n| n.map(|s| s.to_string())).collect()
    };
    assert_eq!(media_column_status(&cols(&[Some("id"), Some("kind"), Some("media")])), MediaColumn::Present);
    assert_eq!(media_column_status(&cols(&[Some("id"), Some("answer")])), MediaColumn::Missing);
    assert_eq!(media_column_status(&cols(&[])), MediaColumn::Missing);
    assert_eq!(media_column_status(&cols(&[Some("id"), None, Some("media")])), MediaColumn::Unreadable(1));
    assert_eq!(media_column_status(&cols(&[Some("media"), None])), MediaColumn::Present);
    assert_eq!(media_column_status(&cols(&[Some("Media")])), MediaColumn::Missing);
}

#[test]
fn unpack_actions() {
    assert_eq!(unpack_action(false, false), UnpackAction::Skip);
    assert_eq!(unpack_action(false, true), UnpackAction::Skip);
    assert_eq!(unpack_action(true, true), UnpackAction::CreateDir);
    assert_eq!(unpack_action(true, false), UnpackAction::WriteFile);
}

#[test]
fn pack_actions() {
    assert_eq!(pack_action("", false, true), PackAction::Skip);
    assert_eq!(pack_action("assets\\img.png", true, false), PackAction::AddFile("assets/img.png".to_string()));
    assert_eq!(pack_action("assets", false, true), PackAction::AddDirectory("assets".to_string()));
    assert_eq!(pack_action("socket", false, false), PackAction::Skip);
}

#[test]
fn forward_slash_examples() {
    assert_eq!(forward_slashes("a\\b\\c.png"), "a/b/c.png");
    assert_eq!(forward_slashes("a/b"), "a/b");
    assert_eq!(forward_slashes("\\\\"), "//");
    assert_eq!(forward_slashes("é\\ü"), "é/ü");
}

#[test]
fn heavy_formats() {
    assert!(heavy_format(&"png".to_string()));
    assert!(heavy_format(&"jpg".to_string()));
    assert!(heavy_format(&"jpeg".to_string()));
    assert!(!heavy_format(&"PNG".to_string()));
    assert!(!heavy_format(&"gif".to_string()));
    assert!(!heavy_format(&"jpe".to_string()));
}

#[test]
fn convertible_extensions() {
    assert!(is_convertible_image("png"));
    assert!(is_convertible_image("PNG"));
    assert!(is_convertible_image("Jpg"));
    assert!(is_convertible_image("JPEG"));
    assert!(!is_convertible_image("webp"));
    assert!(!is_convertible_image("gif"));
    assert!(!is_convertible_image(""));
}

#[test]
fn images_to_convert_picks_heavy_files() {
    let e = |is_file: bool, ext: Option<&str>| AssetEntry { is_file, extension: ext.map(|s| s.to_string()) };
    let entries = vec![
        e(true, Some("png")),
        e(false, Some("png")),
        e(true, Some("webp")),
        e(true, None),
        e(true, Some("JPEG")),
    ];
    assert_eq!(images_to_convert(&entries), vec![0, 4]);
    assert!(images_to_convert(&Vec::new()).is_empty());
}

#[test]
fn media_migration_is_done_once() {
    let mut columns: Vec<Option<String>> = ["id", "kind", "term", "definition", "prompt", "answer"]
        .iter()
        .map(|n| Some(n.to_string()))
        .collect();
    assert_eq!(media_column_status(&columns), MediaColumn::Missing);
    columns.push(Some("media".to_string()));
    assert_eq!(media_column_status(&columns), MediaColumn::Present);
}
