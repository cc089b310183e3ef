use mflash_core::importer::{from_csv_bytes, CsvError};
use mflash_core::optimizer::{convert_image, webp_path_for};
use mflash_core::workspace::{pack_archive, unpack_plan, UnpackAction, WorkspaceEntry, ARCHIVE_MODE};
use std::io::{Cursor, Read, Write};

fn zip_bytes(entries: &[(&str, Option<&[u8]>)]) -> Vec<u8> {
    let mut zip = zip::ZipWriter::new(Cursor::new(Vec::new()));
    let options = zip::write::SimpleFileOptions::default();
    for (name, contents) in entries {
        match contents {
            Some(data) => {
                zip.start_file(*name, options).unwrap();
                zip.write_all(data).unwrap();
            }
            None => zip.add_directory(*name, options).unwrap(),
        }
    }
    zip.finish().unwrap().into_inner()
}

fn entry(relative: &str, is_file: bool, is_dir: bool, contents: &[u8]) -> WorkspaceEntry {
    WorkspaceEntry {
        relative: relative.to_string(),
        is_file,
        is_dir,
        contents: contents.to_vec(),
    }
}

#[test]
fn csv_bytes_give_one_card_per_record() {
    let deck = from_csv_bytes("hola,hello\nadiós,goodbye\n".as_bytes()).unwrap();
    assert_eq!(deck.title, "Imported Deck");
    assert_eq!(deck.cards.len(), 2);
    assert_eq!(deck.cards[0].id, "imported_card_0");
    assert_eq!(deck.cards[0].term.as_deref(), Some("hola"));
    assert_eq!(deck.cards[0].definition.as_deref(), Some("hello"));
    assert_eq!(deck.cards[1].id, "imported_card_1");
    assert_eq!(deck.cards[1].term.as_deref(), Some("adiós"));
    assert_eq!(deck.cards[1].kind, 1);
}

#[test]
fn csv_first_line_is_a_record() {
    let deck = from_csv_bytes(b"term,definition\n\"a, quoted\",b\n").unwrap();
    assert_eq!(deck.cards.len(), 2);
    assert_eq!(deck.cards[0].term.as_deref(), Some("term"));
    assert_eq!(deck.cards[1].term.as_deref(), Some("a, quoted"));
}

#[test]
fn csv_single_column_gives_no_cards() {
    let deck = from_csv_bytes(b"one\ntwo\n").unwrap();
    assert_eq!(deck.title, "Imported Deck");
    assert!(deck.cards.is_empty());
}

#[test]
fn csv_empty_file_gives_empty_deck() {
    let deck = from_csv_bytes(b"").unwrap();
    assert!(deck.cards.is_empty());
}

#[test]
fn csv_unequal_records_are_refused() {
    assert_eq!(from_csv_bytes(b"a,b\nc\n"), Err(CsvError::Malformed));
    assert_eq!(from_csv_bytes(b"a,b\nc,d,e\n"), Err(CsvError::Malformed));
}

#[test]
fn csv_invalid_utf8_is_refused() {
    assert_eq!(from_csv_bytes(&[0x61, 0x2c, 0xff, 0x0a]), Err(CsvError::Malformed));
}

#[test]
fn unpack_plan_skips_names_leaving_the_workspace() {
    let archive = zip_bytes(&[
        ("../evil.txt", Some(b"bad")),
        ("dir/", None),
        ("dir/a.txt", Some(b"hello")),
        ("/abs.txt", Some(b"abs")),
    ]);
    let steps = unpack_plan(&archive).unwrap();
    assert_eq!(steps.len(), 4);
    assert_eq!(steps[0].action, UnpackAction::Skip);
    assert_eq!(steps[0].path, None);
    assert_eq!(steps[1].action, UnpackAction::CreateDir);
    assert_eq!(steps[1].path.as_deref(), Some("dir"));
    assert_eq!(steps[2].action, UnpackAction::WriteFile);
    assert_eq!(steps[2].path.as_deref(), Some("dir/a.txt"));
    assert_eq!(steps[2].contents, b"hello".to_vec());
    assert_eq!(steps[3].action, UnpackAction::WriteFile);
    assert_eq!(steps[3].path.as_deref(), Some("abs.txt"));
    assert_eq!(steps[3].contents, b"abs".to_vec());
}

#[test]
fn unpack_plan_refuses_bytes_that_are_no_archive() {
    assert!(unpack_plan(b"not a zip archive").is_none());
    assert!(unpack_plan(&[]).is_none());
}

#[test]
fn pack_archive_writes_zstd_entries_with_forward_slashes() {
    let entries = vec![
        entry("", false, true, b""),
        entry("sub", false, true, b""),
        entry("sub\\card.txt", true, false, b"front and back"),
        entry("deck.pb", true, false, &[8, 1]),
    ];
    let bytes = pack_archive(&entries).unwrap();
    let mut zip = zip::ZipArchive::new(Cursor::new(bytes)).unwrap();
    assert_eq!(zip.len(), 3);
    let names: Vec<String> = (0..3).map(|i| zip.by_index(i).unwrap().name().unwrap().to_string()).collect();
    assert_eq!(names, vec!["sub/", "sub/card.txt", "deck.pb"]);
    let mut file = zip.by_index(1).unwrap();
    assert_eq!(file.compression(), zip::CompressionMethod::Zstd);
    assert_eq!(file.unix_mode().unwrap() & 0o777, ARCHIVE_MODE);
    let mut text = String::new();
    file.read_to_string(&mut text).unwrap();
    assert_eq!(text, "front and back");
}

#[test]
fn pack_then_unpack_gives_the_workspace_back() {
    let entries = vec![
        entry("", false, true, b""),
        entry("assets", false, true, b""),
        entry("assets/img.webp", true, false, &[1, 2, 3]),
        entry("deck.pb", true, false, &[10, 0]),
    ];
    let archive = pack_archive(&entries).unwrap();
    let steps = unpack_plan(&archive).unwrap();
    assert_eq!(steps.len(), 3);
    assert_eq!(steps[0].action, UnpackAction::CreateDir);
    assert_eq!(steps[0].path.as_deref(), Some("assets"));
    assert_eq!(steps[1].action, UnpackAction::WriteFile);
    assert_eq!(steps[1].path.as_deref(), Some("assets/img.webp"));
    assert_eq!(steps[1].contents, vec![1, 2, 3]);
    assert_eq!(steps[2].path.as_deref(), Some("deck.pb"));
    assert_eq!(steps[2].contents, vec![10, 0]);
}

#[test]
fn pack_archive_refuses_a_name_given_twice() {
    let entries = vec![entry("a.txt", true, false, b"1"), entry("a.txt", true, false, b"2")];
    assert!(pack_archive(&entries).is_none());
}

#[test]
fn pack_archive_of_an_empty_workspace_is_a_valid_archive() {
    let bytes = pack_archive(&vec![entry("", false, true, b"")]).unwrap();
    let zip = zip::ZipArchive::new(Cursor::new(bytes)).unwrap();
    assert_eq!(zip.len(), 0);
}

#[test]
fn webp_paths_replace_the_extension() {
    assert_eq!(webp_path_for("assets/cat.png", "png").as_deref(), Some("assets/cat.webp"));
    assert_eq!(webp_path_for("assets/photo.tar.JPG", "JPG").as_deref(), Some("assets/photo.tar.webp"));
    assert_eq!(webp_path_for("assets/x\\.png", "png").as_deref(), Some("assets/x\\.webp"));
    assert_eq!(webp_path_for("a.png", "png").as_deref(), Some("a.webp"));
}

#[test]
fn webp_paths_need_the_extension_at_the_end() {
    assert_eq!(webp_path_for("assets/cat.png", "jpg"), None);
    assert_eq!(webp_path_for("assets/cat.png", ""), None);
    assert_eq!(webp_path_for(".png", "png"), None);
    assert_eq!(webp_path_for("png", "png"), None);
    assert_eq!(webp_path_for("assets/catpng", "png"), None);
}

#[test]
fn convert_image_turns_png_into_lossless_webp() {
    let img = image::RgbImage::from_fn(3, 2, |x, y| image::Rgb([x as u8 * 40, y as u8 * 90, 7]));
    let mut png = Cursor::new(Vec::new());
    image::DynamicImage::ImageRgb8(img.clone())
        .write_to(&mut png, image::ImageFormat::Png)
        .unwrap();
    let conversion = convert_image("assets\\pic.png", "png", png.get_ref()).unwrap();
    assert_eq!(conversion.new_path, "assets\\pic.webp");
    assert_eq!(conversion.old_src, "assets/pic.png");
    assert_eq!(conversion.new_src, "assets/pic.webp");
    assert_eq!(&conversion.webp[0..4], b"RIFF");
    assert_eq!(&conversion.webp[8..12], b"WEBP");
    let back = image::load_from_memory_with_format(&conversion.webp, image::ImageFormat::WebP).unwrap();
    assert_eq!(back.to_rgb8(), img);
}

#[test]
fn convert_image_refuses_what_does_not_decode() {
    assert!(convert_image("assets/pic.png", "png", b"not an image").is_none());
    let img = image::RgbImage::from_fn(1, 1, |_, _| image::Rgb([1, 2, 3]));
    let mut png = Cursor::new(Vec::new());
    image::DynamicImage::ImageRgb8(img)
        .write_to(&mut png, image::ImageFormat::Png)
        .unwrap();
    assert!(convert_image("assets/pic.unknown", "unknown", png.get_ref()).is_none());
    assert!(convert_image("assets/pic.gif", "gif", png.get_ref()).is_none());
    assert!(convert_image("assets/pic.png", "jpg", png.get_ref()).is_none());
    assert!(convert_image("assets/pic.PNG", "PNG", png.get_ref()).is_some());
}
