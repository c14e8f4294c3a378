use content_script::error::ADHDError;
use content_script::legacy::{note_of, parse_legacy, split_fields};
use content_script::sources::{menu_source, song_format, SongFormat};
use content_script::text::same_text;
use rosu_map::util::ParseNumberError;

fn strings(items: &[&str]) -> Vec<String> {
    items.iter().map(|s| s.to_string()).collect()
}

fn notes_of(text: &str) -> Option<Vec<(String, i32)>> {
    parse_legacy(text).map(|list| list.into_iter().map(|n| (n.time, n.lane)).collect())
}

#[test]
fn song_extensions_are_recognised() {
    assert!(matches!(song_format("songs/a.osu", Some("osu")), Ok(SongFormat::Osu)));
    assert!(matches!(song_format("songs/a.v2", Some("v2")), Ok(SongFormat::LegacyV2)));
}

#[test]
fn other_song_extensions_are_refused() {
    for extension in [Some("men"), Some("OSU"), Some("osu "), Some(""), Some("v3"), None] {
        match song_format("songs/a.txt", extension) {
            Err(ADHDError::InvalidFileExtension(path)) => assert_eq!(path, "songs/a.txt"),
            _ => panic!("the extension is not a song's"),
        }
    }
}

#[test]
fn menu_extension_is_recognised() {
    assert!(menu_source("menu/main.men", Some("men")).is_ok());
}

#[test]
fn other_menu_extensions_are_refused() {
    for extension in [Some("osu"), Some("v2"), Some("Men"), Some(""), None] {
        match menu_source("menu/main.txt", extension) {
            Err(ADHDError::InvalidFileExtension(path)) => assert_eq!(path, "menu/main.txt"),
            _ => panic!("the extension is not a menu's"),
        }
    }
}

#[test]
fn same_text_compares_characters() {
    assert!(same_text("", ""));
    assert!(same_text("osu", "osu"));
    assert!(!same_text("osu", "osu "));
    assert!(!same_text("osu", "osU"));
}

#[test]
fn fields_are_runs_between_separators() {
    assert_eq!(split_fields(""), strings(&[""]));
    assert_eq!(split_fields("abc"), strings(&["abc"]));
    assert_eq!(split_fields("X"), strings(&["", ""]));
    assert_eq!(split_fields("V2X"), strings(&["V2", ""]));
    assert_eq!(split_fields("aXXb"), strings(&["a", "", "b"]));
    assert_eq!(split_fields("V2XOX1.5X2X"), strings(&["V2", "O", "1.5", "2", ""]));
    assert_eq!(split_fields("axb"), strings(&["axb"]));
}

#[test]
fn fields_agree_with_split() {
    for text in ["", "X", "XX", "aXb", "V2XOX0.25X1XOX3X4X", "no separator", "éXüX"] {
        let expected: Vec<String> = text.split('X').map(|s| s.to_string()).collect();
        assert_eq!(split_fields(text), expected);
    }
}

#[test]
fn legacy_song_without_notes() {
    assert_eq!(notes_of("V2X"), Some(Vec::new()));
}

#[test]
fn legacy_song_with_notes() {
    assert_eq!(
        notes_of("V2XOX1.5X2XOX3X4X"),
        Some(vec![("1.5".to_string(), 2), ("3".to_string(), 4)])
    );
    assert_eq!(notes_of("V2XOX 7.25 X -3 X"), Some(vec![(" 7.25 ".to_string(), -3)]));
}

#[test]
fn legacy_song_needs_marker_and_closing_field() {
    assert_eq!(notes_of(""), None);
    assert_eq!(notes_of("V2"), None);
    assert_eq!(notes_of("V3X"), None);
    assert_eq!(notes_of("v2X"), None);
    assert_eq!(notes_of("V2XOX1.5X2"), None);
    assert_eq!(notes_of("V2XOX1.5X2Xtail"), None);
}

#[test]
fn legacy_record_needs_opcode_and_fields() {
    assert_eq!(notes_of("V2XPX1.5X2X"), None);
    assert_eq!(notes_of("V2XOX1.5X"), None);
    assert_eq!(notes_of("V2XOX"), None);
    assert_eq!(notes_of("V2XX"), None);
    assert_eq!(notes_of("V2XOX1.5X2XOX"), None);
}

#[test]
fn legacy_lane_must_be_a_number() {
    assert_eq!(notes_of("V2XOX1.5XtwoX"), None);
    assert_eq!(notes_of("V2XOX1.5X2.5X"), None);
    assert_eq!(notes_of("V2XOX1.5XX"), None);
    assert_eq!(notes_of("V2XOX1.5X99999999999X"), None);
    assert_eq!(notes_of("V2XOX1.5X2147483647X"), Some(vec![("1.5".to_string(), i32::MAX)]));
}

#[test]
fn note_follows_lane_reading() {
    let time = "1.5".to_string();
    let read = note_of(&time, Ok(3)).unwrap();
    assert_eq!((read.time.as_str(), read.lane), ("1.5", 3));
    assert!(note_of(&time, Err(ParseNumberError::NaN)).is_none());
    assert!(note_of(&time, Err(ParseNumberError::NumberOverflow)).is_none());
}
