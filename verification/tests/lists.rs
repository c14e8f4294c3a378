use content_script::error::ADHDError;
use content_script::lists::{determine_container, encode_segments, select_container, vec_to_string};
use content_script::script::{ContentScriptOpcode, ScriptWriter};
use content_script::text::{contains_char, starts_with_char};

fn strings(items: &[&str]) -> Vec<String> {
    items.iter().map(|s| s.to_string()).collect()
}

/// Reads an encoded list back: a token that begins with `$` is a switch
/// marker and a wrapped segment follows it; any other token is a wrapped
/// segment closed by the active delimiter.
fn read_back(text: &str) -> Option<Vec<String>> {
    let chars: Vec<char> = text.chars().collect();
    let mut segments = Vec::new();
    let mut active: Option<char> = None;
    let mut at = 0;
    while at < chars.len() {
        if chars[at] == '$' {
            if at + 1 >= chars.len() {
                return None;
            }
            active = Some(chars[at + 1]);
            at += 2;
        }
        let delimiter = active?;
        let mut end = at;
        while end < chars.len() && chars[end] != delimiter {
            end += 1;
        }
        if end >= chars.len() {
            return None;
        }
        segments.push(chars[at..end].iter().collect());
        at = end + 1;
    }
    Some(segments)
}

const ALL_CANDIDATES: &str = "[]<>()abcdefghijklmnopqrstuvwxyz";

#[test]
fn selector_takes_first_candidate_without_active() {
    assert_eq!(select_container(None, "hello"), Some('['));
    assert_eq!(select_container(None, ""), Some('['));
}

#[test]
fn selector_skips_candidates_in_segment() {
    assert_eq!(select_container(None, "[x]"), Some('<'));
    let picked = determine_container(&None, &"[x]".to_string());
    assert!(matches!(picked, Ok('<')));
}

#[test]
fn selector_walks_priority_order() {
    assert_eq!(select_container(None, "["), Some(']'));
    assert_eq!(select_container(None, "[]"), Some('<'));
    assert_eq!(select_container(None, "[]<"), Some('>'));
    assert_eq!(select_container(None, "[]<>"), Some('('));
    assert_eq!(select_container(None, "[]<>("), Some(')'));
    assert_eq!(select_container(None, "[]<>()"), Some('a'));
    assert_eq!(select_container(None, "[]<>()a"), Some('b'));
    assert_eq!(select_container(None, "[]<>()abcdefghijklmnopqrstuvwxy"), Some('z'));
}

#[test]
fn selector_keeps_valid_active() {
    assert_eq!(select_container(Some('q'), "hello"), Some('q'));
    assert_eq!(select_container(Some('!'), ALL_CANDIDATES), Some('!'));
    let picked = determine_container(&Some('q'), &"hello".to_string());
    assert!(matches!(picked, Ok('q')));
}

#[test]
fn selector_leaves_active_found_in_segment() {
    assert_eq!(select_container(Some('h'), "hello"), Some('['));
    assert_eq!(select_container(Some('['), "[hello"), Some(']'));
}

#[test]
fn selector_ignores_case_of_segment() {
    let picked = determine_container(&Some('h'), &"HELLO".to_string());
    assert!(matches!(picked, Ok('[')));
    let picked = determine_container(&None, &"[]<>()ABC".to_string());
    assert!(matches!(picked, Ok('d')));
}

#[test]
fn selector_reports_exhaustion_with_segment() {
    assert_eq!(select_container(None, ALL_CANDIDATES), None);
    assert_eq!(select_container(Some('a'), ALL_CANDIDATES), None);
    let segment = "[]<>()ABCDEFGHIJKLMNOPQRSTUVWXYZ".to_string();
    match determine_container(&None, &segment) {
        Err(ADHDError::CharactersExhausted(held)) => assert_eq!(held, segment),
        _ => panic!("the segment leaves no delimiter"),
    }
}

#[test]
fn delimiter_is_absent_from_segment() {
    let samples = ["", "plain", "[]", "a[b]c<d>", "$x", "Mixed CASE [text]", "[]<>()abc"];
    for active in [None, Some('['), Some('a'), Some('z')] {
        for sample in samples {
            let segment = sample.to_string();
            match determine_container(&active, &segment) {
                Ok(d) => assert!(!segment.to_lowercase().contains(d)),
                Err(_) => panic!("a delimiter is left"),
            }
        }
    }
}

#[test]
fn empty_list_encodes_to_nothing() {
    assert_eq!(vec_to_string(Vec::new()).unwrap(), "");
}

#[test]
fn first_segment_always_switches() {
    assert_eq!(vec_to_string(strings(&["ab"])).unwrap(), "$[ab[");
    assert_eq!(vec_to_string(strings(&[""])).unwrap(), "$[[");
}

#[test]
fn valid_delimiter_is_reused_without_marker() {
    assert_eq!(vec_to_string(strings(&["ab", "cd", ""])).unwrap(), "$[ab[cd[[");
}

#[test]
fn delimiter_switches_on_collision() {
    assert_eq!(vec_to_string(strings(&["[a]", "b", "<c", "d"])).unwrap(), "$<[a]<b<$[<c[d[");
}

#[test]
fn segment_with_indicator_is_escaped() {
    assert_eq!(vec_to_string(strings(&["a", "$x"])).unwrap(), "$[a[$[$x[");
    assert_eq!(vec_to_string(strings(&["$x"])).unwrap(), "$[$x[");
    assert_eq!(vec_to_string(strings(&["a", "$"])).unwrap(), "$[a[$[$[");
}

#[test]
fn indicator_inside_segment_needs_no_escape() {
    assert_eq!(vec_to_string(strings(&["a", "x$y"])).unwrap(), "$[a[x$y[");
}

#[test]
fn uppercase_letter_blocks_its_delimiter() {
    assert_eq!(vec_to_string(strings(&["[]<>()", "A"])).unwrap(), "$a[]<>()a$[A[");
}

#[test]
fn encoding_fails_on_first_exhausted_segment() {
    let first = "[]<>()ABCDEFGHIJKLMNOPQRSTUVWXYZ";
    let second = "[]<>()abcdefghijklmnopqrstuvwxyz!";
    match vec_to_string(strings(&["fine", first, second])) {
        Err(ADHDError::CharactersExhausted(held)) => assert_eq!(held, first),
        _ => panic!("the second segment leaves no delimiter"),
    }
}

#[test]
fn borrowed_encoder_agrees() {
    let content = strings(&["one", "[two]", "$three", ""]);
    let borrowed = encode_segments(&content).unwrap();
    assert_eq!(borrowed, vec_to_string(content).unwrap());
}

#[test]
fn encoding_reads_back() {
    let lists: [&[&str]; 7] = [
        &[],
        &[""],
        &["a", "b", "c"],
        &["$", "$$", "$[", "[$]"],
        &["[]<>()", "abc", "ABC", "[a]", ""],
        &["V3$[1[beatmap_note[2[1.5[2[", "song name", "$[nested["],
        &["", "", "[", "", "]"],
    ];
    for list in lists {
        let content = strings(list);
        let text = vec_to_string(content.clone()).unwrap();
        assert_eq!(read_back(&text), Some(content));
    }
}

#[test]
fn script_reads_back() {
    let mut song = ScriptWriter::new();
    song.emit(ContentScriptOpcode::BeatmapNote { time: 1.5f64.to_string(), lane: 2 });
    song.emit(ContentScriptOpcode::BeatmapNote { time: 2.75f64.to_string(), lane: -1 });
    let script = song.text().unwrap();
    let mut top = ScriptWriter::new();
    top.emit(ContentScriptOpcode::BeatmapCollectionRegister {
        name: "$ong [one]".to_string(),
        script,
    });
    top.emit(ContentScriptOpcode::AddMenuItem {
        pos: 0,
        next_state: "<Play>".to_string(),
        state: "main".to_string(),
    });
    for writer in [&song, &top] {
        let text = writer.text().unwrap();
        assert_eq!(&text[..2], "V3");
        assert_eq!(read_back(&text[2..]).as_ref(), Some(writer.segments()));
    }
}

#[test]
fn contains_char_finds_characters() {
    assert!(contains_char("hello", 'o'));
    assert!(contains_char("héllo", 'é'));
    assert!(!contains_char("hello", 'z'));
    assert!(!contains_char("", 'a'));
}

#[test]
fn starts_with_char_looks_at_first_only() {
    assert!(starts_with_char("$x", '$'));
    assert!(!starts_with_char("x$", '$'));
    assert!(!starts_with_char("", '$'));
}

#[test]
fn error_messages_name_their_subject() {
    assert_eq!(
        ADHDError::InvalidFileExtension("songs/a.txt".to_string()).message(),
        "invalid file extension at path songs/a.txt"
    );
    assert_eq!(
        ADHDError::CharactersExhausted("abc".to_string()).message(),
        "characters exhausted when attempting to contain string 'abc'"
    );
}
