use std::io::Write;

use brz_io::{EphemeralBytesArena, Reader, Writer};
use brz_json::{
    check_numeric_key, Cursor, Error, JsonReader, MapState, SeqState, ValueKind,
    DEFAULT_RECURSION_LIMIT,
};

fn input(bytes: &[u8], segment: usize) -> Reader {
    let arena = EphemeralBytesArena::new(segment);
    let mut writer = Writer::with_limit(&arena, bytes.len());
    writer.write_all(bytes).unwrap();
    writer.into_reader()
}

/// The string at the start of `bytes`, read with every segment size.
fn strings(bytes: &[u8]) -> Vec<Result<(String, usize), (String, Option<usize>)>> {
    (1..=bytes.len().max(1))
        .map(|segment| {
            let json = JsonReader::new(input(bytes, segment));
            let view = json.input();
            let mut c = json.cursor();
            match c.string(&view) {
                Ok(text) => Ok((text.to_string(), c.position())),
                Err(e) => Err((e.message().to_string(), e.byte_offset())),
            }
        })
        .collect()
}

fn string(bytes: &[u8]) -> Result<(String, usize), (String, Option<usize>)> {
    let all = strings(bytes);
    for other in &all {
        assert_eq!(other, &all[0], "segment sizes disagree on {bytes:?}");
    }
    all[0].clone()
}

fn fails(message: &str, offset: usize) -> Result<(String, usize), (String, Option<usize>)> {
    Err((message.to_string(), Some(offset)))
}

#[test]
fn plain_strings_are_their_bytes() {
    assert_eq!(string(br#""alice""#), Ok(("alice".to_string(), 7)));
    assert_eq!(string(br#"  "" "#), Ok((String::new(), 4)));
    assert_eq!(string("\"你好\"".as_bytes()), Ok(("你好".to_string(), 8)));
}

#[test]
fn simple_escapes_decode() {
    assert_eq!(
        string(br#""a\"b\\c\/d\be\ff\ng\rh\ti""#),
        Ok(("a\"b\\c/d\u{8}e\u{c}f\ng\rh\ti".to_string(), 27))
    );
}

#[test]
fn unicode_escapes_decode_to_utf8() {
    assert_eq!(string(br#""a\u0062""#), Ok(("ab".to_string(), 9)));
    assert_eq!(string(br#""\u00e9""#), Ok(("é".to_string(), 8)));
    assert_eq!(string(br#""\u4F60\u597d""#), Ok(("你好".to_string(), 14)));
    assert_eq!(string(br#""\uD83D\uDE00""#), Ok(("😀".to_string(), 14)));
    assert_eq!(string(br#""\uffff""#), Ok(("\u{ffff}".to_string(), 8)));
}

#[test]
fn string_errors_name_their_offsets() {
    assert_eq!(string(b"x"), fails("expected '\"'", 0));
    assert_eq!(string(b"  \"abc"), fails("unterminated JSON string", 6));
    assert_eq!(string(b"\"abc\\"), fails("unterminated JSON string", 6));
    assert_eq!(string(b"\"a\nb\""), fails("control character in JSON string", 2));
    assert_eq!(string(br#""ab\x""#), fails("invalid JSON escape", 4));
    assert_eq!(string(br#""\u12""#), fails("incomplete Unicode escape", 1));
    assert_eq!(string(br#""\u12G4""#), fails("invalid Unicode escape", 5));
    assert_eq!(string(br#""\uD800""#), fails("missing low surrogate", 7));
    assert_eq!(string(br#""\uD800x""#), fails("missing low surrogate", 7));
    assert_eq!(string(br#""\uD800\uD800""#), fails("invalid low surrogate", 9));
    assert_eq!(string(br#""\uDC00""#), fails("invalid Unicode scalar", 3));
    assert_eq!(string(b"\"\\\n\""), fails("invalid JSON escape", 2));
}

#[test]
fn invalid_utf8_is_rejected_at_the_string_start() {
    let Err((_, offset)) = string(b"\"\xff\"") else {
        panic!("accepted invalid UTF-8");
    };
    assert_eq!(offset, Some(1));
    let Err((_, offset)) = string(b"\"\\n\xff\"") else {
        panic!("accepted invalid UTF-8 after an escape");
    };
    assert_eq!(offset, Some(1));
}

#[test]
fn whitespace_and_end() {
    let json = JsonReader::new(input(b" \t\r\n 1 ", 2));
    let view = json.input();
    let mut c = json.cursor();
    c.whitespace(&view);
    assert_eq!(c.position(), 5);
    assert_eq!(c.peek(&view), Some(b'1'));
    let e = c.end(&view).unwrap_err();
    assert_eq!((e.message(), e.byte_offset()), ("trailing characters", Some(5)));
    assert_eq!(c.skip(&view, 1).map(|_| c.position()).ok(), Some(6));
    c.end(&view).unwrap();
    assert_eq!(c.position(), 7);
    let e = c.skip(&view, 1).unwrap_err();
    assert_eq!((e.message(), e.byte_offset()), ("unexpected end of JSON", Some(7)));
}

#[test]
fn literals_and_booleans() {
    let json = JsonReader::new(input(b" true false null nul", 3));
    let view = json.input();
    let mut c = json.cursor();
    assert_eq!(c.boolean(&view).ok(), Some(true));
    assert_eq!(c.position(), 5);
    assert_eq!(c.boolean(&view).ok(), Some(false));
    assert_eq!(c.option_is_null(&view).ok(), Some(true));
    assert_eq!(c.position(), 16);
    let e = c.null(&view).unwrap_err();
    assert_eq!((e.message(), e.byte_offset()), ("invalid JSON literal", Some(17)));
    let e = c.boolean(&view).unwrap_err();
    assert_eq!((e.message(), e.byte_offset()), ("expected a boolean", Some(17)));
    assert_eq!(c.option_is_null(&view).ok(), None);
    let json = JsonReader::new(input(b"3", 1));
    let mut c = json.cursor();
    assert_eq!(c.option_is_null(&json.input()).ok(), Some(false));
    assert_eq!(c.position(), 0);
}

#[test]
fn number_tokens_run_over_number_bytes() {
    let json = JsonReader::new(input(b" -12.5e+3,7", 2));
    let view = json.input();
    let mut c = json.cursor();
    assert_eq!(c.number(&view).unwrap(), "-12.5e+3");
    assert_eq!(c.position(), 9);
    let e = c.number(&view).unwrap_err();
    assert_eq!((e.message(), e.byte_offset()), ("expected a number", Some(9)));
    c.expect(&view, b',').unwrap();
    assert_eq!(c.number(&view).unwrap(), "7");
}

#[test]
fn value_kinds_follow_the_first_byte() {
    let cases: [(&[u8], Option<ValueKind>); 8] = [
        (b" null", Some(ValueKind::Null)),
        (b"true", Some(ValueKind::Bool)),
        (b"f", Some(ValueKind::Bool)),
        (b"\"", Some(ValueKind::Str)),
        (b"[", Some(ValueKind::Array)),
        (b"{", Some(ValueKind::Object)),
        (b"-1", Some(ValueKind::Number)),
        (b"+1", None),
    ];
    for (bytes, expected) in cases {
        let json = JsonReader::new(input(bytes, 1));
        let mut c = json.cursor();
        let kind = c.value_kind(&json.input());
        assert_eq!(kind.as_ref().ok().copied(), expected);
        if let Err(e) = kind {
            assert_eq!((e.message(), e.byte_offset()), ("expected a JSON value", Some(0)));
        }
    }
}

#[test]
fn characters_are_single_character_strings() {
    let json = JsonReader::new(input(r#""é" "\uD83D\uDE00" "ab""#.as_bytes(), 1));
    let view = json.input();
    let mut c = json.cursor();
    assert_eq!(c.character(&view).ok(), Some('é'));
    assert_eq!(c.character(&view).ok(), Some('😀'));
    let e = c.character(&view).unwrap_err();
    assert_eq!((e.message(), e.byte_offset()), ("expected a single character", Some(24)));
}

#[test]
fn arrays_separate_elements_by_commas() {
    let json = JsonReader::new(input(b"[1 , 2]", 1));
    let view = json.input();
    let mut c = json.cursor();
    c.expect(&view, b'[').unwrap();
    let mut seq = SeqState::new();
    assert!(c.next_element(&view, &mut seq).unwrap());
    assert!(!seq.first);
    assert_eq!(c.number(&view).unwrap(), "1");
    assert!(c.next_element(&view, &mut seq).unwrap());
    assert_eq!(c.number(&view).unwrap(), "2");
    assert!(!c.next_element(&view, &mut seq).unwrap());
    c.expect(&view, b']').unwrap();

    let json = JsonReader::new(input(b"[1 2]", 1));
    let view = json.input();
    let mut c = json.cursor();
    c.expect(&view, b'[').unwrap();
    let mut seq = SeqState::new();
    assert!(c.next_element(&view, &mut seq).unwrap());
    c.number(&view).unwrap();
    let e = c.next_element(&view, &mut seq).unwrap_err();
    assert_eq!((e.message(), e.byte_offset()), ("expected ','", Some(3)));
}

#[test]
fn objects_alternate_keys_and_values() {
    let json = JsonReader::new(input(br#"{"a":1,"b" : 2}"#, 1));
    let view = json.input();
    let mut c = json.cursor();
    c.expect(&view, b'{').unwrap();
    let mut map = MapState::new();
    let e = c.next_value(&view, &map).unwrap_err();
    assert_eq!(e.message(), "object key was not consumed");
    assert_eq!(c.next_key(&view, &mut map).unwrap(), Some("a"));
    assert!(map.pending_value);
    let e = c.next_key(&view, &mut map).unwrap_err();
    assert_eq!(e.message(), "object value was not consumed");
    let e = c.end_object(&view, &map).unwrap_err();
    assert_eq!(e.message(), "object value was not consumed");
    c.next_value(&view, &map).unwrap();
    assert_eq!(c.number(&view).unwrap(), "1");
    map.value_done();
    assert_eq!(c.next_key(&view, &mut map).unwrap(), Some("b"));
    c.next_value(&view, &map).unwrap();
    assert_eq!(c.number(&view).unwrap(), "2");
    map.value_done();
    assert_eq!(c.next_key(&view, &mut map).unwrap(), None);
    c.end_object(&view, &map).unwrap();
    c.end(&view).unwrap();
}

#[test]
fn enum_objects_name_their_variant() {
    let json = JsonReader::new(input(br#"{"Pair" : [7]}"#, 2));
    let view = json.input();
    let mut c = json.cursor();
    assert!(!c.next_is(&view, b'"'));
    assert_eq!(c.variant_key(&view).unwrap(), "Pair");
    assert_eq!(c.position(), 9);
    let json = JsonReader::new(input(br#"{"Pair" 1}"#, 2));
    let mut c = json.cursor();
    let e = c.variant_key(&json.input()).unwrap_err();
    assert_eq!((e.message(), e.byte_offset()), ("expected ':'", Some(8)));
}

#[test]
fn nesting_stops_at_the_limit_and_leaving_restores_it() {
    let mut c = Cursor::new(2);
    c.enter().unwrap();
    c.enter().unwrap();
    let e = c.enter().unwrap_err();
    assert_eq!((e.message(), e.byte_offset()), ("recursion limit exceeded", Some(0)));
    c.leave();
    c.enter().unwrap();
    let json = JsonReader::new(input(b"[]", 1));
    assert_eq!(json.max_depth(), DEFAULT_RECURSION_LIMIT);
    let json = JsonReader::with_recursion_limit(input(b"[]", 1), 0);
    let mut c = json.cursor();
    assert!(c.enter().is_err());
}

#[test]
fn numeric_keys_refuse_whitespace() {
    assert!(check_numeric_key("12").is_ok());
    assert!(check_numeric_key("-1.5").is_ok());
    for key in [" 1", "1 ", "1\t", "\n1", "1\r"] {
        let e = check_numeric_key(key).unwrap_err();
        assert_eq!(e.message(), "whitespace in numeric or boolean object key");
        assert_eq!(e.byte_offset(), None);
    }
}

#[test]
fn errors_display_their_offset() {
    let e = Error::at("trailing characters", 1234);
    assert_eq!(e.describe(), "trailing characters at byte 1234");
    assert_eq!(Error::at("x", 0).describe(), "x at byte 0");
    let e = Error::custom("missing field `name`".to_string());
    assert_eq!(e.describe(), "missing field `name`");
    let e = e.with_offset(7);
    assert_eq!(e.byte_offset(), Some(7));
    assert_eq!(e.describe(), "missing field `name` at byte 7");
    let e = e.with_offset(9);
    assert_eq!(e.byte_offset(), Some(7));
    assert_eq!(Error::located("m".to_string(), Some(usize::MAX)).describe(), format!("m at byte {}", usize::MAX));
}

#[test]
fn borrowed_readers_snapshot_the_unread_bytes() {
    let source = input(b"12\"ab\"", 1);
    source.skip(2).unwrap();
    let json = JsonReader::from_borrowed(&source);
    source.skip(1).unwrap();
    let mut c = json.cursor();
    assert_eq!(c.string(&json.input()).unwrap(), "ab");
    assert_eq!(c.position(), 4);
    assert_eq!(source.position(), 3);
}

#[test]
fn decoded_strings_fit_their_bodies() {
    let cases: [&[u8]; 5] = [
        br#""\uD83D\uDE00""#,
        br#""\u4f60""#,
        br#""a\u0062\n""#,
        br#""\"\\\/""#,
        br#""plain""#,
    ];
    for bytes in cases {
        let (text, end) = string(bytes).unwrap();
        assert!(text.len() <= end - 2, "{bytes:?}");
    }
}

#[test]
fn escaped_and_plain_spellings_have_one_value() {
    assert_eq!(string(br#""ab""#).unwrap().0, string(br#""a\u0062""#).unwrap().0);
    assert_eq!(string("\"é\"".as_bytes()).unwrap().0, string(br#""\u00E9""#).unwrap().0);
    assert_eq!(string("\"😀\"".as_bytes()).unwrap().0, string(br#""\ud83d\ude00""#).unwrap().0);
}

#[test]
fn leaving_undoes_entering() {
    let mut c = Cursor::new(3);
    let before = format!("{c:?}");
    c.enter().unwrap();
    assert_ne!(format!("{c:?}"), before);
    c.leave();
    assert_eq!(format!("{c:?}"), before);
}

#[test]
fn expected_bytes_are_named_in_the_message() {
    let json = JsonReader::new(input(b"  [", 1));
    let view = json.input();
    let mut c = json.cursor();
    let e = c.expect(&view, b'{').unwrap_err();
    assert_eq!((e.message(), e.byte_offset()), ("expected '{'", Some(2)));
    let e = c.expect(&view, 0xe9).unwrap_err();
    assert_eq!(e.message(), "expected 'é'");
    let e = c.literal(&view, b"").map(|_| c.position());
    assert_eq!(e.ok(), Some(2));
    c.expect(&view, b'[').unwrap();
    let e = c.literal(&view, b"nul").unwrap_err();
    assert_eq!((e.message(), e.byte_offset()), ("invalid JSON literal", Some(3)));
}

#[test]
fn offsets_count_from_the_original_input() {
    let raw = b"PREFIX\"hello\"NEXT";
    let source = input(raw, 4);
    let view = source.view().slice(6..12).unwrap();
    let json = JsonReader::from_view_at(view, 6);
    let mut c = json.cursor();
    let e = c.string(&json.input()).unwrap_err();
    assert_eq!((e.message(), e.byte_offset()), ("unterminated JSON string", Some(12)));
    assert_eq!(c.position(), 1);
    assert_eq!(c.offset(), Some(7));

    let json = JsonReader::from_view(view);
    let mut c = json.cursor();
    let e = c.string(&json.input()).unwrap_err();
    assert_eq!((e.message(), e.byte_offset()), ("unterminated JSON string", None));
    assert_eq!(c.offset(), None);
    let e = c.expect(&json.input(), b'{').unwrap_err();
    assert_eq!((e.message(), e.byte_offset()), ("expected '{'", None));
    assert_eq!(e.describe(), "expected '{'");

    let source = input(b"PREFIX\"hello", 3);
    source.skip(6).unwrap();
    let json = JsonReader::from_borrowed(&source);
    let mut c = json.cursor();
    let e = c.string(&json.input()).unwrap_err();
    assert_eq!(e.byte_offset(), Some(12));

    let owned = input(b"PREFIX  x", 2);
    owned.skip(6).unwrap();
    let json = JsonReader::new(owned);
    let mut c = json.cursor();
    let e = c.expect(&json.input(), b'{').unwrap_err();
    assert_eq!((e.message(), e.byte_offset()), ("expected '{'", Some(8)));
    assert_eq!(c.position(), 2);
}

#[test]
fn escape_errors_are_shifted_by_the_base() {
    let source = input(br#"[ "a\q" ]"#, 2);
    let view = source.view().slice(2..7).unwrap();
    let json = JsonReader::from_view_at(view, 2);
    let mut c = json.cursor();
    let e = c.string(&json.input()).unwrap_err();
    assert_eq!((e.message(), e.byte_offset()), ("invalid JSON escape", Some(5)));
    let mut c = Cursor::starting_at(4, Some(100));
    let e = c.string(&json.input()).unwrap_err();
    assert_eq!(e.byte_offset(), Some(103));
    let mut c = Cursor::starting_at(4, None);
    let e = c.string(&json.input()).unwrap_err();
    assert_eq!((e.message(), e.byte_offset()), ("invalid JSON escape", None));
    let e = Cursor::starting_at(1, Some(usize::MAX)).error("x");
    assert_eq!(e.byte_offset(), Some(usize::MAX));
    assert_eq!(Cursor::new(1).error("x").byte_offset(), Some(0));
    assert_eq!(Error::at("m", 3).shift(Some(4)).byte_offset(), Some(7));
    assert_eq!(Error::at("m", 3).shift(None).byte_offset(), None);
    assert_eq!(Error::custom("m".to_string()).shift(Some(4)).byte_offset(), None);
}

#[test]
fn positions_never_go_back_and_stay_within_the_input() {
    let raw = br#" { "k" : [ true , null ] }  "#;
    let json = JsonReader::new(input(raw, 3));
    let view = json.input();
    let mut c = json.cursor();
    let mut seen = vec![c.position()];
    c.expect(&view, b'{').unwrap();
    seen.push(c.position());
    let mut map = MapState::new();
    assert_eq!(c.next_key(&view, &mut map).unwrap(), Some("k"));
    seen.push(c.position());
    c.next_value(&view, &map).unwrap();
    seen.push(c.position());
    map.value_done();
    c.expect(&view, b'[').unwrap();
    let mut seq = SeqState::new();
    assert!(c.next_element(&view, &mut seq).unwrap());
    assert_eq!(c.boolean(&view).unwrap(), true);
    seen.push(c.position());
    assert!(c.next_element(&view, &mut seq).unwrap());
    c.null(&view).unwrap();
    seen.push(c.position());
    assert!(!c.next_element(&view, &mut seq).unwrap());
    c.expect(&view, b']').unwrap();
    c.end_object(&view, &map).unwrap();
    seen.push(c.position());
    c.end(&view).unwrap();
    seen.push(c.position());
    assert!(c.skip(&view, 1).is_err());
    seen.push(c.position());
    assert!(seen.windows(2).all(|w| w[0] <= w[1]));
    assert_eq!(*seen.last().unwrap(), raw.len());
}

#[test]
fn nesting_never_passes_the_limit() {
    for limit in 0..4 {
        let mut c = Cursor::new(limit);
        let outcomes: Vec<bool> = (0..6).map(|_| c.enter().is_ok()).collect();
        let expected: Vec<bool> = (0..6).map(|i| i < limit).collect();
        assert_eq!(outcomes, expected);
        assert_eq!(c.nesting(), limit);
    }
}
