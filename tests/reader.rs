use json_spanned_value::{rewritten, ErrorExt, Mode, Reader, Settings, Shared};
use std::io;

fn with(duplicates: bool, trailing: bool, comments: bool) -> Settings {
    Settings { allow_duplicate_keys: duplicates, allow_trailing_comma: trailing, allow_comments: comments }
}

fn rewrite(text: &str, settings: &Settings) -> String {
    String::from_utf8(rewritten(text, settings)).unwrap()
}

/// Feeds the reader to serde_json one byte at a time.
struct Source<'a> {
    reader: Reader<&'a str>,
    shared: Shared,
}

impl<'a> Source<'a> {
    fn new(text: &'a str, settings: &Settings) -> Self {
        let mut shared = Shared::new(settings);
        let reader = Reader::new(text, &mut shared);
        Source { reader, shared }
    }
}

impl<'a> io::Read for Source<'a> {
    fn read(&mut self, out: &mut [u8]) -> io::Result<usize> {
        if out.is_empty() {
            return Ok(0);
        }
        match self.reader.read(&mut self.shared) {
            Some(b) => {
                out[0] = b;
                Ok(1)
            }
            None => Ok(0),
        }
    }
}

fn parse(text: &str, settings: &Settings) -> serde_json::Result<serde_json::Value> {
    serde_json::from_reader(Source::new(text, settings))
}

#[test]
fn trailing_object_comma_rewritten() {
    let json = "{\"a\": 1, \"b\": 2, }";
    assert_eq!(rewrite(json, &with(false, true, false)), "{\"a\": 1, \"b\": 2  }");
    assert_eq!(rewrite(json, &with(false, false, false)), json);
}

#[test]
fn trailing_array_comma_rewritten() {
    assert_eq!(rewrite("[1, 2,]", &with(false, true, false)), "[1, 2 ]");
    assert_eq!(rewrite("[1, 2,]", &with(false, false, false)), "[1, 2,]");
}

#[test]
fn trailing_comma_parses_when_allowed() {
    let json = "{\"a\": 1, \"b\": 2, }";
    let v = parse(json, &with(false, true, false)).unwrap();
    assert_eq!(v["a"].as_u64(), Some(1));
    assert_eq!(v["b"].as_u64(), Some(2));
    let a = parse("[1, 2,]", &with(false, true, false)).unwrap();
    assert_eq!(a[0].as_u64(), Some(1));
    assert_eq!(a[1].as_u64(), Some(2));
}

#[test]
fn trailing_comma_refused_when_strict() {
    let json = "{\"a\": 1, \"b\": 2, }";
    let err = parse(json, &with(false, false, false)).unwrap_err();
    let until_err = &json[..err.offset_within(json).unwrap_or(json.len() - 1)];
    assert!(until_err.ends_with("\"b\": 2, "), "until_err: {:?}", until_err);
    assert!(parse("[1, 2,]", &with(false, false, false)).is_err());
}

#[test]
fn line_comments_rewritten() {
    let json = "{\n    \"a\": 1, // a allow_comments\n    \"b\": 2 // another comment\n}";
    let out = rewrite(json, &with(false, false, true));
    assert_eq!(out, "{\n    \"a\": 1,                    \n    \"b\": 2                   \n}");
    let v = parse(json, &with(false, false, true)).unwrap();
    assert_eq!(v["a"].as_u64(), Some(1));
    assert_eq!(v["b"].as_u64(), Some(2));
}

#[test]
fn line_comments_refused_when_strict() {
    let json = "{\n    \"a\": 1, // a comment\n    \"b\": 2 // another comment\n}";
    let err = parse(json, &with(false, false, false)).unwrap_err();
    let until_err = &json[..err.offset_within(json).unwrap_or(json.len() - 1)];
    assert!(until_err.ends_with("\"a\": 1, "), "until_err: {:?}", until_err);
}

#[test]
fn block_comments_rewritten() {
    let json = "{\"a\": 1, /* comment */ \"b\": 2}";
    assert_eq!(rewrite(json, &with(false, false, true)), "{\"a\": 1,               \"b\": 2}");
    let v = parse(json, &with(false, false, true)).unwrap();
    assert_eq!(v["b"].as_u64(), Some(2));
    let err = parse(json, &with(false, false, false)).unwrap_err();
    let until_err = &json[..err.offset_within(json).unwrap_or(json.len() - 1)];
    assert!(until_err.ends_with("\"a\": 1, "), "until_err: {:?}", until_err);
}

#[test]
fn stacked_comments_rewritten() {
    let json = "{\"a\": 1, /*comment*//**//**/// asdf\n//asdf\n//asdf\n/* comment */ \"b\": 2}";
    let out = rewrite(json, &with(false, false, true));
    assert_eq!(out.len(), json.len());
    assert_eq!(&out[..9], "{\"a\": 1, ");
    assert_eq!(&out[out.len() - 7..], "\"b\": 2}");
    assert!(out[9..out.len() - 7].bytes().all(|b| b == b' ' || b == b'\n'));
    let v = parse(json, &with(false, false, true)).unwrap();
    assert_eq!(v["a"].as_u64(), Some(1));
    assert_eq!(v["b"].as_u64(), Some(2));
}

#[test]
fn comments_after_trailing_comma() {
    let json = "{\"a\": 1, \"b\": 2, /*comment*//**//**/// asdf\n//asdf\n//asdf\n/* comment */ }";
    let out = rewrite(json, &with(false, true, true));
    assert_eq!(&out[..16], "{\"a\": 1, \"b\": 2 ");
    let v = parse(json, &with(false, true, true)).unwrap();
    assert_eq!(v["a"].as_u64(), Some(1));
    assert_eq!(v["b"].as_u64(), Some(2));
}

#[test]
fn comment_text_inside_string_kept() {
    let json = "{\"a\": 1, \"not_a_comment\": \"/*comment*//**//**/// asdf\\n//asdf\\n//asdf\\n/* comment */\", \"b\": 2 }";
    let settings = with(false, true, true);
    assert_eq!(rewrite(json, &settings), json);
    let v = parse(json, &settings).unwrap();
    assert_eq!(v["a"].as_u64(), Some(1));
    assert_eq!(v["b"].as_u64(), Some(2));
    assert_eq!(v["not_a_comment"].as_str(), Some("/*comment*//**//**/// asdf\n//asdf\n//asdf\n/* comment */"));
}

#[test]
fn slash_alone_is_not_a_comment() {
    assert_eq!(rewrite("[1 / 2]", &with(false, false, true)), "[1 / 2]");
    assert_eq!(rewrite("\"a\\\"//b\"", &with(false, false, true)), "\"a\\\"//b\"");
}

#[test]
fn token_start_skips_gaps_and_comments() {
    let text = "  : /* x */ // y\n  [1]";
    let mut shared = Shared::new(&with(false, false, true));
    let reader = Reader::new(text, &mut shared);
    assert_eq!((shared.start_pos, shared.start_ch), (19, b'['));
    reader.advance_start_from(&mut shared, 20);
    assert_eq!((shared.start_pos, shared.start_ch), (20, b'1'));
    reader.advance_start_from(&mut shared, 3);
    assert_eq!((shared.start_pos, shared.start_ch), (20, b'1'));
    reader.advance_start_from(&mut shared, 22);
    assert_eq!((shared.start_pos, shared.start_ch), (22, 0));
}

#[test]
fn comments_are_tokens_when_disallowed() {
    let mut shared = Shared::new(&with(false, false, false));
    let _reader = Reader::new("  /* x */ 1", &mut shared);
    assert_eq!((shared.start_pos, shared.start_ch), (2, b'/'));
}

#[test]
fn read_advances_cursor_one_byte_at_a_time() {
    let text = "[\"a\"]";
    let mut shared = Shared::new(&Settings::default());
    let mut reader = Reader::new(text, &mut shared);
    let mut out = Vec::new();
    while let Some(b) = reader.read(&mut shared) {
        out.push(b);
        assert_eq!(shared.pos, out.len());
    }
    assert_eq!(out, text.as_bytes());
    assert_eq!(reader.read(&mut shared), None);
    assert_eq!(shared.pos, text.len());
}

#[test]
fn stream_of_numbers_token_starts() {
    let text = "1 2 3";
    let mut shared = Shared::new(&Settings::default());
    let mut reader = Reader::new(text, &mut shared);
    let mut starts = Vec::new();
    for _ in 0..text.len() {
        if shared.pos == shared.start_pos {
            starts.push(shared.start_pos);
        }
        reader.read(&mut shared);
    }
    assert_eq!(starts, vec![0, 2, 4]);
}

#[test]
fn mode_is_exposed() {
    assert_ne!(Mode::Normal, Mode::String);
}

#[test]
fn opener_star_does_not_close_a_block_comment() {
    let settings = with(false, false, true);
    assert_eq!(rewrite("/*/1*/2", &settings), "      2");
    assert_eq!(rewrite("[/**/1]", &settings), "[    1]");
    assert_eq!(rewrite("[/***/1]", &settings), "[     1]");
    assert_eq!(rewrite("[/* a **/1]", &settings), "[        1]");
    let v = parse("[/*/1*/2]", &settings).unwrap();
    assert_eq!(v[0].as_u64(), Some(2));
    assert_eq!(v.as_array().map(|a| a.len()), Some(1));
}

#[test]
fn end_of_input_is_recorded() {
    let mut shared = Shared::new(&Settings::default());
    let mut reader = Reader::new("1", &mut shared);
    assert!(!shared.at_end);
    assert_eq!(reader.read(&mut shared), Some(b'1'));
    assert!(!shared.at_end);
    assert_eq!(reader.read(&mut shared), None);
    assert!(shared.at_end);
    assert_eq!(shared.pos, 1);
}
