use json_spanned_value::{at_end, end, settings, start, Reader, Settings, Shared, SharedStack, Spanned, Value};

#[test]
fn capture_keeps_closing_delimiters() {
    for c in ['[', '{', 'n', 't', 'f', '"'] {
        let s = Spanned::capture(Some((3, c)), Some(9), false, ());
        assert_eq!(s.span(), (3, 9), "start byte {:?}", c);
    }
}

#[test]
fn capture_drops_number_lookahead() {
    // "1 2 3": the first two numbers are read together with the byte after
    // them; after the last one the input runs out.
    assert_eq!(Spanned::capture(Some((0, '1')), Some(2), false, 1u64).range(), 0..1);
    assert_eq!(Spanned::capture(Some((2, '2')), Some(4), false, 2u64).range(), 2..3);
    assert_eq!(Spanned::capture(Some((4, '3')), Some(5), true, 3u64).range(), 4..5);
    assert_eq!(Spanned::capture(Some((0, '-')), Some(0), false, 0u64).range(), 0..0);
}

#[test]
fn capture_without_tracker() {
    let s = Spanned::capture(None, None, false, "x");
    assert_eq!(s.span(), (0, 0));
    assert_eq!(Spanned::capture(None, Some(5), false, ()).span(), (0, 4));
}

#[test]
fn from_value_has_empty_span() {
    let s: Spanned<u8> = Spanned::from(7);
    assert_eq!((s.start(), s.end()), (0, 0));
    assert_eq!(*s.get_ref(), 7);
    assert_eq!(s.into_inner(), 7);
}

#[test]
fn get_mut_keeps_span() {
    let mut s = Spanned::new(2, 5, 1u8);
    *s.get_mut() = 9;
    assert_eq!(s.span(), (2, 5));
    assert_eq!(*s.get_ref(), 9);
}

#[test]
fn span_projections() {
    let v = Spanned::new(4, 8, Value::Bool(true));
    let b = v.as_span_bool().unwrap();
    assert_eq!((b.span(), *b.get_ref()), ((4, 8), true));
    assert!(v.as_span_null().is_none());
    assert!(v.as_span_string().is_none());
    let s = Spanned::new(1, 6, Value::String("abc".to_string()));
    assert_eq!(*s.as_span_string().unwrap().get_ref(), "abc");
    let s = s.into_span_string().unwrap();
    assert_eq!((s.span(), s.get_ref().as_str()), ((1, 6), "abc"));
    let n = Spanned::new(0, 4, Value::Null);
    let n = n.into_span_bool().unwrap_err();
    assert!(n.into_span_null().is_ok());
}

#[test]
fn value_kinds() {
    assert_eq!(Value::Null.type_str(), "null");
    assert_eq!(Value::Bool(false).type_str(), "boolean");
    assert_eq!(Value::Number(serde_json::Number::from(3u8)).type_str(), "number");
    assert_eq!(Value::String(String::new()).type_str(), "string");
    assert_eq!(Value::Array(Vec::new()).type_str(), "array");
    assert!(Value::Null.is_null() && !Value::Null.is_bool());
    assert_eq!(Value::Bool(true).as_bool(), Some(true));
    let n = Value::Number(serde_json::Number::from(123u64));
    assert_eq!(n.as_number().and_then(|n| n.as_u64()), Some(123));
    assert_eq!(Value::String("s".to_string()).as_string(), Some("s"));
    assert!(Value::Array(Vec::new()).into_object().is_err());
}

#[test]
fn tracker_nesting_restores_outer() {
    let outer = Shared::new(&Settings { allow_comments: true, ..Settings::default() });
    let inner = Shared::new(&Settings::default());
    let mut slot: Option<Shared> = None;
    assert!(start(&slot).is_none() && end(&slot).is_none() && settings(&slot).is_none());
    let first = SharedStack::push(&mut slot, outer);
    assert_eq!(settings(&slot).map(|s| s.allow_comments), Some(true));
    let second = SharedStack::push(&mut slot, inner);
    assert_eq!(settings(&slot).map(|s| s.allow_comments), Some(false));
    assert!(second.pop(&mut slot).is_some());
    assert_eq!(settings(&slot).map(|s| s.allow_comments), Some(true));
    assert_eq!(start(&slot), Some((0, '\0')));
    assert_eq!(end(&slot), Some(0));
    assert!(first.pop(&mut slot).is_some());
    assert!(slot.is_none());
}

#[test]
fn equality_ignores_span() {
    assert_eq!(Spanned::new(0, 3, "a".to_string()), Spanned::new(7, 10, "a".to_string()));
    assert_ne!(Spanned::new(0, 3, 1u64), Spanned::new(0, 3, 2u64));
}

#[test]
fn ordering_ignores_span() {
    assert!(Spanned::new(9, 10, 1u64) < Spanned::new(0, 1, 2u64));
    assert_eq!(
        Spanned::new(0, 1, 5u64).partial_cmp(&Spanned::new(3, 4, 5u64)),
        Some(std::cmp::Ordering::Equal)
    );
}

/// Reads one number the way a streaming parser does: the token start first,
/// then digits until a byte that is not one (read ahead) or the end of the
/// input, then the span off the tracker. A single space between numbers is
/// the byte read ahead after the one before.
fn read_number(reader: &mut Reader<&str>, slot: &mut Option<Shared>) -> Spanned<u64> {
    let first = start(slot);
    let mut n = 0u64;
    loop {
        match reader.read(slot.as_mut().unwrap()) {
            Some(b) if b.is_ascii_digit() => n = n * 10 + u64::from(b - b'0'),
            _ => break,
        }
    }
    Spanned::capture(first, end(slot), at_end(slot), n)
}

#[test]
fn numbers_of_a_stream_keep_their_last_digit() {
    let text = "1 2 3";
    let mut shared = Shared::new(&Settings::default());
    let mut reader = Reader::new(text, &mut shared);
    let mut slot = Some(shared);
    let spans: Vec<_> = (0..3).map(|_| read_number(&mut reader, &mut slot).range()).collect();
    assert_eq!(spans, vec![0..1, 2..3, 4..5]);
}

#[test]
fn number_ending_the_input_keeps_its_last_digit() {
    let text = "123";
    let mut shared = Shared::new(&Settings::default());
    let mut reader = Reader::new(text, &mut shared);
    let mut slot = Some(shared);
    let n = read_number(&mut reader, &mut slot);
    assert_eq!((n.range(), *n.get_ref()), (0..3, 123));
    let text = "123 ";
    let mut shared = Shared::new(&Settings::default());
    let mut reader = Reader::new(text, &mut shared);
    let mut slot = Some(shared);
    assert_eq!(read_number(&mut reader, &mut slot).range(), 0..3);
}
