use json_spanned_value::{offset_of_line_column, ErrorExt};

#[test]
fn offsets_of_positions() {
    let text = "ab\ncd\n\nef";
    assert_eq!(offset_of_line_column(text, 1, 1), Some(0));
    assert_eq!(offset_of_line_column(text, 1, 2), Some(1));
    assert_eq!(offset_of_line_column(text, 2, 1), Some(3));
    assert_eq!(offset_of_line_column(text, 2, 2), Some(4));
    assert_eq!(offset_of_line_column(text, 4, 2), Some(8));
    assert_eq!(offset_of_line_column(text, 0, 0), Some(0));
    assert_eq!(offset_of_line_column(text, 4, 3), None);
    assert_eq!(offset_of_line_column(text, 5, 1), None);
    assert_eq!(offset_of_line_column(text, 1, usize::MAX), None);
    assert_eq!(offset_of_line_column("", 1, 1), None);
}

#[test]
fn offset_of_serde_json_error() {
    let text = "[1,\n 2 x]";
    let err = serde_json::from_str::<serde_json::Value>(text).unwrap_err();
    assert_eq!((err.line(), err.column()), (2, 4));
    assert_eq!(err.offset_within(text), Some(7));
    assert_eq!(&text[7..8], "x");
}

#[test]
fn offset_of_end_of_input_error() {
    let text = "[1, 2";
    let err = serde_json::from_str::<serde_json::Value>(text).unwrap_err();
    assert_eq!((err.line(), err.column()), (1, 5));
    assert_eq!(err.offset_within(text), Some(4));
    assert_eq!(err.offset_within("[1"), None);
}
