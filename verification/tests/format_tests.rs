use iso8211::format::{parse_format_controls, FormatControl, FormatKind};
use iso8211::{FieldId, ReadError};

#[test]
fn format_parse_binary_list() {
    let formats = parse_format_controls("(b11,b14,2b12)").unwrap();
    assert_eq!(
        formats,
        vec![
            FormatControl { count: 1, kind: FormatKind::BinaryUnsigned(1) },
            FormatControl { count: 1, kind: FormatKind::BinaryUnsigned(4) },
            FormatControl { count: 2, kind: FormatKind::BinaryUnsigned(2) },
        ]
    );
}

#[test]
fn format_parse_signed_and_repeat() {
    let formats = parse_format_controls("(3b24)").unwrap();
    assert_eq!(
        formats,
        vec![FormatControl { count: 3, kind: FormatKind::BinarySigned(4) }]
    );
}

#[test]
fn format_parse_text_and_bits() {
    let formats = parse_format_controls("(B(64),b11,A)").unwrap();
    assert_eq!(
        formats,
        vec![
            FormatControl { count: 1, kind: FormatKind::Bits(64) },
            FormatControl { count: 1, kind: FormatKind::BinaryUnsigned(1) },
            FormatControl { count: 1, kind: FormatKind::TextDelimited },
        ]
    );
    let formats = parse_format_controls("(A(2),I(5))").unwrap();
    assert_eq!(
        formats,
        vec![
            FormatControl { count: 1, kind: FormatKind::TextFixed(2) },
            FormatControl { count: 1, kind: FormatKind::IntegerFixed(5) },
        ]
    );
}

#[test]
fn format_parse_empty() {
    let formats = parse_format_controls("()").unwrap();
    assert_eq!(formats, vec![]);
}

#[test]
fn format_rejects_malformed() {
    let bad = ReadError::FormatViolation(FieldId::FormatControls);
    assert_eq!(parse_format_controls("").unwrap_err(), bad);
    assert_eq!(parse_format_controls("b11").unwrap_err(), bad);
    assert_eq!(parse_format_controls("(b11").unwrap_err(), bad);
    assert_eq!(parse_format_controls("(b1)").unwrap_err(), bad);
    assert_eq!(parse_format_controls("(x11)").unwrap_err(), bad);
    assert_eq!(parse_format_controls("(b11,)").unwrap_err(), bad);
    assert_eq!(parse_format_controls("(I)").unwrap_err(), bad);
    assert_eq!(parse_format_controls("(B(12))").unwrap_err(), bad);
}

#[test]
fn format_rejects_zero_widths() {
    let bad = ReadError::FormatViolation(FieldId::FormatControls);
    assert_eq!(parse_format_controls("(b10)").unwrap_err(), bad);
    assert_eq!(parse_format_controls("(b19)").unwrap_err(), bad);
    assert_eq!(parse_format_controls("(A(0))").unwrap_err(), bad);
    assert_eq!(parse_format_controls("(0b11)").unwrap_err(), bad);
}
