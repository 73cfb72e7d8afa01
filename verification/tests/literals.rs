//! Literal parsing and coercion: integers, floats, chars, strings, and the
//! errors of malformed input.

use karta::file::KartaFile;

fn doc(src: &str) -> KartaFile {
    KartaFile::new(String::from(src)).expect("source should parse")
}

#[test]
fn int_literal_round_trip() {
    assert_eq!(doc("42").query().as_int(), Ok(42));
    assert_eq!(doc("0").query().as_int(), Ok(0));
    assert_eq!(doc("123").query().as_int(), Ok(123));
    assert_eq!(doc("  123\n").query().as_int(), Ok(123));
    assert_eq!(
        doc("9223372036854775807").query().as_int(),
        Ok(9223372036854775807i64)
    );
}

#[test]
fn int_literal_overflow_is_rejected() {
    let r = KartaFile::new(String::from("9223372036854775808"));
    assert!(r.is_err());
    let msg = r.err().unwrap().message();
    assert!(msg.contains("invalid integer literal"), "got: {msg}");
}

#[test]
fn float_literal_round_trip() {
    let d = doc("2.5");
    let text = d.query().as_float_text().unwrap();
    assert_eq!(text, "2.5");
    assert_eq!(text.parse::<f64>().unwrap(), 2.5f64);

    let d2 = doc("1.05");
    assert_eq!(d2.query().as_float_text().unwrap(), "1.05");
}

#[test]
fn float_as_int_truncates() {
    assert_eq!(doc("2.9").query().as_int(), Ok(2));
    assert_eq!(doc("0.5").query().as_int(), Ok(0));
}

#[test]
fn int_and_char_as_float_text() {
    assert_eq!(doc("7").query().as_float_text().unwrap(), "7");
    assert_eq!(doc("'a'").query().as_float_text().unwrap(), "97");
}

#[test]
fn char_literal_as_int() {
    assert_eq!(doc("'a'").query().as_int(), Ok(97));
    assert_eq!(doc("'0'").query().as_int(), Ok(48));
}

#[test]
fn string_literal_round_trip() {
    assert_eq!(doc("\"hi\"").query().as_string().unwrap(), "hi");
    assert_eq!(doc("\"\"").query().as_string().unwrap(), "");
    assert_eq!(
        doc("\"spaces and {braces}\"").query().as_string().unwrap(),
        "spaces and {braces}"
    );
}

#[test]
fn string_cannot_convert_to_int() {
    let e = doc("\"hi\"").query().as_int().err().unwrap();
    assert_eq!(e.message(), "cannot convert String to int");
}

#[test]
fn int_cannot_convert_to_string() {
    let e = doc("3").query().as_string().err().unwrap();
    assert_eq!(e.message(), "cannot convert Int to string");
}

#[test]
fn map_cannot_convert_to_float() {
    let e = doc("{ .a = 1 }").query().as_float_text().err().unwrap();
    assert_eq!(e.message(), "cannot convert Map to float");
}

#[test]
fn unterminated_string_is_fatal() {
    let e = KartaFile::new(String::from("\"abc")).err().unwrap();
    assert_eq!(e.message(), "error: string goes to end of file");
}

#[test]
fn unterminated_char_is_fatal() {
    let e = KartaFile::new(String::from("'a")).err().unwrap();
    assert_eq!(e.message(), "error: char goes to end of file");
}

#[test]
fn empty_source_is_a_parse_error() {
    let e = KartaFile::new(String::from("")).err().unwrap();
    let msg = e.message();
    assert!(
        msg.contains("expected an expression, got EndOfFile"),
        "got: {msg}"
    );
}

#[test]
fn comment_is_skipped() {
    assert_eq!(doc("; a comment\n42\n").query().as_int(), Ok(42));
}

#[test]
fn trailing_text_after_root_is_ignored() {
    assert_eq!(doc("1 2").query().as_int(), Ok(1));
}
