//! Maps, lists, nested queries, parse-error positions, and the query API's
//! error propagation.

use karta::file::KartaFile;

fn doc(src: &str) -> KartaFile {
    KartaFile::new(String::from(src)).expect("source should parse")
}

#[test]
fn flat_map_fields() {
    let d = doc("{ .a = 1, .b = 2.5, .c = \"hi\" }");
    assert_eq!(d.query().get_field(".a").as_int(), Ok(1));
    let b = d.query().get_field(".b").as_float_text().unwrap();
    assert!((b.parse::<f64>().unwrap() - 2.5f64).abs() < 1e-12);
    assert_eq!(d.query().get_field(".c").as_string().unwrap(), "hi");
}

#[test]
fn nested_map_fields() {
    let d = doc("{ .nested = { .x = 42 } }");
    assert_eq!(
        d.query().get_field(".nested").get_field(".x").as_int(),
        Ok(42)
    );
}

#[test]
fn map_without_surrounding_whitespace() {
    let d = doc("{.a=1,.b=2}");
    assert_eq!(d.query().get_field(".a").as_int(), Ok(1));
    assert_eq!(d.query().get_field(".b").as_int(), Ok(2));
}

#[test]
fn duplicate_keys_last_write_wins() {
    let d = doc("{ .a = 1, .a = 2 }");
    assert_eq!(d.query().get_field(".a").as_int(), Ok(2));
}

#[test]
fn list_desugars_to_cons_cells() {
    let d = doc("[1, 2, 3]");
    assert_eq!(d.query().get_field(".head").as_int(), Ok(1));
    assert_eq!(
        d.query().get_field(".tail").get_field(".head").as_int(),
        Ok(2)
    );
    assert_eq!(
        d.query()
            .get_field(".tail")
            .get_field(".tail")
            .get_field(".head")
            .as_int(),
        Ok(3)
    );
    // The innermost tail is the nil atom: falsey.
    assert_eq!(
        d.query()
            .get_field(".tail")
            .get_field(".tail")
            .get_field(".tail")
            .truthy(),
        Ok(false)
    );
}

#[test]
fn empty_list_is_nil() {
    let d = doc("[]");
    assert_eq!(d.query().truthy(), Ok(false));
    assert_eq!(d.query().falsey(), Ok(true));
}

#[test]
fn list_of_one_element() {
    let d = doc("[ 9 ]");
    assert_eq!(d.query().get_field(".head").as_int(), Ok(9));
    assert_eq!(d.query().get_field(".tail").falsey(), Ok(true));
}

#[test]
fn nested_lists_and_maps() {
    let d = doc("{ .xs = [ { .v = 1 }, { .v = 2 } ] }");
    assert_eq!(
        d.query()
            .get_field(".xs")
            .get_field(".head")
            .get_field(".v")
            .as_int(),
        Ok(1)
    );
    assert_eq!(
        d.query()
            .get_field(".xs")
            .get_field(".tail")
            .get_field(".head")
            .get_field(".v")
            .as_int(),
        Ok(2)
    );
}

#[test]
fn missing_comma_reports_position() {
    let e = KartaFile::new(String::from("{ .a = 1 .b = 2 }")).err().unwrap();
    assert_eq!(e.message(), "error: 1:11: expected RightBrace, got Atom");
}

#[test]
fn missing_assign_reports_position() {
    let e = KartaFile::new(String::from("{ .a 1 }")).err().unwrap();
    let msg = e.message();
    assert!(msg.contains("expected Assign, got Integer"), "got: {msg}");
}

#[test]
fn stray_punctuation_reports_position() {
    let e = KartaFile::new(String::from("}")).err().unwrap();
    assert_eq!(e.message(), "error: 1:1: expected an expression, got RightBrace");
}

#[test]
fn error_position_counts_lines() {
    let e = KartaFile::new(String::from("{\n.a = 1\n.b = 2\n}")).err().unwrap();
    assert_eq!(e.message(), "error: 3:2: expected RightBrace, got Atom");
}

#[test]
fn multi_line_map_parses() {
    let d = doc("{\n  .a = 1,\n  .b = 2\n}\n");
    assert_eq!(d.query().get_field(".a").as_int(), Ok(1));
    assert_eq!(d.query().get_field(".b").as_int(), Ok(2));
}

#[test]
fn atom_names_allow_dash_underscore_question_mark() {
    let d = doc("{ .is_open? = .t, .dash-key = 1 }");
    assert_eq!(d.query().get_field(".is_open?").truthy(), Ok(true));
    assert_eq!(d.query().get_field(".dash-key").as_int(), Ok(1));
}

#[test]
fn non_atom_map_key_is_rejected() {
    let e = KartaFile::new(String::from("{ 1 = 2 }")).err().unwrap();
    assert_eq!(e.message(), "bad!");
}

#[test]
fn unclosed_list_reports_position() {
    let e = KartaFile::new(String::from("[1, 2\n")).err().unwrap();
    let msg = e.message();
    assert!(
        msg.contains("expected RightSquare, got EndOfFile"),
        "got: {msg}"
    );
}

#[test]
fn missing_map_value_reports_position() {
    let e = KartaFile::new(String::from("{ .a = }")).err().unwrap();
    assert_eq!(e.message(), "error: 1:8: expected an expression, got RightBrace");
}

#[test]
fn missing_list_element_reports_position() {
    let e = KartaFile::new(String::from("[1, }")).err().unwrap();
    assert_eq!(e.message(), "error: 1:5: expected an expression, got RightBrace");
}

#[test]
fn get_field_on_non_map_errors_on_next_coercion() {
    // `.t` is interned in every document, so the access itself fails.
    let d = doc("1");
    let e = d.query().get_field(".t").as_int().err().unwrap();
    assert_eq!(e.message(), "cannot call `get` on Int type AST");
}

#[test]
fn query_error_freezes_through_chained_calls() {
    let d = doc("{ .a = 1 }");
    let e = d
        .query()
        .get_field(".a")
        .get_field(".a")
        .get_field(".a")
        .as_int()
        .err()
        .unwrap();
    assert_eq!(e.message(), "cannot call `get` on Int type AST");
}

#[test]
fn unknown_field_name_leaves_query_unchanged() {
    // A name never interned anywhere in the document is a silent no-op.
    let d = doc("1");
    assert_eq!(d.query().get_field(".zzz").as_int(), Ok(1));
}

#[test]
fn absent_key_of_a_map_yields_nil() {
    // `.t` is interned (a built-in) but the map lacks it: the cursor moves
    // to the nil atom, which is falsey.
    let d = doc("{ .a = 1 }");
    assert_eq!(d.query().get_field(".t").truthy(), Ok(false));
}
