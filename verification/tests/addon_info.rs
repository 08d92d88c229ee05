use l4addon_enforcer::addon_info::{extract_fields, extract_value};

#[test]
fn version_alone_leaves_other_fields_at_default() {
    let d = extract_fields(&b"addonVersion \"1.2\"".to_vec());
    assert_eq!(d.title, "N/A");
    assert_eq!(d.version, "1.2");
    assert_eq!(d.description, "N/A");
}

#[test]
fn empty_content_gives_all_defaults() {
    let d = extract_fields(&b"".to_vec());
    assert_eq!(d.title, "N/A");
    assert_eq!(d.version, "N/A");
    assert_eq!(d.description, "N/A");
}

#[test]
fn key_matching_ignores_ascii_case() {
    let upper = extract_fields(&b"ADDONTITLE \"Foo\"".to_vec());
    assert_eq!(upper.title, "Foo");
    let lower = extract_fields(&b"addontitle \"Foo\"".to_vec());
    assert_eq!(lower.title, "Foo");
    let mixed = extract_fields(&b"AdDoNtItLe \"Foo\"".to_vec());
    assert_eq!(mixed.title, "Foo");
}

#[test]
fn first_matching_line_wins() {
    let d = extract_fields(&b"addonTitle \"First\"\naddonTitle \"Second\"".to_vec());
    assert_eq!(d.title, "First");
}

#[test]
fn invalid_utf8_after_a_valid_line_is_harmless() {
    let mut content = b"addonDescription \"ok\"\n".to_vec();
    content.extend_from_slice(&[0xff, 0xfe, 0x80, 0x0a]);
    let d = extract_fields(&content);
    assert_eq!(d.description, "ok");
}

#[test]
fn invalid_utf8_inside_a_value_is_replaced_not_fatal() {
    let d = extract_fields(&b"addonTitle \"ok\xFF\"".to_vec());
    assert_eq!(d.title, "ok\u{FFFD}");
}

#[test]
fn quoted_keys_and_leading_whitespace_are_accepted() {
    let d = extract_fields(&b"\t  \"addonTitle\"  \t \"Bar\"".to_vec());
    assert_eq!(d.title, "Bar");
}

#[test]
fn all_three_fields_extracted_together() {
    let content =
        b"\"AddonInfo\"\n{\n\taddonTitle \"T\"\n\taddonVersion \"3\"\n\taddonDescription \"D\"\n}\n";
    let d = extract_fields(&content.to_vec());
    assert_eq!(d.title, "T");
    assert_eq!(d.version, "3");
    assert_eq!(d.description, "D");
}

#[test]
fn crlf_line_endings_are_accepted() {
    let d = extract_fields(&b"addonTitle \"T\"\r\naddonVersion \"9\"\r\n".to_vec());
    assert_eq!(d.title, "T");
    assert_eq!(d.version, "9");
}

#[test]
fn value_extraction_grammar() {
    let key = b"addonTitle".to_vec();
    // the value is everything between the quotes, the rest of the line ignored
    assert_eq!(
        extract_value(&b"addonTitle \"a b\" trailing".to_vec(), &key),
        Some(b"a b".to_vec())
    );
    // the empty value is a value
    assert_eq!(extract_value(&b"addonTitle \"\"".to_vec(), &key), Some(b"".to_vec()));
    // at least one whitespace byte must separate key and value
    assert_eq!(extract_value(&b"addonTitle\"a\"".to_vec(), &key), None);
    // a missing closing quote is no match
    assert_eq!(extract_value(&b"addonTitle \"a".to_vec(), &key), None);
    // an unquoted value is no match
    assert_eq!(extract_value(&b"addonTitle a".to_vec(), &key), None);
    // a longer word starting with the key is no match
    assert_eq!(extract_value(&b"addonTitles \"a\"".to_vec(), &key), None);
    // a different key is no match
    assert_eq!(extract_value(&b"addonVersion \"a\"".to_vec(), &key), None);
    // a quoted key must close its quote before the value
    assert_eq!(extract_value(&b"\"addonTitle \"a\"".to_vec(), &key), None);
}
