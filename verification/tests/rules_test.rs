use a2s::cursor::Cursor;
use a2s::errors::Error;
use a2s::rules::Rule;

fn rule(name: &str, value: &str) -> Rule {
    Rule { name: name.to_string(), value: value.to_string() }
}

#[test]
fn two_rules_decode_in_order() {
    // A rules response with count 2 and the pairs ("sv_gravity","800") and
    // ("mp_timelimit","30") decodes to exactly those pairs in that order.
    let mut p = vec![0x45, 0x02, 0x00];
    p.extend_from_slice(b"sv_gravity\0800\0mp_timelimit\030\0");
    let rules = Rule::from_cursor(Cursor::new(p)).unwrap();
    assert_eq!(rules.len(), 2);
    assert_eq!(rules[0].name, "sv_gravity");
    assert_eq!(rules[0].value, "800");
    assert_eq!(rules[1].name, "mp_timelimit");
    assert_eq!(rules[1].value, "30");
}

#[test]
fn rules_round_trip() {
    let rules = vec![rule("sv_gravity", "800"), rule("mp_timelimit", "30"), rule("empty", "")];
    let bytes = Rule::vec_to_bytes(rules.clone());
    assert_eq!(&bytes[..5], &[0xff, 0xff, 0xff, 0xff, 0x45]);
    let decoded = Rule::from_cursor(Cursor::new(bytes[4..].to_vec())).unwrap();
    assert_eq!(decoded, rules);
}

#[test]
fn rule_to_bytes_layout() {
    let bytes = rule("a", "bc").to_bytes();
    assert_eq!(bytes, b"a\0bc\0");
}

#[test]
fn rules_wrong_discriminant_is_invalid_response() {
    let p = vec![0x49, 0x00, 0x00];
    assert_eq!(
        Rule::from_cursor(Cursor::new(p)).err().unwrap(),
        Error::InvalidResponse
    );
}

#[test]
fn empty_rules_payload_is_io_error() {
    assert_eq!(
        Rule::from_cursor(Cursor::new(Vec::new())).err().unwrap(),
        Error::Io
    );
}

#[test]
fn truncated_count_is_io_error() {
    assert_eq!(
        Rule::from_cursor(Cursor::new(vec![0x45, 0x02])).err().unwrap(),
        Error::Io
    );
}

#[test]
fn missing_terminators_end_at_buffer() {
    // A declared count larger than the pairs present does not fail: string
    // reads end at the end of the buffer.
    let mut p = vec![0x45, 0x02, 0x00];
    p.extend_from_slice(b"only_name");
    let rules = Rule::from_cursor(Cursor::new(p)).unwrap();
    assert_eq!(rules.len(), 2);
    assert_eq!(rules[0].name, "only_name");
    assert_eq!(rules[0].value, "");
    assert_eq!(rules[1].name, "");
    assert_eq!(rules[1].value, "");
}

#[test]
fn invalid_utf8_becomes_replacement_chars() {
    let mut p = vec![0x45, 0x01, 0x00];
    p.extend_from_slice(&[0x61, 0xff, 0x62, 0x00]); // "a", bad byte, "b"
    p.extend_from_slice(b"v\0");
    let rules = Rule::from_cursor(Cursor::new(p)).unwrap();
    assert_eq!(rules[0].name, "a\u{fffd}b");
    assert_eq!(rules[0].value, "v");
}
