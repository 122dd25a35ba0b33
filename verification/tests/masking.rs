use glue::mask::Mask;
use glue::masking::{deserialize, remove_serialization_placeholders, serialize};
use glue::serialized::Serialized;
use glue::utils::{
    exclude_quoted_text, get_raw_json_body, resolve_key_and_value, trim_and_remove_quotes,
};

#[test]
fn it_masks_quoted_runs_left_to_right() {
    let (masked, components) = serialize(r#"a "b c" d "e""#.to_string());
    assert_eq!(masked, "a |#0| d |#1|");
    assert_eq!(components, vec![r#""b c""#.to_string(), r#""e""#.to_string()]);
}

#[test]
fn it_masks_raw_body_fences() {
    let (masked, components) = serialize(r#"post http://x ~#-{"a": 1}-#"#.to_string());
    assert_eq!(masked, "post http://x |#0|");
    assert_eq!(components, vec![r#"~#-{"a": 1}-#"#.to_string()]);
}

#[test]
fn it_round_trips_masking() {
    let raw = r#"get http://example.com ~password="a {b} ; c" ~#-{"k": "v"}-#"#.to_string();
    let (masked, components) = serialize(raw.clone());
    assert_eq!(deserialize(masked, &components), raw);
}

#[test]
fn it_honors_escaped_quotes() {
    let raw = r#"x "a\"b" y"#.to_string();
    let (masked, components) = serialize(raw.clone());
    assert_eq!(masked, "x |#0| y");
    assert_eq!(components, vec![r#""a\"b""#.to_string()]);
    assert_eq!(deserialize(masked, &components), raw);
}

#[test]
fn it_leaves_unbalanced_quotes_verbatim() {
    let raw = r#"a "b"#.to_string();
    let (masked, components) = serialize(raw.clone());
    assert_eq!(masked, raw);
    assert!(components.is_empty());
}

#[test]
fn it_removes_placeholders() {
    assert_eq!(
        remove_serialization_placeholders(&"a |#0| b |#12| c".to_string()),
        "a  b  c"
    );
    assert_eq!(
        remove_serialization_placeholders(&"|#x| stays".to_string()),
        "|#x| stays"
    );
}

#[test]
fn it_trims_and_removes_quotes() {
    assert_eq!(trim_and_remove_quotes(r#"  "a b"  "#.to_string()), "a b");
    assert_eq!(trim_and_remove_quotes("  plain ".to_string()), "plain");
    assert_eq!(trim_and_remove_quotes("\"".to_string()), "\"");
}

#[test]
fn it_resolves_key_and_value() {
    assert_eq!(
        resolve_key_and_value(" a = b ".to_string()).unwrap(),
        ("a".to_string(), "b".to_string())
    );
    // with more than one `=`, the value is the piece between the first two
    assert_eq!(
        resolve_key_and_value("a=b=c".to_string()).unwrap(),
        ("a".to_string(), "b".to_string())
    );
    assert_eq!(
        resolve_key_and_value("no separator".to_string()).unwrap_err(),
        "Failed to resolve value from attribute".to_string()
    );
}

#[test]
fn it_extracts_a_raw_json_body() {
    assert_eq!(
        get_raw_json_body(&r#"post http://x ~#-{"a": 1}-# y"#.to_string()),
        Some(r#"{"a": 1}"#.to_string())
    );
    assert_eq!(get_raw_json_body(&"no fence".to_string()), None);
}

#[test]
fn it_excludes_quoted_text() {
    assert_eq!(
        exclude_quoted_text(r#"a "b" c "d" e"#.to_string()),
        "a  c  e"
    );
    assert_eq!(exclude_quoted_text(r#"tail "x"#.to_string()), "tail \"x");
}

#[test]
fn it_keeps_mask_forms_consistent() {
    let mask = Mask::new(r#"get "u v""#.to_string());
    assert_eq!(mask.masked(), "get |#0|");
    assert_eq!(mask.unmasked(), r#"get "u v""#);
    assert_eq!(mask.unmask_part("x |#0| y".to_string()), r#"x "u v" y"#);

    let derived = Mask::derive("|#0|".to_string(), &mask);
    assert_eq!(derived.unmasked(), r#""u v""#);
    assert_eq!(derived.masked(), "|#0|");
}

#[test]
fn it_updates_a_mask_in_place() {
    let mut mask = Mask::new("ab".to_string());
    mask.push('c');
    assert_eq!(mask.unmasked(), "abc");
    mask.push_str(r#" "q""#);
    assert_eq!(mask.unmasked(), r#"abc "q""#);
    assert_eq!(mask.masked(), "abc |#0|");
    mask.assign("x".to_string());
    assert_eq!(mask.unmasked(), "x");
    assert_eq!(mask.masked(), "x");
}

#[test]
fn it_keeps_serialized_forms_consistent() {
    let s = Serialized::new(r#"get "a b""#.to_string());
    assert_eq!(s.serialized(), "get |#0|");
    assert_eq!(s.deserialized(), r#"get "a b""#);
    assert_eq!(s.deserialize_part("|#0|!".to_string()), r#""a b"!"#);
}
