use zhtw_mcp::json::{find_member, parse_json, push_member, Json};

#[test]
fn values_are_read_and_written_back() {
    let text = r#"{"a":[1,-2,"x",null,true],"b":{"c":1.5}}"#;
    let value = parse_json(text).unwrap();
    assert_eq!(value.to_text(), text);
    assert_eq!(value.clone(), value);
}

#[test]
fn members_are_written_in_the_order_of_their_names() {
    assert_eq!(
        parse_json(r#"{"b":1,"a":2}"#).unwrap().to_text(),
        r#"{"a":2,"b":1}"#
    );
}

#[test]
fn the_last_member_of_a_name_holds() {
    let mut entries = Vec::new();
    push_member(&mut entries, "a", Json::Int(1));
    push_member(&mut entries, "a", Json::Int(2));
    assert_eq!(find_member(&entries, "a"), Some(&Json::Int(2)));
    assert_eq!(find_member(&entries, "b"), None);
    assert_eq!(Json::Object(entries).to_text(), r#"{"a":2}"#);
}

#[test]
fn big_numbers_keep_their_digits() {
    let text = "[18446744073709551615,0.25,-9223372036854775808]";
    assert_eq!(parse_json(text).unwrap().to_text(), text);
}

#[test]
fn integers_are_told_from_other_numbers() {
    assert_eq!(parse_json("7").unwrap().as_i64(), Some(7));
    assert_eq!(parse_json("7.0").unwrap().as_i64(), None);
    assert_eq!(parse_json("\"7\"").unwrap().as_i64(), None);
    assert_eq!(
        parse_json("9223372036854775808").unwrap().as_i64(),
        None
    );
}

#[test]
fn places_are_numbers() {
    assert_eq!(Json::from_index(0).to_text(), "0");
    assert_eq!(Json::from_index(7), Json::Int(7));
    assert_eq!(
        Json::from_index(usize::MAX).to_text(),
        usize::MAX.to_string()
    );
}

#[test]
fn only_objects_have_members() {
    assert!(parse_json("[1]").unwrap().get("0").is_none());
    assert!(parse_json("{\"0\":1}").unwrap().get("0").is_some());
}

#[test]
fn a_string_is_expected_or_refused() {
    assert_eq!(
        Json::Str("x".to_owned()).expect_string(),
        Ok("x".to_owned())
    );
    assert_eq!(
        Json::Null.expect_string(),
        Err("invalid type: null, expected a string".to_owned())
    );
}

#[test]
fn a_plain_value_is_read_back_as_deep_as_it_may_nest() {
    let mut value = Json::Object(vec![
        ("k\u{0}\"".to_owned(), Json::Int(i64::MIN)),
        ("".to_owned(), Json::Array(vec![])),
    ]);
    for _ in 0..125 {
        value = Json::Array(vec![value]);
    }
    assert_eq!(parse_json(&value.to_text()).unwrap().to_text(), value.to_text());
    let deeper = Json::Array(vec![value]);
    assert!(parse_json(&deeper.to_text()).is_err());
}

#[test]
fn a_clone_keeps_the_order_and_the_repeats_of_members() {
    let value = Json::Object(vec![
        ("b".to_owned(), Json::Array(vec![Json::Null, Json::Str("x".to_owned())])),
        ("a".to_owned(), Json::Int(1)),
        ("b".to_owned(), parse_json("1.5").unwrap()),
    ]);
    assert_eq!(value.clone(), value);
}

#[test]
fn repeated_names_are_settled_before_they_are_written() {
    let member = |name: &str, i: i64| (name.to_owned(), Json::Int(i));
    let value = Json::Array(vec![Json::Object(vec![
        member("b", 1),
        member("a", 2),
        member("b", 3),
        member("c", 4),
        member("a", 5),
        member("b", 6),
    ])]);
    assert_eq!(value.to_text(), r#"[{"a":5,"b":6,"c":4}]"#);
}
