//! The JSON codec: serialization, parsing, and the round trip.

use jira_cli::json::{arr1, obj1, obj2, parse_i32, parse_json, text, to_text, Json};

fn round_trips(src: &str) {
    let v = parse_json(src).expect("the text must parse");
    assert_eq!(to_text(&v), src);
}

#[test]
fn serializes_scalars() {
    assert_eq!(to_text(&Json::Null), "null");
    assert_eq!(to_text(&Json::Bool(true)), "true");
    assert_eq!(to_text(&Json::Bool(false)), "false");
    assert_eq!(to_text(&Json::Int(0)), "0");
    assert_eq!(to_text(&Json::Int(-42)), "-42");
    assert_eq!(to_text(&Json::Int(i64::MAX)), "9223372036854775807");
    assert_eq!(to_text(&Json::Int(i64::MIN)), "-9223372036854775808");
}

#[test]
fn serializes_structures() {
    let v = obj2("a", Json::Int(1), "b", arr1(text("x")));
    assert_eq!(to_text(&v), "{\"a\":1,\"b\":[\"x\"]}");
    assert_eq!(to_text(&Json::Arr(Vec::new())), "[]");
    assert_eq!(to_text(&Json::Obj(Vec::new())), "{}");
}

#[test]
fn escapes_specials() {
    let v = text("a\"b\\c\nd");
    assert_eq!(to_text(&v), "\"a\\\"b\\\\c\\u000ad\"");
}

#[test]
fn body_round_trips_byte_for_byte() {
    round_trips("{\"update\":{\"labels\":[{\"add\":\"blocked\"}]}}");
    round_trips("{\"accountId\":\"abc:123\",\"n\":-7,\"flags\":[true,false,null]}");
    round_trips("\"a\\\"b\\\\c\\u000ad\"");
    round_trips("[]");
    round_trips("{}");
    round_trips("-9223372036854775808");
    round_trips("9223372036854775807");
}

#[test]
fn parse_then_reserialize_is_identity_on_built_values() {
    let v = obj2(
        "fields",
        obj2("summary", text("Fix the bug"), "priority", obj1("name", text("High"))),
        "labels",
        arr1(text("blocked")),
    );
    let encoded = to_text(&v);
    let decoded = parse_json(&encoded).expect("an encoded body must decode");
    assert_eq!(to_text(&decoded), encoded);
}

#[test]
fn rejects_malformed_documents() {
    assert!(parse_json("").is_none());
    assert!(parse_json("   ").is_none());
    assert!(parse_json("{").is_none());
    assert!(parse_json("tru").is_none());
    assert!(parse_json("[1,]").is_none());
    assert!(parse_json("{\"a\":}").is_none());
    assert!(parse_json("\"unterminated").is_none());
    assert!(parse_json("12 34").is_none());
    assert!(parse_json("1.").is_none());
    assert!(parse_json("1e").is_none());
    assert!(parse_json(".5").is_none());
}

#[test]
fn accepts_whitespace_between_tokens() {
    let v = parse_json(" { \"a\" : [ 1 , true , null ] , \"b\" : \"x\" } ").unwrap();
    assert_eq!(to_text(&v), "{\"a\":[1,true,null],\"b\":\"x\"}");
    let v = parse_json("[ ]").unwrap();
    assert_eq!(to_text(&v), "[]");
    let v = parse_json("{ }").unwrap();
    assert_eq!(to_text(&v), "{}");
    let pretty = "{\n  \"tag_name\": \"v1.4.0\",\n  \"draft\": false,\n  \"id\": 1234\n}";
    let v = parse_json(pretty).unwrap();
    assert_eq!(v.get("tag_name").unwrap().as_str().unwrap(), "v1.4.0");
    assert_eq!(v.get("id").unwrap().as_int().unwrap(), 1234);
}

#[test]
fn carries_general_numbers_as_their_lexemes() {
    let v = parse_json("1.5").unwrap();
    assert_eq!(to_text(&v), "1.5");
    assert!(v.as_int().is_none());
    let v = parse_json("[-2.5E-2,1e3,99999999999999999999]").unwrap();
    assert_eq!(to_text(&v), "[-2.5E-2,1e3,99999999999999999999]");
    let v = parse_json("{\"score\":0.75,\"n\":7}").unwrap();
    assert_eq!(v.get("n").unwrap().as_int().unwrap(), 7);
    assert_eq!(to_text(v.get("score").unwrap()), "0.75");
}

#[test]
fn a_float_member_does_not_break_a_listing() {
    let body = parse_json(
        "{\"fields\":{\"customfield\":3.14,\"fixVersions\":[{\"name\":\"1.0\"}]}}",
    )
    .unwrap();
    let names = jira_cli::issue::show_fixversions_names(&body).unwrap();
    assert_eq!(names, vec!["1.0"]);
}

#[test]
fn accessors_read_members() {
    let v = parse_json("{\"key\":\"AB-1\",\"n\":5,\"ok\":true}").unwrap();
    assert_eq!(v.get("key").unwrap().as_str().unwrap(), "AB-1");
    assert_eq!(v.get("n").unwrap().as_int().unwrap(), 5);
    assert_eq!(v.get("ok").unwrap().as_bool().unwrap(), true);
    assert!(v.get("missing").is_none());
}

#[test]
fn parse_i32_accepts_decimal_texts() {
    assert_eq!(parse_i32("0"), Some(0));
    assert_eq!(parse_i32("10000"), Some(10000));
    assert_eq!(parse_i32("-17"), Some(-17));
    assert_eq!(parse_i32("2147483647"), Some(i32::MAX));
    assert_eq!(parse_i32("-2147483648"), Some(i32::MIN));
}

#[test]
fn parse_i32_rejects_everything_else() {
    assert_eq!(parse_i32(""), None);
    assert_eq!(parse_i32("-"), None);
    assert_eq!(parse_i32("12a"), None);
    assert_eq!(parse_i32("2147483648"), None);
    assert_eq!(parse_i32("-2147483649"), None);
    assert_eq!(parse_i32("1.5"), None);
}
