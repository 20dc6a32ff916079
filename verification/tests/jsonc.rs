use churros::backend::jsonc::{parse, remove_trailing_commas, strip_line_comments};
use churros::services::settings::Json;

/// The value written compactly, members in the order held.
fn show(j: &Json) -> String {
    match j {
        Json::Null => "null".to_string(),
        Json::Bool(b) => b.to_string(),
        Json::Number(n) => n.clone(),
        Json::Str(s) => format!("{:?}", s),
        Json::Array(a) => format!("[{}]", a.iter().map(show).collect::<Vec<_>>().join(",")),
        Json::Object(m) => format!(
            "{{{}}}",
            m.iter().map(|(k, v)| format!("{:?}:{}", k, show(v))).collect::<Vec<_>>().join(",")
        ),
    }
}

/// The member `k` of an object.
fn member<'a>(j: &'a Json, k: &str) -> &'a Json {
    match j {
        Json::Object(m) => &m.iter().find(|(n, _)| n == k).expect("member").1,
        _ => panic!("not an object"),
    }
}

#[test]
fn plain_json() {
    let value = parse(r#"{"position":"top","height":30}"#).unwrap();
    assert_eq!(show(member(&value, "position")), "\"top\"");
    assert_eq!(show(member(&value, "height")), "30");
}

#[test]
fn strips_line_comments() {
    let raw = r#"
    {
        // barra arriba
        "position": "top",
        "height": 30 // px
    }
    "#;
    let value = parse(raw).unwrap();
    assert_eq!(show(member(&value, "position")), "\"top\"");
    assert_eq!(show(member(&value, "height")), "30");
}

#[test]
fn keeps_slashes_inside_strings() {
    let value = parse(r#"{"url":"https://churros.local","note":"usa // así"}"#).unwrap();
    assert_eq!(show(member(&value, "url")), "\"https://churros.local\"");
    assert_eq!(show(member(&value, "note")), format!("{:?}", "usa // así"));
}

#[test]
fn keeps_escaped_quotes_inside_strings() {
    let value = parse(r#"{"label":"di \"hola\""}"#).unwrap();
    assert_eq!(show(member(&value, "label")), format!("{:?}", r#"di "hola""#));
}

#[test]
fn removes_trailing_commas() {
    let raw = r#"
    {
        "modules": ["clock", "battery",],
        "nested": { "a": 1, },
    }
    "#;
    let value = parse(raw).unwrap();
    assert_eq!(show(member(&value, "modules")), "[\"clock\",\"battery\"]");
    assert_eq!(show(member(member(&value, "nested"), "a")), "1");
}

#[test]
fn invalid_json_is_error_not_empty_object() {
    assert!(parse("{ esto no es json").is_err());
}

#[test]
fn empty_object_is_valid() {
    assert_eq!(show(&parse("{}").unwrap()), "{}");
}

#[test]
fn whole_value_is_read() {
    let value = parse("{\"modules\": [\"clock\", \"battery\",], // lista\n \"nested\": { \"a\": 1, },}").unwrap();
    assert_eq!(show(&value), "{\"modules\":[\"clock\",\"battery\"],\"nested\":{\"a\":1}}");
    assert_eq!(show(&parse("[1, true, null, \"x\"]").unwrap()), "[1,true,null,\"x\"]");
}

#[test]
fn commas_inside_strings_stay() {
    let value = parse("{\"k\":\",}\"}").unwrap();
    assert_eq!(show(member(&value, "k")), "\",}\"");
    assert_eq!(remove_trailing_commas("[\"a,]\",]"), "[\"a,]\"]");
    assert_eq!(remove_trailing_commas("[\"a\\\",]\",]"), "[\"a\\\",]\"]");
}

#[test]
fn stripping_and_commas_exact() {
    assert_eq!(strip_line_comments("a // b\nc"), "a \nc");
    assert_eq!(strip_line_comments("\"x // y\" // z"), "\"x // y\" ");
    assert_eq!(strip_line_comments("\"a\\\"//b\""), "\"a\\\"//b\"");
    assert_eq!(remove_trailing_commas("[1, 2 ,\n ]"), "[1, 2 \n ]");
    assert_eq!(remove_trailing_commas("{\"a\":1,\"b\":2}"), "{\"a\":1,\"b\":2}");
    assert_eq!(remove_trailing_commas(", "), ", ");
}

#[test]
fn stripping_keeps_line_breaks() {
    let raw = "{\n // a\n \"x\": 1 // b\n}\n";
    assert_eq!(strip_line_comments(raw).matches('\n').count(), raw.matches('\n').count());
    let plain = "{\"url\":\"http://x\"}\n";
    assert_eq!(strip_line_comments(plain), plain);
}
