use doctrine::tomlfmt::{toml_array_inner, toml_string};
use doctrine::value::{resolve_unit, ValueConfig};

#[test]
fn v6_resolve_unit_default() {
    assert_eq!(resolve_unit(&ValueConfig::default()), "magic_beans");
}

#[test]
fn resolve_unit_takes_a_configured_unit_but_not_an_empty_one() {
    assert_eq!(resolve_unit(&ValueConfig { unit: Some("usd".into()) }), "usd");
    assert_eq!(resolve_unit(&ValueConfig { unit: Some(String::new()) }), "magic_beans");
}

fn round_trip_array(inner: &str) -> Vec<String> {
    let doc = format!("v = [{inner}]");
    let parsed: toml::Value = toml::from_str(&doc).unwrap();
    parsed["v"].as_array().unwrap().iter().map(|e| e.as_str().unwrap().to_owned()).collect()
}

#[test]
fn toml_array_inner_escapes_string_and_array_breakers() {
    let xs = vec![
        "plain".to_owned(),
        "has]bracket".to_owned(),
        "has,comma".to_owned(),
        "has\"quote".to_owned(),
        "has\nnewline".to_owned(),
    ];
    assert_eq!(round_trip_array(&toml_array_inner(&xs)), xs);
}

#[test]
fn toml_array_inner_empty_is_empty() {
    assert_eq!(toml_array_inner(&vec![]), "");
    assert_eq!(round_trip_array(&toml_array_inner(&vec![])), Vec::<String>::new());
}

#[test]
fn toml_string_is_identity_on_safe_input() {
    assert_eq!(toml_string("Fast boot"), "\"Fast boot\"");
}

fn round_trip_string(literal: &str) -> String {
    let doc = format!("v = {literal}");
    let parsed: toml::Value = toml::from_str(&doc).unwrap();
    parsed["v"].as_str().unwrap().to_owned()
}

#[test]
fn toml_string_escapes_quote_backslash_newline() {
    for hostile in ["a\"b", "a\\b", "a\nb", "a\"\\\nb", "ends-with-quote\""] {
        let literal = toml_string(hostile);
        assert_eq!(round_trip_string(&literal), hostile, "literal was {literal}");
    }
}
