use plugx_config::parser::closure::Closure;
use plugx_config::parser::env::ConfigurationParserEnv;
use plugx_config::parser::json::Json;
use plugx_config::parser::toml::Toml;
use plugx_config::parser::yaml::Yaml;
use plugx_config::parser::Error;
use plugx_config::parser::Parser;
use plugx_config::value::Value;
use std::collections::HashMap;

fn st(text: &str) -> String {
    text.to_string()
}

fn tb(entries: Vec<(&str, Value)>) -> Value {
    Value::Table(entries.into_iter().map(|(k, v)| (k.to_string(), v)).collect())
}

fn sample() -> Value {
    tb(vec![
        ("hello", Value::List(vec![Value::Str(st("w")), Value::Str(st("o"))])),
        (
            "foo",
            tb(vec![
                (
                    "bar",
                    tb(vec![("baz", Value::Str(st("Qux"))), ("abc", Value::Float(3.14f64.to_bits()))]),
                ),
                ("xyz", Value::Bool(false)),
                ("n", Value::Int(-7)),
            ]),
        ),
    ])
}

fn outside_sample() -> plugx_input::Input {
    let bar: HashMap<String, plugx_input::Input> = HashMap::from([
        (st("baz"), plugx_input::Input::Str(st("Qux"))),
        (st("abc"), plugx_input::Input::Float(3.14)),
    ]);
    let foo: HashMap<String, plugx_input::Input> = HashMap::from([
        (st("bar"), plugx_input::Input::Map(bar)),
        (st("xyz"), plugx_input::Input::Bool(false)),
        (st("n"), plugx_input::Input::Int(-7)),
    ]);
    plugx_input::Input::Map(HashMap::from([
        (
            st("hello"),
            plugx_input::Input::List(vec![
                plugx_input::Input::Str(st("w")),
                plugx_input::Input::Str(st("o")),
            ]),
        ),
        (st("foo"), plugx_input::Input::Map(foo)),
    ]))
}

#[test]
fn json_parses_a_document() {
    let bytes = br#"{"hello": ["w", "o"], "foo": {"bar": {"baz": "Qux", "abc": 3.14}, "xyz": false, "n": -7}}"#;
    let parsed = Json::new().try_parse(bytes).unwrap();
    assert!(parsed == sample());
    assert_eq!(Json::new().supported_format_list(), vec![st("json")]);
    assert_eq!(Json::new().name(), "JSON");
}

#[test]
fn json_refuses_what_is_no_json() {
    assert!(Json::new().try_parse(b"{\"a\": ").is_err());
    assert_eq!(Json::new().is_format_supported(b"{\"a\": "), Some(false));
    assert_eq!(Json::new().is_format_supported(b"[1, 2]"), Some(true));
}

#[test]
fn yaml_parses_a_document() {
    let bytes = b"hello:\n  - w\n  - o\nfoo:\n  bar:\n    baz: Qux\n    abc: 3.14\n  xyz: false\n  n: -7\n";
    let parsed = Yaml::new().try_parse(bytes).unwrap();
    assert!(parsed == sample());
    assert_eq!(Yaml::new().supported_format_list(), vec![st("yml"), st("yaml")]);
    assert_eq!(Yaml::new().name(), "YAML");
    assert_eq!(Yaml::new().is_format_supported(bytes), Some(true));
    assert_eq!(Yaml::new().is_format_supported(b"a: [1"), Some(false));
}

#[test]
fn toml_parses_a_document() {
    let bytes = b"hello = [\"w\", \"o\"]\n\n[foo]\nbar = {baz = \"Qux\", abc = 3.14}\nxyz = false\nn = -7\n";
    let parsed = Toml::new().try_parse(bytes).unwrap();
    assert!(parsed == sample());
    assert_eq!(Toml::new().supported_format_list(), vec![st("toml")]);
    assert_eq!(Toml::new().name(), "TOML");
    assert_eq!(Toml::new().is_format_supported(bytes), Some(true));
    assert_eq!(Toml::new().is_format_supported(b"a = = 1"), Some(false));
}

#[test]
fn toml_refuses_bytes_that_are_no_utf8() {
    let bytes = [0x61u8, 0x20, 0x3d, 0x20, 0xff, 0xfe];
    assert_eq!(
        Toml::new().try_parse(&bytes).err().unwrap(),
        "Could not decode contents to UTF-8"
    );
    assert_eq!(Toml::new().is_format_supported(&bytes), Some(false));
}

#[test]
fn json_round_trip() {
    let bytes = serde_json::to_vec(&outside_sample()).unwrap();
    assert!(Json::new().try_parse(&bytes).unwrap() == sample());
}

#[test]
fn yaml_round_trip() {
    let text = serde_yaml::to_string(&outside_sample()).unwrap();
    assert!(Yaml::new().try_parse(text.as_bytes()).unwrap() == sample());
}

#[test]
fn toml_round_trip() {
    let text = toml::to_string(&outside_sample()).unwrap();
    assert!(Toml::new().try_parse(text.as_bytes()).unwrap() == sample());
}

#[test]
fn parse_wraps_the_failure() {
    let bytes = b"{\"a\": ";
    match Json::new().parse(bytes) {
        Err(Error::Parse { data, parser, supported_format_list, source }) => {
            assert_eq!(data, "{\"a\": ");
            assert_eq!(parser, "JSON");
            assert_eq!(supported_format_list, vec![st("json")]);
            assert!(!source.is_empty());
            assert_eq!(source, Json::new().try_parse(bytes).err().unwrap());
        }
        other => panic!("{other:?}"),
    }
    assert!(Json::new().parse(b"{\"a\": 1}").unwrap() == tb(vec![("a", Value::Int(1))]));
}

#[test]
fn env_parser_makes_nested_tables() {
    let bytes = b"\nFOO__BAR__BAZ=Qux\nFOO__BAR__ABC=3.14 # a comment\nFOO__XYZ=false\nHELLO='w o'\n";
    let parsed = ConfigurationParserEnv::new().try_parse(bytes).unwrap();
    let expected = tb(vec![
        (
            "foo",
            tb(vec![
                ("bar", tb(vec![("baz", Value::Str(st("Qux"))), ("abc", Value::Str(st("3.14")))])),
                ("xyz", Value::Str(st("false"))),
            ]),
        ),
        ("hello", Value::Str(st("w o"))),
    ]);
    assert!(parsed == expected);
    assert_eq!(ConfigurationParserEnv::new().supported_format_list(), vec![st("env")]);
    assert_eq!(ConfigurationParserEnv::new().name(), "Environment-Variables");
}

#[test]
fn env_parser_with_another_separator() {
    let parser = ConfigurationParserEnv::new().with_key_separator("_X_");
    let parsed = parser.try_parse(b"A_X_B=1\nA__C=2\n").unwrap();
    assert!(parsed
        == tb(vec![("a", tb(vec![("b", Value::Str(st("1")))])), ("a__c", Value::Str(st("2")))]));
    let mut other = ConfigurationParserEnv::new();
    other.set_key_separator("__");
    let parsed = other.try_parse(b"A__C=2\n").unwrap();
    assert!(parsed == tb(vec![("a", tb(vec![("c", Value::Str(st("2")))]))]));
}

#[test]
fn env_parser_passes_over_keys_with_an_empty_piece() {
    let parsed = ConfigurationParserEnv::new().try_parse(b"A____B=1\nC=2\n__D=3\nE__=4\n").unwrap();
    assert!(parsed == tb(vec![("c", Value::Str(st("2")))]));
}

#[test]
fn env_parser_with_an_empty_separator_keeps_nothing() {
    let parser = ConfigurationParserEnv::new().with_key_separator("");
    assert!(parser.try_parse(b"A=1\nB=2\n").unwrap() == Value::new_map());
}

#[test]
fn env_parser_reports_a_blocked_path() {
    let error = ConfigurationParserEnv::new().try_parse(b"A=1\nA__B=2\n").err().unwrap();
    assert_eq!(error, "a already exists with type string, but we needed map");
    let error =
        ConfigurationParserEnv::new().try_parse(b"A__B=1\nA__B__C__D=2\n").err().unwrap();
    assert_eq!(error, "[a][b] already exists with type string, but we needed map");
}

#[test]
fn env_parser_later_key_replaces_a_table() {
    let parsed = ConfigurationParserEnv::new().try_parse(b"A__B__C=1\na__b=2\n").unwrap();
    assert!(parsed == tb(vec![("a", tb(vec![("b", Value::Str(st("2")))]))]));
}

#[test]
fn env_parser_refuses_what_is_no_env_text() {
    assert!(ConfigurationParserEnv::new().try_parse(b"= = =").is_err());
    assert_eq!(ConfigurationParserEnv::new().is_format_supported(b"= = ="), Some(false));
    assert_eq!(ConfigurationParserEnv::new().is_format_supported(b"A=1"), Some(true));
    let bytes = [0x41u8, 0x3d, 0xff];
    assert_eq!(
        ConfigurationParserEnv::new().try_parse(&bytes).err().unwrap(),
        "Could not decode contents to UTF-8"
    );
    assert_eq!(ConfigurationParserEnv::new().is_format_supported(&bytes), Some(false));
}

#[test]
fn closure_parser_calls_its_functions() {
    let parse = |bytes: &[u8]| -> Result<Value, String> {
        if bytes.is_empty() {
            Err(st("empty"))
        } else {
            Ok(Value::Int(bytes.len() as isize))
        }
    };
    let recognise = |bytes: &[u8]| -> Option<bool> { Some(bytes.starts_with(b"#")) };
    let parser = Closure::new("Length", "len", parse, recognise);
    assert_eq!(parser.name(), "Length");
    assert_eq!(parser.supported_format_list(), vec![st("len")]);
    assert!(parser.try_parse(b"abc").unwrap() == Value::Int(3));
    assert_eq!(parser.try_parse(b"").err().unwrap(), "empty");
    assert_eq!(parser.is_format_supported(b"#x"), Some(true));
    assert_eq!(parser.is_format_supported(b"x"), Some(false));
    let parser = parser.with_format_list(&[st("a"), st("b")]);
    assert_eq!(parser.supported_format_list(), vec![st("a"), st("b")]);
    let mut parser = parser.with_parser(parse).with_validator(recognise);
    parser.set_format_list(&[st("c")]);
    parser.set_parser(parse);
    parser.set_validator(recognise);
    assert_eq!(parser.supported_format_list(), vec![st("c")]);
    match parser.parse(b"") {
        Err(Error::Parse { data, parser, supported_format_list, source }) => {
            assert_eq!(data, "");
            assert_eq!(parser, "Length");
            assert_eq!(supported_format_list, vec![st("c")]);
            assert_eq!(source, "empty");
        }
        other => panic!("{other:?}"),
    }
}
