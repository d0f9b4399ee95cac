use plugx_config::configuration::merge;
use plugx_config::configuration::parse;
use plugx_config::configuration::Registered;
use plugx_config::loader::env::Env;
use plugx_config::parser::env::ConfigurationParserEnv;
use plugx_config::parser::Parser;
use plugx_config::source::Url;
use plugx_config::value::Value;

fn tx(text: &str) -> String {
    text.to_string()
}

fn vars(list: &[(&str, &str)]) -> Vec<(String, String)> {
    list.iter().map(|(k, v)| (k.to_string(), v.to_string())).collect()
}

fn nest(entries: Vec<(&str, Value)>) -> Value {
    Value::Table(entries.into_iter().map(|(k, v)| (k.to_string(), v)).collect())
}

fn env_parsers() -> Vec<Registered<ConfigurationParserEnv>> {
    let parser = ConfigurationParserEnv::new();
    vec![Registered { keys: parser.supported_format_list(), item: parser }]
}

#[test]
fn smoke() {
    let url = Url::parse("env://?prefix=APP_NAME").unwrap();
    let variables = vars(&[
        ("APP_NAME__FOO__SERVER__ADDRESS", "127.0.0.1"),
        ("APP_NAME__BAR__SQLITE__FILE", "/path/to/app.db"),
        ("APP_NAME__BAZ__LOGGING__LEVEL", "debug"),
        ("APP_NAME__QUX__HTTPS__INSECURE", "false"),
    ]);
    let skip_soft_errors = true;
    let loaded = Env::new().load(&url, &variables, None, skip_soft_errors).unwrap();
    let mut state: Vec<_> = loaded.into_iter().map(|(name, entity)| (name, vec![entity])).collect();
    parse(&mut state, &env_parsers()).unwrap();
    let merged = merge(&state).unwrap();
    merged.iter().for_each(|(plugin, config)| println!("{plugin}: {config:?}"));
    assert_eq!(merged.len(), 4);
    assert_eq!(merged[0].0, "foo");
    assert!(merged[0].1
        == nest(vec![("server", nest(vec![("address", Value::Str(tx("127.0.0.1")))]))]));
    assert_eq!(merged[1].0, "bar");
    assert!(merged[1].1
        == nest(vec![("sqlite", nest(vec![("file", Value::Str(tx("/path/to/app.db")))]))]));
    assert_eq!(merged[2].0, "baz");
    assert!(merged[2].1
        == nest(vec![("logging", nest(vec![("level", Value::Str(tx("debug")))]))]));
    assert_eq!(merged[3].0, "qux");
    assert!(merged[3].1
        == nest(vec![("https", nest(vec![("insecure", Value::Str(tx("false")))]))]));
}

