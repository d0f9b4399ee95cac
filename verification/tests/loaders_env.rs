use plugx_config::configuration::merge;
use plugx_config::configuration::parse;
use plugx_config::configuration::Registered;
use plugx_config::loader::closure::ConfigurationLoaderFn;
use plugx_config::loader::deserialize_query_string;
use plugx_config::loader::env::default::prefix;
use plugx_config::loader::env::default::separator;
use plugx_config::loader::env::default::strip_prefix;
use plugx_config::loader::env::Env;
use plugx_config::loader::soft_error_names;
use plugx_config::loader::ConfigurationLoadError;
use plugx_config::loader::ConfigurationLoader;
use plugx_config::loader::SoftErrors;
use plugx_config::parser::env::ConfigurationParserEnv;
use plugx_config::parser::Parser;
use plugx_config::source::Url;
use plugx_config::value::Value;

fn tx(text: &str) -> String {
    text.to_string()
}

fn vars(list: &[(&str, &str)]) -> Vec<(String, String)> {
    list.iter().map(|(k, v)| (k.to_string(), v.to_string())).collect()
}

fn nest(entries: Vec<(&str, Value)>) -> Value {
    Value::Table(entries.into_iter().map(|(k, v)| (k.to_string(), v)).collect())
}

fn env_parsers() -> Vec<Registered<ConfigurationParserEnv>> {
    let parser = ConfigurationParserEnv::new();
    vec![Registered { keys: parser.supported_format_list(), item: parser }]
}

#[test]
fn env_defaults() {
    assert_eq!(prefix(), "plugx_config__");
    assert_eq!(separator(), "__");
    assert!(strip_prefix());
    let loader = Env::new();
    assert_eq!(loader.options.prefix, "plugx_config__");
    assert_eq!(loader.options.separator, "__");
    assert!(loader.options.strip_prefix);
    assert_eq!(loader.name(), "Environment-Variables");
    assert_eq!(loader.scheme_list(), vec![tx("env")]);
    let default = Env::default();
    assert_eq!(default.options.prefix, "plugx_config__");
    assert_eq!(default.options.separator, "__");
    assert!(default.options.strip_prefix);
}

#[test]
fn env_builders() {
    let mut loader = Env::new().with_prefix("APP").with_separator("--").with_strip_prefix(false);
    assert_eq!(loader.options.prefix, "APP");
    assert_eq!(loader.options.separator, "--");
    assert!(!loader.options.strip_prefix);
    loader.set_prefix("X");
    loader.set_separator("_");
    loader.set_strip_prefix(true);
    assert_eq!(loader.options.prefix, "X");
    assert_eq!(loader.options.separator, "_");
    assert!(loader.options.strip_prefix);
}

#[test]
fn env_scenario_two_variables_one_plugin() {
    let url = Url::parse("env://?prefix=APP&separator=__").unwrap();
    let variables = vars(&[("APP__FOO__A", "1"), ("OTHER__FOO__C", "3"), ("APP__FOO__B", "2")]);
    let loaded = Env::new().load(&url, &variables, None, false).unwrap();
    assert_eq!(loaded.len(), 1);
    assert_eq!(loaded[0].0, "foo");
    assert_eq!(loaded[0].1.plugin_name(), "foo");
    assert_eq!(loaded[0].1.maybe_format(), Some(&tx("env")));
    assert_eq!(loaded[0].1.maybe_contents(), Some(&tx("A=\"1\"\nB=\"2\"")));
    assert!(*loaded[0].1.url() == url);
    assert_eq!(loaded[0].1.loader_name, "Environment-Variables");
    let mut state = vec![(tx("foo"), vec![loaded[0].1.clone()])];
    parse(&mut state, &env_parsers()).unwrap();
    let merged = merge(&state).unwrap();
    assert_eq!(merged.len(), 1);
    assert_eq!(merged[0].0, "foo");
    assert!(merged[0].1 == nest(vec![("a", Value::Str(tx("1"))), ("b", Value::Str(tx("2")))]));
}

#[test]
fn env_whitelist_leaves_other_plugins_out() {
    let url = Url::parse("env://?prefix=APP").unwrap();
    let variables = vars(&[("APP__FOO__A", "1"), ("APP__QUX__B", "2"), ("APP__Foo__C", "3")]);
    let whitelist = vec![tx("foo")];
    let loaded = Env::new().load(&url, &variables, Some(&whitelist), false).unwrap();
    assert_eq!(loaded.len(), 1);
    assert_eq!(loaded[0].0, "foo");
    assert_eq!(loaded[0].1.maybe_contents(), Some(&tx("A=\"1\"\nC=\"3\"")));
    let all = Env::new().load(&url, &variables, None, false).unwrap();
    assert_eq!(all.len(), 2);
    assert_eq!(all[0].0, "foo");
    assert_eq!(all[1].0, "qux");
    assert_eq!(all[1].1.maybe_contents(), Some(&tx("B=\"2\"")));
    let nothing = Env::new().load(&url, &variables, Some(&[]), false).unwrap();
    assert!(nothing.is_empty());
}

#[test]
fn env_options_of_the_loader_stand_before_those_of_the_source() {
    let url = Url::parse("env://?prefix=APP&separator=__&strip_prefix=true").unwrap();
    let variables = vars(&[("MY--FOO--A", "1"), ("APP__FOO__B", "2")]);
    let loader = Env::new().with_prefix("MY").with_separator("--");
    let loaded = loader.load(&url, &variables, None, false).unwrap();
    assert_eq!(loaded.len(), 1);
    assert_eq!(loaded[0].0, "foo");
    assert_eq!(loaded[0].1.maybe_contents(), Some(&tx("A=\"1\"")));
}

#[test]
fn env_without_stripping_the_prefix_names_the_plugin() {
    let url = Url::parse("env://?prefix=APP&strip_prefix=false").unwrap();
    let variables = vars(&[("APP__FOO__A", "1")]);
    let loaded = Env::new().load(&url, &variables, None, false).unwrap();
    assert_eq!(loaded.len(), 1);
    assert_eq!(loaded[0].0, "app");
    assert_eq!(loaded[0].1.maybe_contents(), Some(&tx("FOO__A=\"1\"")));
}

#[test]
fn env_default_prefix_is_used_without_a_query() {
    let url = Url::parse("env://").unwrap();
    let variables = vars(&[("plugx_config__FOO__A", "1"), ("FOO__B", "2")]);
    let loaded = Env::new().load(&url, &variables, None, false).unwrap();
    assert_eq!(loaded.len(), 1);
    assert_eq!(loaded[0].0, "foo");
    assert_eq!(loaded[0].1.maybe_contents(), Some(&tx("A=\"1\"")));
}

#[test]
fn env_variables_without_plugin_or_key_are_left_out() {
    let url = Url::parse("env://?prefix=APP").unwrap();
    let variables = vars(&[
        ("APP__", "1"),
        ("APP__FOO", "2"),
        ("APP__FOO__", "3"),
        ("APP____KEY", "4"),
        ("APPX__FOO__A", "5"),
        ("APP__BAR__K", "a \"quoted\" value"),
    ]);
    let loaded = Env::new().load(&url, &variables, None, false).unwrap();
    assert_eq!(loaded.len(), 1);
    assert_eq!(loaded[0].0, "bar");
    assert_eq!(loaded[0].1.maybe_contents(), Some(&tx("K=\"a \\\"quoted\\\" value\"")));
}

#[test]
fn env_empty_separator_gives_nothing() {
    let url = Url::parse("env://?prefix=APP&separator=").unwrap();
    let variables = vars(&[("APPFOO", "1")]);
    let loaded = Env::new().load(&url, &variables, None, false).unwrap();
    assert!(loaded.is_empty());
}

#[test]
fn env_refuses_a_switch_that_is_none() {
    let url = Url::parse("env://?strip_prefix=maybe").unwrap();
    match Env::new().load(&url, &[], None, true) {
        Err(ConfigurationLoadError::InvalidUrl { loader, url: text, .. }) => {
            assert_eq!(loader, "Environment-Variables");
            assert_eq!(text, "env://?strip_prefix=maybe");
        }
        other => panic!("{other:?}"),
    }
    assert!(Env::new().get_options(&url).is_err());
    let fine = Env::new().get_options(&Url::parse("env://?prefix=A&unknown=1").unwrap()).unwrap();
    assert_eq!(fine.prefix, "A");
    assert_eq!(fine.separator, "__");
    assert!(fine.strip_prefix);
}

#[test]
fn query_fields_come_out_by_name() {
    let url = Url::parse("xyz:///p?b=2&a=1&c=x%20y").unwrap();
    let fields = deserialize_query_string("test", &url).unwrap();
    assert_eq!(fields, vec![(tx("a"), tx("1")), (tx("b"), tx("2")), (tx("c"), tx("x y"))]);
    let none = deserialize_query_string("test", &Url::parse("xyz:///p").unwrap()).unwrap();
    assert!(none.is_empty());
}

#[test]
fn soft_error_policy_text() {
    assert_eq!(soft_error_names("all"), None);
    assert_eq!(soft_error_names("not-found.all"), None);
    assert_eq!(
        soft_error_names("not-found.permission-denied"),
        Some(vec![tx("not-found"), tx("permission-denied")])
    );
    assert_eq!(soft_error_names("..a...b."), Some(vec![tx("a"), tx("b")]));
    assert_eq!(soft_error_names(""), Some(vec![]));
    assert_eq!(soft_error_names("allx"), Some(vec![tx("allx")]));
}

#[test]
fn soft_errors_of_any_kind() {
    let all: SoftErrors<u8> = SoftErrors::new_all();
    assert!(all.skip_all());
    assert!(all.contains(&7));
    assert!(all.maybe_soft_error_list().is_none());
    let mut list: SoftErrors<u8> = SoftErrors::new_list();
    assert!(!list.skip_all());
    assert!(!list.contains(&7));
    list.add_soft_error(7);
    assert!(list.contains(&7));
    assert!(!list.contains(&8));
    let mut list = list.with_soft_error(8);
    assert_eq!(list.maybe_soft_error_list(), Some(&vec![7u8, 8]));
    list.maybe_soft_error_list_mut().unwrap().push(9);
    assert!(list.contains(&9));
    let mut all = all.with_soft_error(1);
    all.add_soft_error(2);
    assert!(all.skip_all());
    assert!(all.maybe_soft_error_list_mut().is_none());
    let default: SoftErrors<u8> = Default::default();
    assert_eq!(default.maybe_soft_error_list(), Some(&vec![]));
}

#[test]
fn skippable_errors() {
    let url = Url::parse("xyz:///p").unwrap();
    let soft = ConfigurationLoadError::Load {
        loader: tx("l"),
        url: url.clone(),
        description: tx("d"),
        source: tx("s"),
        skippable: true,
    };
    let hard = ConfigurationLoadError::Load {
        loader: tx("l"),
        url: url.clone(),
        description: tx("d"),
        source: tx("s"),
        skippable: false,
    };
    assert!(soft.is_skippable());
    assert!(!hard.is_skippable());
    assert!(!ConfigurationLoadError::NotFound { loader: tx("l"), url: url.clone() }.is_skippable());
    assert!(!ConfigurationLoadError::NoAccess { loader: tx("l"), url: url.clone() }.is_skippable());
    assert!(!ConfigurationLoadError::Timeout {
        loader: tx("l"),
        url: url.clone(),
        timeout_in_seconds: 3
    }
    .is_skippable());
    assert!(!ConfigurationLoadError::Duplicate {
        loader: tx("l"),
        url: url.clone(),
        plugin: tx("p"),
        format_1: tx("a"),
        format_2: tx("b")
    }
    .is_skippable());
    assert!(!ConfigurationLoadError::AcquireLock { loader: tx("l"), url: url.clone() }.is_skippable());
    assert!(!ConfigurationLoadError::LoaderNotFound { scheme: tx("s"), url }.is_skippable());
    assert!(!ConfigurationLoadError::Other(tx("o")).is_skippable());
    assert!(!ConfigurationLoadError::InvalidUrl { loader: tx("l"), url: tx("u"), source: tx("s") }
        .is_skippable());
}

#[test]
fn closure_loader_calls_its_function() {
    let load = |url: &Url, whitelist: Option<&[String]>, skip: bool| -> Result<
        Vec<(String, plugx_config::entity::ConfigurationEntity)>,
        ConfigurationLoadError,
    > {
        if skip {
            return Ok(Vec::new());
        }
        let name = match whitelist {
            Some(list) => list[0].clone(),
            None => tx("any"),
        };
        Ok(vec![(
            name.clone(),
            plugx_config::entity::ConfigurationEntity::new(url.clone(), &name, "mine"),
        )])
    };
    let loader = ConfigurationLoaderFn::new("mine", load, "xyz");
    assert_eq!(loader.name(), "mine");
    assert_eq!(loader.scheme_list(), vec![tx("xyz")]);
    let url = Url::parse("xyz:///p").unwrap();
    let loaded = loader.load(&url, Some(&[tx("foo")]), false).unwrap();
    assert_eq!(loaded.len(), 1);
    assert_eq!(loaded[0].0, "foo");
    assert!(loader.load(&url, None, true).unwrap().is_empty());
    let mut loader = loader.with_name("other").with_scheme_list(&[tx("a"), tx("b")]).with_loader(load);
    assert_eq!(loader.name(), "other");
    assert_eq!(loader.scheme_list(), vec![tx("a"), tx("b")]);
    loader.set_name("third");
    loader.set_scheme_list(&[tx("c")]);
    loader.set_loader(load);
    assert_eq!(loader.name(), "third");
    assert_eq!(loader.scheme_list(), vec![tx("c")]);
}
