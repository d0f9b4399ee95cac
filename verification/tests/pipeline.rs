use plugx_config::configuration::forget_loaded;
use plugx_config::configuration::forget_parsed;
use plugx_config::configuration::load;
use plugx_config::configuration::merge;
use plugx_config::configuration::parse;
use plugx_config::configuration::resolve_loader;
use plugx_config::configuration::validate;
use plugx_config::configuration::Configuration;
use plugx_config::configuration::Registered;
use plugx_config::configuration::Source;
use plugx_config::entity::ConfigurationEntity;
use plugx_config::error::Error;
use plugx_config::loader::ConfigurationLoadError;
use plugx_config::loader::ConfigurationLoader;
use plugx_config::parser::json::Json;
use plugx_config::parser::yaml::Yaml;
use plugx_config::parser::Parser;
use plugx_config::source::Url;
use plugx_config::value::Value;
use std::cell::Cell;
use std::rc::Rc;

fn n(text: &str) -> String {
    text.to_string()
}

fn map(entries: Vec<(&str, Value)>) -> Value {
    Value::Table(entries.into_iter().map(|(k, v)| (k.to_string(), v)).collect())
}

fn link(text: &str) -> Url {
    Url::parse(text).unwrap()
}

/// A loader for the tests: what it gives is written in the source's path.
struct Scripted {
    name: String,
    schemes: Vec<String>,
    calls: Rc<Cell<usize>>,
}

impl Scripted {
    fn new(name: &str, scheme: &str) -> Self {
        Scripted { name: n(name), schemes: vec![n(scheme)], calls: Rc::new(Cell::new(0)) }
    }
}

impl ConfigurationLoader for Scripted {
    fn name(&self) -> String {
        self.name.clone()
    }

    fn scheme_list(&self) -> Vec<String> {
        self.schemes.clone()
    }

    fn load(
        &self,
        url: &Url,
        maybe_whitelist: Option<&[String]>,
        _skip_soft_errors: bool,
    ) -> Result<Vec<(String, ConfigurationEntity)>, ConfigurationLoadError> {
        self.calls.set(self.calls.get() + 1);
        match url.path().as_str() {
            "/soft" => {
                return Err(ConfigurationLoadError::Load {
                    loader: self.name.clone(),
                    url: url.clone(),
                    description: n("load"),
                    source: n("gone for now"),
                    skippable: true,
                })
            }
            "/hard" => {
                return Err(ConfigurationLoadError::NotFound {
                    loader: self.name.clone(),
                    url: url.clone(),
                })
            }
            _ => {}
        }
        let mut list = Vec::new();
        for part in url.query().cloned().unwrap_or_default().split('&') {
            if let Some((plugin, contents)) = part.split_once('=') {
                if maybe_whitelist.map(|w| w.contains(&n(plugin))).unwrap_or(true) {
                    let mut entity = ConfigurationEntity::new(url.clone(), plugin, &self.name);
                    if contents != "-" {
                        let contents = contents.replace('\'', "\"");
                        entity.set_contents(&contents);
                        if !contents.starts_with('?') {
                            entity.set_format("json");
                        }
                    }
                    list.push((n(plugin), entity));
                }
            }
        }
        Ok(list)
    }
}

fn scripted_configuration() -> Configuration<Scripted, Json> {
    Configuration::new().with_loader(Scripted::new("scripted", "mem")).with_parser(Json::new())
}

fn names(state: &[(String, Vec<ConfigurationEntity>)]) -> Vec<(String, Vec<String>)> {
    state
        .iter()
        .map(|(name, list)| (name.clone(), list.iter().map(|e| e.url().path().clone()).collect()))
        .collect()
}

#[test]
fn load_keeps_the_order_of_registration() {
    let configuration = scripted_configuration()
        .with_url(link("mem:///1?foo=1&bar=2"))
        .unwrap()
        .with_url(link("mem:///2?baz=3&foo=4"))
        .unwrap()
        .with_url(link("mem:///3?bar=5&foo=6"))
        .unwrap();
    let state = configuration.load(false).unwrap();
    assert_eq!(
        names(&state),
        vec![
            (n("foo"), vec![n("/1"), n("/2"), n("/3")]),
            (n("bar"), vec![n("/1"), n("/3")]),
            (n("baz"), vec![n("/2")]),
        ]
    );
}

#[test]
fn later_source_wins_for_leaves_and_tables_merge() {
    let configuration = scripted_configuration()
        .with_url(link("mem:///1?foo={'a':1,'b':{'x':1}}"))
        .unwrap()
        .with_url(link("mem:///2?foo={'b':{'y':2},'c':3}"))
        .unwrap();
    let state = configuration.load(false).unwrap();
    assert_eq!(state[0].1[0].maybe_contents(), Some(&n("{\"a\":1,\"b\":{\"x\":1}}")));
    let whole = configuration.load_parse_merge(false).unwrap();
    assert_eq!(whole.len(), 1);
    assert!(whole[0].1
        == map(vec![
            ("a", Value::Int(1)),
            ("b", map(vec![("x", Value::Int(1)), ("y", Value::Int(2))])),
            ("c", Value::Int(3)),
        ]));
    let one = ConfigurationEntity::new(link("mem:///1"), "foo", "test")
        .with_format("json")
        .with_contents("{\"a\":1,\"b\":{\"x\":1}}");
    let two = ConfigurationEntity::new(link("mem:///2"), "foo", "test")
        .with_format("json")
        .with_contents("{\"b\":{\"y\":2},\"c\":3}");
    let mut state = vec![(n("foo"), vec![one, two])];
    let parsers = vec![Registered { keys: vec![n("json")], item: Json::new() }];
    parse(&mut state, &parsers).unwrap();
    let merged = merge(&state).unwrap();
    assert_eq!(merged.len(), 1);
    assert_eq!(merged[0].0, "foo");
    assert!(merged[0].1
        == map(vec![
            ("a", Value::Int(1)),
            ("b", map(vec![("x", Value::Int(1)), ("y", Value::Int(2))])),
            ("c", Value::Int(3)),
        ]));
}

#[test]
fn resolving_twice_gives_the_same() {
    let configuration = scripted_configuration()
        .with_url(link("mem:///1?foo=[1,2]&bar={'k':true}"))
        .unwrap()
        .with_url(link("mem:///2?bar={'k':false,'l':1.5}"))
        .unwrap();
    let first = configuration.load_parse_merge(false).unwrap();
    let second = configuration.load_parse_merge(false).unwrap();
    assert_eq!(first.len(), 2);
    assert_eq!(first.len(), second.len());
    for (one, two) in first.iter().zip(second.iter()) {
        assert_eq!(one.0, two.0);
        assert!(one.1 == two.1);
    }
    assert_eq!(first[0].0, "foo");
    assert!(first[0].1 == Value::List(vec![Value::Int(1), Value::Int(2)]));
    assert!(first[1].1
        == map(vec![("k", Value::Bool(false)), ("l", Value::Float(1.5f64.to_bits()))]));
}

#[test]
fn whitelist_keeps_the_other_plugins_out() {
    let configuration = scripted_configuration()
        .with_whitelist(&[n("FOO")])
        .with_url(link("mem:///1?foo=1&bar=2"))
        .unwrap()
        .with_url(link("mem:///2?baz=3"))
        .unwrap();
    assert!(configuration.is_in_whitelist("Foo"));
    assert!(!configuration.is_in_whitelist("bar"));
    let merged = configuration.load_parse_merge(false).unwrap();
    assert_eq!(merged.len(), 1);
    assert_eq!(merged[0].0, "foo");
    assert!(merged[0].1 == Value::Int(1));
}

#[test]
fn whitelist_names() {
    let mut configuration = scripted_configuration();
    assert!(!configuration.is_in_whitelist("foo"));
    assert!(configuration.maybe_whitelist.is_none());
    configuration.set_whitelist(&[]);
    assert!(configuration.maybe_whitelist.is_none());
    configuration.add_to_whitelist("Foo");
    configuration.add_to_whitelist("foo");
    configuration.add_to_whitelist("BAR");
    assert_eq!(configuration.maybe_whitelist, Some(vec![n("foo"), n("bar")]));
    configuration.set_whitelist(&[n("Baz"), n("bar")]);
    assert_eq!(configuration.maybe_whitelist, Some(vec![n("foo"), n("bar"), n("baz")]));
}

#[test]
fn whitelist_from_the_text_of_a_variable() {
    let mut configuration = scripted_configuration();
    configuration.load_whitelist_from_env("PLUGINS", Some("  Foo,bar;BAZ qux  ")).unwrap();
    assert_eq!(configuration.maybe_whitelist, Some(vec![n("foo"), n("bar"), n("baz"), n("qux")]));
    let mut configuration = scripted_configuration();
    configuration.load_whitelist_from_env("PLUGINS", Some("a, b")).unwrap();
    assert_eq!(configuration.maybe_whitelist, Some(vec![n("a"), n(""), n("b")]));
    let mut configuration = scripted_configuration();
    configuration.load_whitelist_from_env("PLUGINS", Some("   ")).unwrap();
    assert!(configuration.maybe_whitelist.is_none());
    match configuration.load_whitelist_from_env("PLUGINS", None) {
        Err(Error::Other(message)) => {
            assert_eq!(message, "Invalid key or the value is not set: PLUGINS")
        }
        other => panic!("{other:?}"),
    }
    assert!(configuration.maybe_whitelist.is_none());
    let configuration = scripted_configuration().set_whitelist_from_env("P", Some("x")).unwrap();
    assert_eq!(configuration.maybe_whitelist, Some(vec![n("x")]));
    assert!(scripted_configuration().set_whitelist_from_env("P", None).is_err());
}

#[test]
fn a_source_without_a_loader_is_refused() {
    let mut configuration = scripted_configuration();
    match configuration.add_url(link("other:///1")) {
        Err(Error::Load { source: ConfigurationLoadError::LoaderNotFound { scheme, url } }) => {
            assert_eq!(scheme, "other");
            assert!(url == link("other:///1"));
        }
        other => panic!("{other:?}"),
    }
    assert!(configuration.url_list().is_empty());
    assert!(!configuration.has_loader(&link("other:///1")));
    assert!(configuration.has_loader(&link("mem:///1")));
    let sources = vec![Source { url: link("other:///1"), loader: None }];
    let loaders = vec![Registered { keys: vec![n("mem")], item: Scripted::new("s", "mem") }];
    match load(&sources, &loaders, None, true) {
        Err(ConfigurationLoadError::LoaderNotFound { scheme, url }) => {
            assert_eq!(scheme, "other");
            assert!(url == link("other:///1"));
        }
        other => panic!("{:?}", other.map(|state| names(&state))),
    }
    assert_eq!(loaders[0].item.calls.get(), 0);
}

#[test]
fn registering_a_source_again_changes_nothing() {
    let mut configuration = scripted_configuration();
    configuration.add_url(link("mem:///1?foo=1")).unwrap();
    configuration.add_url(link("mem:///2?foo=2")).unwrap();
    configuration.add_url(link("mem:///1?foo=1")).unwrap();
    assert_eq!(configuration.url_list().len(), 2);
    assert!(configuration.url_list()[0] == link("mem:///1?foo=1"));
    assert!(configuration.url_list()[1] == link("mem:///2?foo=2"));
    assert!(configuration.has_url(&link("mem:///2?foo=2")));
    assert!(!configuration.has_url(&link("mem:///2?foo=3")));
    assert!(configuration.has_url_scheme(&link("mem:///other")));
    assert!(!configuration.has_url_scheme(&link("xyz:///1")));
    configuration.add_url_and_loader(link("mem:///1?foo=1"), Scripted::new("bound", "x"));
    assert_eq!(configuration.url_list().len(), 2);
    assert!(configuration.source_list[0].loader.is_none());
}

#[test]
fn the_first_hard_error_ends_the_load() {
    let calls;
    let configuration = {
        let loader = Scripted::new("scripted", "mem");
        calls = loader.calls.clone();
        Configuration::<Scripted, Json>::new()
            .with_loader(loader)
            .with_url(link("mem:///1?foo=1"))
            .unwrap()
            .with_url(link("mem:///hard"))
            .unwrap()
            .with_url(link("mem:///3?foo=3"))
            .unwrap()
    };
    for skip in [true, false] {
        calls.set(0);
        match configuration.load(skip) {
            Err(Error::Load { source: ConfigurationLoadError::NotFound { loader, url } }) => {
                assert_eq!(loader, "scripted");
                assert!(url == link("mem:///hard"));
            }
            other => panic!("{:?}", other.map(|state| names(&state))),
        }
        assert_eq!(calls.get(), 2);
    }
}

#[test]
fn a_soft_error_is_skipped_only_on_request() {
    let configuration = scripted_configuration()
        .with_url(link("mem:///1?foo=1"))
        .unwrap()
        .with_url(link("mem:///soft"))
        .unwrap()
        .with_url(link("mem:///3?foo=3"))
        .unwrap();
    let state = configuration.load(true).unwrap();
    assert_eq!(names(&state), vec![(n("foo"), vec![n("/1"), n("/3")])]);
    match configuration.load(false) {
        Err(Error::Load { source: ConfigurationLoadError::Load { url, skippable, .. } }) => {
            assert!(url == link("mem:///soft"));
            assert!(skippable);
        }
        other => panic!("{:?}", other.map(|state| names(&state))),
    }
    let merged = configuration.load_parse_merge(true).unwrap();
    assert!(merged[0].1 == Value::Int(3));
}

#[test]
fn a_bound_loader_stands_before_the_registered_ones() {
    let mut configuration = scripted_configuration();
    configuration.add_url(link("mem:///1?foo=1")).unwrap();
    configuration.add_url_and_loader(link("mem:///2?foo=2"), Scripted::new("bound", "never"));
    let configuration =
        configuration.with_url_and_loader(link("zzz:///3?foo=3"), Scripted::new("other", "never"));
    let state = configuration.load(false).unwrap();
    assert_eq!(state.len(), 1);
    let loaders: Vec<&String> = state[0].1.iter().map(|e| &e.loader_name).collect();
    assert_eq!(loaders, vec!["scripted", "bound", "other"]);
    assert_eq!(configuration.loader_list[0].item.calls.get(), 1);
}

#[test]
fn the_loader_of_a_source() {
    let loaders = vec![
        Registered { keys: vec![n("mem")], item: Scripted::new("first", "mem") },
        Registered { keys: vec![n("mem"), n("two")], item: Scripted::new("second", "mem") },
    ];
    let plain = Source { url: link("mem:///1"), loader: None };
    assert_eq!(resolve_loader(&plain, &loaders).ok().unwrap().name, "first");
    let second = Source { url: link("two:///1"), loader: None };
    assert_eq!(resolve_loader(&second, &loaders).ok().unwrap().name, "second");
    let bound = Source { url: link("mem:///1"), loader: Some(Scripted::new("bound", "x")) };
    assert_eq!(resolve_loader(&bound, &loaders).ok().unwrap().name, "bound");
    let nobody = Source { url: link("zzz:///1"), loader: None };
    match resolve_loader(&nobody, &loaders) {
        Err(ConfigurationLoadError::LoaderNotFound { scheme, url }) => {
            assert_eq!(scheme, "zzz");
            assert!(url == link("zzz:///1"));
        }
        _ => panic!("a loader was found"),
    }
}

#[test]
fn no_sources_no_configuration() {
    let configuration = scripted_configuration();
    assert!(configuration.load(false).unwrap().is_empty());
    assert!(configuration.load_and_parse(false).unwrap().is_empty());
    assert!(configuration.load_parse_merge(false).unwrap().is_empty());
    let empty: Configuration<Scripted, Json> = Configuration::new();
    assert!(empty.url_list().is_empty());
    assert!(empty.loader_list.is_empty());
    assert!(empty.parser_list.is_empty());
    assert!(!empty.forget_loaded && !empty.forget_parsed);
}

#[test]
fn parse_stage_fails_hard_and_names_the_plugin() {
    let configuration = scripted_configuration()
        .with_url(link("mem:///1?foo=1"))
        .unwrap()
        .with_url(link("mem:///2?foo=[&bar=2"))
        .unwrap();
    for skip in [true, false] {
        match configuration.load_and_parse(skip) {
            Err(Error::Parse {
                plugin_name,
                url,
                source: plugx_config::parser::Error::Parse { data, parser, supported_format_list, .. },
            }) => {
                assert_eq!(plugin_name, "foo");
                assert!(url == link("mem:///2?foo=[&bar=2"));
                assert_eq!(data, "[");
                assert_eq!(parser, "JSON");
                assert_eq!(supported_format_list, vec![n("json")]);
            }
            other => panic!("{:?}", other.map(|state| names(&state))),
        }
        assert!(configuration.load_parse_merge(skip).is_err());
    }
}

#[test]
fn parser_dispatch() {
    let parsers = vec![
        Registered { keys: vec![n("yml"), n("yaml")], item: Closing::Yaml(Yaml::new()) },
        Registered { keys: vec![n("json")], item: Closing::Json(Json::new()) },
    ];
    let url = link("mem:///1");
    let by_format = ConfigurationEntity::new(url.clone(), "foo", "t")
        .with_format("json")
        .with_contents("{\"a\": 1}");
    assert!(by_format.parse_contents(&parsers).unwrap() == map(vec![("a", Value::Int(1))]));
    let unknown = ConfigurationEntity::new(url.clone(), "foo", "t").with_format("ini").with_contents("a=1");
    match unknown.parse_contents(&parsers) {
        Err(plugx_config::parser::Error::ParserNotFound { format }) => {
            assert_eq!(format, Some(n("ini")))
        }
        other => panic!("{other:?}"),
    }
    let sniffed = ConfigurationEntity::new(url.clone(), "foo", "t").with_contents("a: [1, 2]");
    assert!(sniffed.parse_contents(&parsers).unwrap()
        == map(vec![("a", Value::List(vec![Value::Int(1), Value::Int(2)]))]));
    assert_eq!(sniffed.guess_format(&parsers), Some(n("yaml")));
    let json_only = vec![Registered { keys: vec![n("json")], item: Json::new() }];
    match sniffed.parse_contents(&json_only) {
        Err(plugx_config::parser::Error::ParserNotFound { format }) => assert_eq!(format, None),
        other => panic!("{other:?}"),
    }
    assert_eq!(sniffed.guess_format(&json_only), None);
    let empty = ConfigurationEntity::new(url.clone(), "foo", "t");
    assert!(empty.parse_contents(&json_only).unwrap() == Value::new_map());
    assert_eq!(empty.guess_format(&json_only), None);
    let no_parsers: Vec<Registered<Json>> = Vec::new();
    assert!(empty.parse_contents(&no_parsers).unwrap() == Value::new_map());
    assert!(by_format.parse_contents(&no_parsers).is_err());
    let mut entity = by_format.clone();
    entity.parse_contents_mut(&parsers).unwrap();
    assert!(*entity.maybe_parsed_contents().unwrap() == map(vec![("a", Value::Int(1))]));
    let mut entity = unknown.clone();
    assert!(entity.parse_contents_mut(&parsers).is_err());
    assert!(entity.maybe_parsed_contents().is_none());
}

/// Two parsers in one type, for the tests.
enum Closing {
    Json(Json),
    Yaml(Yaml),
}

impl Parser for Closing {
    fn name(&self) -> String {
        match self {
            Closing::Json(p) => p.name(),
            Closing::Yaml(p) => p.name(),
        }
    }

    fn supported_format_list(&self) -> Vec<String> {
        match self {
            Closing::Json(p) => p.supported_format_list(),
            Closing::Yaml(p) => p.supported_format_list(),
        }
    }

    fn try_parse(&self, bytes: &[u8]) -> Result<Value, String> {
        match self {
            Closing::Json(p) => p.try_parse(bytes),
            Closing::Yaml(p) => p.try_parse(bytes),
        }
    }

    fn is_format_supported(&self, bytes: &[u8]) -> Option<bool> {
        match self {
            Closing::Json(p) => p.is_format_supported(bytes),
            Closing::Yaml(p) => p.is_format_supported(bytes),
        }
    }
}

#[test]
fn parse_stage_leaves_parsed_entities_alone() {
    let url = link("mem:///1");
    let parsed_before = ConfigurationEntity::new(url.clone(), "foo", "t")
        .with_format("json")
        .with_contents("[")
        .with_parsed_contents(Value::Int(9));
    let fresh = ConfigurationEntity::new(url.clone(), "foo", "t").with_format("json").with_contents("2");
    let bare = ConfigurationEntity::new(url.clone(), "bar", "t");
    let mut state = vec![(n("foo"), vec![parsed_before, fresh]), (n("bar"), vec![bare])];
    let parsers = vec![Registered { keys: vec![n("json")], item: Json::new() }];
    parse(&mut state, &parsers).unwrap();
    assert!(*state[0].1[0].maybe_parsed_contents().unwrap() == Value::Int(9));
    assert!(*state[0].1[1].maybe_parsed_contents().unwrap() == Value::Int(2));
    assert!(*state[1].1[0].maybe_parsed_contents().unwrap() == Value::new_map());
    assert_eq!(state[0].1[1].maybe_contents(), Some(&n("2")));
}

#[test]
fn merge_passes_over_entities_without_a_parsed_value() {
    let url = link("mem:///1");
    let one =
        ConfigurationEntity::new(url.clone(), "foo", "t").with_parsed_contents(map(vec![("a", Value::Int(1))]));
    let never = ConfigurationEntity::new(url.clone(), "foo", "t").with_contents("{\"a\": 2}");
    let two =
        ConfigurationEntity::new(url.clone(), "foo", "t").with_parsed_contents(map(vec![("b", Value::Int(2))]));
    let state = vec![(n("foo"), vec![one, never, two]), (n("bar"), vec![])];
    let merged = merge(&state).unwrap();
    assert_eq!(merged.len(), 2);
    assert!(merged[0].1 == map(vec![("a", Value::Int(1)), ("b", Value::Int(2))]));
    assert_eq!(merged[1].0, "bar");
    assert!(merged[1].1 == Value::new_map());
}

#[test]
fn forgetting_is_one_way() {
    let mut configuration = scripted_configuration().with_url(link("mem:///1?foo=[1]")).unwrap();
    configuration.set_forget_loaded(true);
    configuration.set_forget_parsed(true);
    let mut state = configuration.load_and_parse(false).unwrap();
    assert!(state[0].1[0].maybe_contents().is_none());
    assert!(*state[0].1[0].maybe_parsed_contents().unwrap() == Value::List(vec![Value::Int(1)]));
    let merged = configuration.merge(&mut state).unwrap();
    assert!(merged[0].1 == Value::List(vec![Value::Int(1)]));
    assert!(state[0].1[0].maybe_parsed_contents().is_none());
    let again = configuration.merge(&mut state).unwrap();
    assert_eq!(again.len(), 1);
    assert_eq!(again[0].0, "foo");
    assert!(again[0].1 == Value::new_map());
    configuration.parse(&mut state).unwrap();
    assert!(*state[0].1[0].maybe_parsed_contents().unwrap() == Value::new_map());
    let whole = configuration.load_parse_merge(false).unwrap();
    assert!(whole[0].1 == Value::List(vec![Value::Int(1)]));
    configuration.set_forget_loaded(false);
    configuration.set_forget_parsed(false);
    let mut state = configuration.load_and_parse(false).unwrap();
    assert_eq!(state[0].1[0].maybe_contents(), Some(&n("[1]")));
    configuration.merge(&mut state).unwrap();
    assert!(state[0].1[0].maybe_parsed_contents().is_some());
    forget_loaded(&mut state);
    assert!(state[0].1[0].maybe_contents().is_none());
    forget_parsed(&mut state);
    assert!(state[0].1[0].maybe_parsed_contents().is_none());
}

#[test]
fn validate_stage() {
    let merged = vec![(n("foo"), Value::Int(1)), (n("bar"), Value::Int(2)), (n("baz"), Value::Int(3))];
    let asked = Rc::new(Cell::new(0));
    let count = asked.clone();
    let check = move |schema: usize, value: &Value, name: &String| -> Result<Value, String> {
        count.set(count.get() + 1);
        match (schema, value) {
            (0, Value::Int(i)) => Ok(Value::Int(i + 10)),
            _ => Err(format!("[{name}] is not what schema {schema} wants")),
        }
    };
    let none: Vec<String> = Vec::new();
    let same = validate(&merged, &none, &check).unwrap();
    assert_eq!(same.len(), 3);
    assert!(same[0].1 == Value::Int(1) && same[1].1 == Value::Int(2) && same[2].1 == Value::Int(3));
    assert_eq!(asked.get(), 0);
    let passing = validate(&merged, &[n("bar"), n("nobody")], &check).unwrap();
    assert_eq!(passing.iter().map(|(name, _)| name.clone()).collect::<Vec<_>>(), vec!["foo", "bar", "baz"]);
    assert!(passing[0].1 == Value::Int(1));
    assert!(passing[1].1 == Value::Int(12));
    assert!(passing[2].1 == Value::Int(3));
    asked.set(0);
    match validate(&merged, &[n("baz"), n("bar"), n("foo")], &check) {
        Err(Error::Validate { plugin_name, source }) => {
            assert_eq!(plugin_name, "foo");
            assert_eq!(source, "[foo] is not what schema 2 wants");
        }
        other => panic!("{other:?}"),
    }
    assert_eq!(asked.get(), 1);
}

#[test]
fn the_whole_pipeline_with_validation() {
    let configuration = scripted_configuration()
        .with_url(link("mem:///1?foo=1&bar=2"))
        .unwrap()
        .with_url(link("mem:///2?bar=3"))
        .unwrap();
    let check = |_schema: usize, value: &Value, _name: &String| -> Result<Value, String> {
        match value {
            Value::Int(3) => Err(n("three is too much")),
            other => Ok(other.clone()),
        }
    };
    let fine = configuration.load_parse_merge_validate(&[n("foo")], &check, false).unwrap();
    assert!(fine[0].1 == Value::Int(1) && fine[1].1 == Value::Int(3));
    match configuration.load_parse_merge_validate(&[n("bar")], &check, true) {
        Err(Error::Validate { plugin_name, source }) => {
            assert_eq!(plugin_name, "bar");
            assert_eq!(source, "three is too much");
        }
        other => panic!("{other:?}"),
    }
}

#[test]
fn removing_sources_loaders_and_parsers() {
    let mut configuration = scripted_configuration();
    configuration.add_loader(Scripted::new("second", "two"));
    configuration.add_boxed_loader(Box::new(Scripted::new("third", "mem")));
    configuration.add_url(link("mem:///1")).unwrap();
    configuration.add_url(link("two:///2")).unwrap();
    configuration.add_url(link("mem:///3")).unwrap();
    assert!(configuration.remove_url(&link("two:///2")));
    assert!(!configuration.remove_url(&link("two:///2")));
    assert_eq!(configuration.url_list().len(), 2);
    configuration.add_url(link("two:///2")).unwrap();
    let removed = configuration.remove_scheme("mem");
    assert_eq!(removed.len(), 2);
    assert!(removed[0] == link("mem:///1") && removed[1] == link("mem:///3"));
    assert_eq!(configuration.url_list().len(), 1);
    assert!(configuration.remove_scheme("mem").is_empty());
    configuration.add_url(link("mem:///4")).unwrap();
    let (loader, urls) = configuration.remove_loader_and_urls("mem").unwrap();
    assert_eq!(loader.name, "scripted");
    assert_eq!(urls.len(), 1);
    assert!(urls[0] == link("mem:///4"));
    assert_eq!(configuration.loader_list.len(), 2);
    assert_eq!(configuration.loader_list[0].item.name, "second");
    assert_eq!(configuration.loader_list[1].item.name, "third");
    assert!(configuration.remove_loader_and_urls("nothing").is_none());
    assert!(configuration.has_parser("JSON"));
    assert!(!configuration.has_parser("yaml"));
    configuration.add_parser(Json::new());
    let configuration = configuration.with_boxed_parser(Box::new(Json::new()));
    let mut configuration = configuration.with_boxed_loader(Box::new(Scripted::new("fourth", "x")));
    configuration.add_boxed_parser(Box::new(Json::new()));
    assert_eq!(configuration.parser_list.len(), 4);
    assert!(configuration.remove_parser("yaml").is_empty());
    assert_eq!(configuration.remove_parser("Json").len(), 4);
    assert!(configuration.parser_list.is_empty());
    assert!(!configuration.has_parser("json"));
}

#[test]
fn scenario_two_sources_for_one_plugin() {
    let load_json = |url: &Url, _whitelist: Option<&[String]>, _skip: bool| -> Result<
        Vec<(String, ConfigurationEntity)>,
        ConfigurationLoadError,
    > {
        let contents = if url.path() == "/one" {
            "{\"a\":1,\"b\":{\"x\":1}}"
        } else {
            "{\"b\":{\"y\":2},\"c\":3}"
        };
        Ok(vec![(
            n("foo"),
            ConfigurationEntity::new(url.clone(), "foo", "memory")
                .with_format("json")
                .with_contents(contents),
        )])
    };
    let mut configuration = Configuration::new();
    configuration.add_loader(plugx_config::loader::closure::ConfigurationLoaderFn::new(
        "memory", load_json, "mem",
    ));
    configuration.add_parser(Json::new());
    configuration.add_url(link("mem:///one")).unwrap();
    configuration.add_url(link("mem:///two")).unwrap();
    let merged = configuration.load_parse_merge(false).unwrap();
    assert_eq!(merged.len(), 1);
    assert_eq!(merged[0].0, "foo");
    assert!(merged[0].1
        == map(vec![
            ("a", Value::Int(1)),
            ("b", map(vec![("x", Value::Int(1)), ("y", Value::Int(2))])),
            ("c", Value::Int(3)),
        ]));
}
