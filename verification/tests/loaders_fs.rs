use plugx_config::entity::ConfigurationEntity;
use plugx_config::loader::fs::ConfigurationLoaderFs;
use plugx_config::loader::fs::ConfigurationLoaderFsOptions;
use plugx_config::loader::fs::DirectoryItem;
use plugx_config::loader::fs::IoErrorKind;
use plugx_config::loader::fs::IoFailure;
use plugx_config::loader::fs::Probe;
use plugx_config::loader::fs::SoftErrorsFs;
use plugx_config::loader::ConfigurationLoadError;
use plugx_config::loader::SoftErrors;
use plugx_config::source::Url;

fn w(text: &str) -> String {
    text.to_string()
}

fn item(path: &str, is_file: bool) -> DirectoryItem {
    DirectoryItem { path: path.to_string(), is_file }
}

fn failure(kind: IoErrorKind) -> IoFailure {
    IoFailure { kind, message: "the system said no".to_string() }
}

fn options_of(url: &str) -> ConfigurationLoaderFsOptions {
    ConfigurationLoaderFs::new().get_options(&Url::parse(url).unwrap()).unwrap()
}

fn directory(items: Vec<DirectoryItem>) -> Probe {
    Probe::Directory { listing: Ok(items) }
}

#[test]
fn plugin_name_and_format_of_a_path() {
    assert_eq!(ConfigurationLoaderFs::get_plugin_name("/etc/app/Foo.JSON"), Some(w("foo")));
    assert_eq!(ConfigurationLoaderFs::get_format("/etc/app/Foo.JSON"), Some(w("json")));
    assert_eq!(
        ConfigurationLoaderFs::get_plugin_name_and_format("/etc/app/Foo.JSON"),
        Some((w("foo"), w("json")))
    );
    assert_eq!(ConfigurationLoaderFs::get_plugin_name_and_format("/etc/app/foo"), None);
    assert_eq!(ConfigurationLoaderFs::get_format("/etc/app/foo"), None);
    assert_eq!(ConfigurationLoaderFs::get_plugin_name("/etc/app/foo"), Some(w("foo")));
    assert_eq!(ConfigurationLoaderFs::get_plugin_name_and_format("/etc/app/.hidden"), None);
    assert_eq!(ConfigurationLoaderFs::get_plugin_name("/"), None);
    assert_eq!(
        ConfigurationLoaderFs::get_plugin_name_and_format("a.b.yml"),
        Some((w("a.b"), w("yml")))
    );
}

#[test]
fn soft_errors_of_io_failures() {
    assert_eq!(SoftErrorsFs::try_from(IoErrorKind::NotFound), Some(SoftErrorsFs::NotFound));
    assert_eq!(
        SoftErrorsFs::try_from(IoErrorKind::PermissionDenied),
        Some(SoftErrorsFs::PermissionDenied)
    );
    assert_eq!(SoftErrorsFs::try_from(IoErrorKind::Other), None);
    let options = ConfigurationLoaderFsOptions {
        strip_slash: None,
        soft_errors: SoftErrors::new_list().with_soft_error(SoftErrorsFs::NotFound),
    };
    assert!(options.contains(IoErrorKind::NotFound));
    assert!(!options.contains(IoErrorKind::PermissionDenied));
    assert!(!options.contains(IoErrorKind::Other));
    let all = ConfigurationLoaderFsOptions { strip_slash: None, soft_errors: SoftErrors::new_all() };
    assert!(all.contains(IoErrorKind::NotFound));
    assert!(all.contains(IoErrorKind::PermissionDenied));
    assert!(!all.contains(IoErrorKind::Other));
    let none = ConfigurationLoaderFsOptions::default();
    assert!(!none.contains(IoErrorKind::NotFound));
    assert!(none.strip_slash.is_none());
}

#[test]
fn fs_options_of_a_source() {
    let options = options_of("file:///etc/app?strip-slash=true&soft-errors=not-found");
    assert_eq!(options.strip_slash, Some(true));
    assert_eq!(options.soft_errors.maybe_soft_error_list(), Some(&vec![SoftErrorsFs::NotFound]));
    let options = options_of("file:///etc/app?soft-errors=permission-denied.not-found&strip-slash=false");
    assert_eq!(options.strip_slash, Some(false));
    assert_eq!(
        options.soft_errors.maybe_soft_error_list(),
        Some(&vec![SoftErrorsFs::PermissionDenied, SoftErrorsFs::NotFound])
    );
    let options = options_of("file:///etc/app?soft-errors=all");
    assert!(options.soft_errors.skip_all());
    let options = options_of("file:///etc/app");
    assert_eq!(options.strip_slash, None);
    assert_eq!(options.soft_errors.maybe_soft_error_list(), Some(&vec![]));
}

#[test]
fn fs_options_refuse_unknown_names() {
    let url = Url::parse("file:///etc/app?soft-errors=not-found.no-such-error").unwrap();
    match ConfigurationLoaderFs::new().get_options(&url) {
        Err(ConfigurationLoadError::InvalidUrl { loader, url: text, .. }) => {
            assert_eq!(loader, "File");
            assert_eq!(text, "file:///etc/app?soft-errors=not-found.no-such-error");
        }
        other => panic!("{other:?}"),
    }
    let url = Url::parse("file:///etc/app?strip-slash=1").unwrap();
    assert!(ConfigurationLoaderFs::new().get_options(&url).is_err());
    assert!(ConfigurationLoaderFs::read_policy("Not-Found").is_none());
    assert!(ConfigurationLoaderFs::read_policy("all").unwrap().skip_all());
}

#[test]
fn fs_soft_errors_of_the_loader_are_added_to_those_of_the_source() {
    let url = Url::parse("file:///etc/app?soft-errors=permission-denied").unwrap();
    let loader = ConfigurationLoaderFs::new().with_soft_error(SoftErrorsFs::NotFound);
    let options = loader.get_options(&url).unwrap();
    assert!(options.contains(IoErrorKind::NotFound));
    assert!(options.contains(IoErrorKind::PermissionDenied));
    assert_eq!(
        options.soft_errors.maybe_soft_error_list(),
        Some(&vec![SoftErrorsFs::PermissionDenied, SoftErrorsFs::NotFound])
    );
    let url = Url::parse("file:///etc/app?soft-errors=all").unwrap();
    assert!(loader.get_options(&url).unwrap().soft_errors.skip_all());
    let mut loader = ConfigurationLoaderFs::new();
    loader.add_soft_error(SoftErrorsFs::PermissionDenied);
    let options = loader.get_options(&Url::parse("file:///etc/app").unwrap()).unwrap();
    assert!(options.contains(IoErrorKind::PermissionDenied));
    assert!(!options.contains(IoErrorKind::NotFound));
}

#[test]
fn fs_path_of_a_source() {
    let plain = options_of("file:///etc/app");
    let strip = options_of("file:///etc/app?strip-slash=true");
    let url = Url::parse("file:///etc//app/./x/").unwrap();
    assert_eq!(ConfigurationLoaderFs::url_to_path(&url, &plain, None), Some(w("/etc/app/x")));
    assert_eq!(ConfigurationLoaderFs::url_to_path(&url, &strip, None), Some(w("etc/app/x")));
    let root = Url::parse("file:///").unwrap();
    assert_eq!(ConfigurationLoaderFs::url_to_path(&root, &plain, Some("/home/me")), Some(w("/home/me")));
    assert_eq!(ConfigurationLoaderFs::url_to_path(&root, &strip, None), None);
}

#[test]
fn fs_directory_listing() {
    let items = vec![
        item("/etc/app/foo.json", true),
        item("/etc/app/README", true),
        item("/etc/app/sub.d", false),
        item("/etc/app/Bar.YAML", true),
        item("/etc/app/qux.toml", true),
    ];
    let files = ConfigurationLoaderFs::get_directory_file_list(&items, None);
    assert_eq!(
        files,
        vec![
            (w("foo"), w("json"), w("/etc/app/foo.json")),
            (w("bar"), w("yaml"), w("/etc/app/Bar.YAML")),
            (w("qux"), w("toml"), w("/etc/app/qux.toml")),
        ]
    );
    let whitelist = vec![w("qux"), w("foo")];
    let files = ConfigurationLoaderFs::get_directory_file_list(&items, Some(&whitelist));
    assert_eq!(
        files,
        vec![
            (w("foo"), w("json"), w("/etc/app/foo.json")),
            (w("qux"), w("toml"), w("/etc/app/qux.toml")),
        ]
    );
}

#[test]
fn fs_entities_of_a_directory() {
    let url = Url::parse("file:///etc/app?strip-slash=false").unwrap();
    let options = options_of("file:///etc/app?strip-slash=false");
    let probe = directory(vec![item("/etc/app/foo.json", true), item("/etc/app/bar.yml", true)]);
    let entities =
        ConfigurationLoaderFs::get_entity_list(&url, &options, None, false, "/etc/app", &probe).unwrap();
    assert_eq!(entities.len(), 2);
    assert_eq!(entities[0].plugin_name(), "foo");
    assert_eq!(entities[0].maybe_format(), Some(&w("json")));
    assert_eq!(entities[0].url().path(), "/etc/app/foo.json");
    assert_eq!(entities[0].url().query(), Some(&w("strip-slash=false")));
    assert_eq!(entities[0].loader_name, "File");
    assert!(entities[0].maybe_contents().is_none());
    assert_eq!(entities[1].plugin_name(), "bar");
    assert_eq!(entities[1].maybe_format(), Some(&w("yml")));
}

#[test]
fn fs_duplicate_is_hard_even_when_soft_errors_are_skipped() {
    let url = Url::parse("file:///etc/app?soft-errors=all").unwrap();
    let options = options_of("file:///etc/app?soft-errors=all");
    let probe = directory(vec![
        item("/etc/app/bar.toml", true),
        item("/etc/app/foo.json", true),
        item("/etc/app/foo.yaml", true),
    ]);
    for skip in [true, false] {
        match ConfigurationLoaderFs::get_entity_list(&url, &options, None, skip, "/etc/app", &probe) {
            Err(ConfigurationLoadError::Duplicate { loader, url: at, plugin, format_1, format_2 }) => {
                assert_eq!(loader, "File");
                assert_eq!(at.path(), "/etc/app");
                assert!(at.query().is_none());
                assert_eq!(plugin, "foo");
                assert_eq!(format_1, "json");
                assert_eq!(format_2, "yaml");
            }
            other => panic!("{other:?}"),
        }
    }
    let error = ConfigurationLoaderFs::get_entity_list(&url, &options, None, true, "/etc/app", &probe)
        .err()
        .unwrap();
    assert!(!error.is_skippable());
    let whitelist = vec![w("bar")];
    let entities = ConfigurationLoaderFs::get_entity_list(
        &url,
        &options,
        Some(&whitelist),
        true,
        "/etc/app",
        &probe,
    )
    .unwrap();
    assert_eq!(entities.len(), 1);
}

#[test]
fn fs_missing_directory_is_skipped_only_under_the_policy() {
    let url = Url::parse("file:///no/such/dir?soft-errors=not-found").unwrap();
    let with_policy = options_of("file:///no/such/dir?soft-errors=not-found");
    let entities = ConfigurationLoaderFs::get_entity_list(
        &url,
        &with_policy,
        None,
        true,
        "/no/such/dir",
        &Probe::Missing,
    )
    .unwrap();
    assert!(entities.is_empty());
    let without_policy = options_of("file:///no/such/dir");
    for (options, skip) in [(&without_policy, true), (&without_policy, false), (&with_policy, false)] {
        match ConfigurationLoaderFs::get_entity_list(
            &url,
            options,
            None,
            skip,
            "/no/such/dir",
            &Probe::Missing,
        ) {
            Err(ConfigurationLoadError::NotFound { loader, url: at }) => {
                assert_eq!(loader, "File");
                assert!(at == url);
            }
            other => panic!("{other:?}"),
        }
    }
    let other_policy = options_of("file:///no/such/dir?soft-errors=permission-denied");
    assert!(ConfigurationLoaderFs::get_entity_list(
        &url,
        &other_policy,
        None,
        true,
        "/no/such/dir",
        &Probe::Missing
    )
    .is_err());
    let all = options_of("file:///no/such/dir?soft-errors=all");
    assert!(ConfigurationLoaderFs::get_entity_list(&url, &all, None, true, "/no/such/dir", &Probe::Missing)
        .unwrap()
        .is_empty());
}

#[test]
fn fs_unreadable_directory() {
    let url = Url::parse("file:///etc/app").unwrap();
    let probe = Probe::Directory { listing: Err(failure(IoErrorKind::PermissionDenied)) };
    let plain = options_of("file:///etc/app");
    match ConfigurationLoaderFs::get_entity_list(&url, &plain, None, true, "/etc/app", &probe) {
        Err(ConfigurationLoadError::Load { loader, url: at, description, source, skippable }) => {
            assert_eq!(loader, "File");
            assert!(at == url);
            assert_eq!(description, "load directory file list");
            assert_eq!(source, "the system said no");
            assert!(!skippable);
        }
        other => panic!("{other:?}"),
    }
    let policy = options_of("file:///etc/app?soft-errors=permission-denied");
    assert!(ConfigurationLoaderFs::get_entity_list(&url, &policy, None, true, "/etc/app", &probe)
        .unwrap()
        .is_empty());
    match ConfigurationLoaderFs::get_entity_list(&url, &policy, None, false, "/etc/app", &probe) {
        Err(error) => assert!(error.is_skippable()),
        other => panic!("{other:?}"),
    }
    let other = Probe::Directory { listing: Err(failure(IoErrorKind::Other)) };
    assert!(ConfigurationLoaderFs::get_entity_list(&url, &policy, None, true, "/etc/app", &other).is_err());
    let all = options_of("file:///etc/app?soft-errors=all");
    assert!(ConfigurationLoaderFs::get_entity_list(&url, &all, None, true, "/etc/app", &other)
        .unwrap()
        .is_empty());
    match ConfigurationLoaderFs::get_entity_list(&url, &all, None, false, "/etc/app", &other) {
        Err(error) => assert!(error.is_skippable()),
        other => panic!("{other:?}"),
    }
}

#[test]
fn fs_single_file() {
    let url = Url::parse("file:///etc/app/Foo.toml").unwrap();
    let options = options_of("file:///etc/app/Foo.toml");
    let entities = ConfigurationLoaderFs::get_entity_list(
        &url,
        &options,
        None,
        false,
        "/etc/app/Foo.toml",
        &Probe::File,
    )
    .unwrap();
    assert_eq!(entities.len(), 1);
    assert_eq!(entities[0].plugin_name(), "foo");
    assert_eq!(entities[0].maybe_format(), Some(&w("toml")));
    assert!(*entities[0].url() == url);
    let whitelist = vec![w("bar")];
    assert!(ConfigurationLoaderFs::get_entity_list(
        &url,
        &options,
        Some(&whitelist),
        false,
        "/etc/app/Foo.toml",
        &Probe::File
    )
    .unwrap()
    .is_empty());
}

#[test]
fn fs_file_without_a_format_and_what_is_no_file() {
    let url = Url::parse("file:///etc/app/foo").unwrap();
    let plain = options_of("file:///etc/app/foo");
    let all = options_of("file:///etc/app/foo?soft-errors=all");
    match ConfigurationLoaderFs::get_entity_list(&url, &plain, None, true, "/etc/app/foo", &Probe::File) {
        Err(ConfigurationLoadError::InvalidUrl { loader, url: text, source }) => {
            assert_eq!(loader, "File");
            assert_eq!(text, "file:///etc/app/foo");
            assert_eq!(source, "Could not parse plugin name/format");
        }
        other => panic!("{other:?}"),
    }
    assert!(ConfigurationLoaderFs::get_entity_list(&url, &all, None, true, "/etc/app/foo", &Probe::File)
        .unwrap()
        .is_empty());
    assert!(ConfigurationLoaderFs::get_entity_list(&url, &all, None, false, "/etc/app/foo", &Probe::File)
        .is_err());
    match ConfigurationLoaderFs::get_entity_list(&url, &plain, None, true, "/etc/app/foo", &Probe::Other) {
        Err(ConfigurationLoadError::InvalidUrl { source, .. }) => {
            assert_eq!(source, "URL is not pointing to a directory or regular file");
        }
        other => panic!("{other:?}"),
    }
    assert!(ConfigurationLoaderFs::get_entity_list(&url, &all, None, true, "/etc/app/foo", &Probe::Other)
        .unwrap()
        .is_empty());
}

#[test]
fn fs_contents_are_given_to_the_entities() {
    let url = Url::parse("file:///etc/app").unwrap();
    let options = options_of("file:///etc/app?soft-errors=not-found");
    let foo = ConfigurationEntity::new(url.clone(), "foo", "File").with_format("json");
    let bar = ConfigurationEntity::new(url.clone(), "bar", "File").with_format("yml");
    let qux = ConfigurationEntity::new(url.clone(), "qux", "File").with_format("toml");
    let reads = vec![
        (foo.clone(), Ok(w("{}"))),
        (bar.clone(), Err(failure(IoErrorKind::NotFound))),
        (qux.clone(), Ok(w("a = 1"))),
    ];
    let loaded = ConfigurationLoaderFs::load(&options, reads, true).unwrap();
    assert_eq!(loaded.len(), 2);
    assert_eq!(loaded[0].0, "foo");
    assert_eq!(loaded[0].1.maybe_contents(), Some(&w("{}")));
    assert_eq!(loaded[1].0, "qux");
    assert_eq!(loaded[1].1.maybe_contents(), Some(&w("a = 1")));
    let reads = vec![
        (foo.clone(), Ok(w("{}"))),
        (bar.clone(), Err(failure(IoErrorKind::NotFound))),
        (qux.clone(), Err(failure(IoErrorKind::PermissionDenied))),
    ];
    match ConfigurationLoaderFs::load(&options, reads, false) {
        Err(ConfigurationLoadError::Load { loader, url: at, description, source, skippable }) => {
            assert_eq!(loader, "File");
            assert!(at == url);
            assert_eq!(description, "read contents of file");
            assert_eq!(source, "the system said no");
            assert!(skippable);
        }
        other => panic!("{other:?}"),
    }
    let reads = vec![(qux.clone(), Err(failure(IoErrorKind::PermissionDenied)))];
    match ConfigurationLoaderFs::load(&options, reads, true) {
        Err(ConfigurationLoadError::Load { skippable, .. }) => assert!(!skippable),
        other => panic!("{other:?}"),
    }
    let mut entity = foo;
    assert!(ConfigurationLoaderFs::read_entity_contents(&mut entity, Ok(w("x"))).is_ok());
    assert_eq!(entity.maybe_contents(), Some(&w("x")));
    let failed =
        ConfigurationLoaderFs::read_entity_contents(&mut entity, Err(failure(IoErrorKind::Other)));
    assert_eq!(failed.err().unwrap().kind, IoErrorKind::Other);
    assert_eq!(entity.maybe_contents(), Some(&w("x")));
}
