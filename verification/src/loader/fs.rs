//! The loader for files and directories: its options, the soft errors it
//! knows, and how a file's name gives a plugin's name and a format.
use crate::entity::ConfigurationEntity;
use crate::entity::EntityView;
use crate::loader::ConfigurationLoadError;
use crate::loader::deserialize_query_string;
use crate::loader::env::field_value;
use crate::loader::env::field;
use crate::loader::env::listed;
use crate::loader::env::switch_of;
use crate::loader::policy_is_all;
use crate::loader::policy_names;
use crate::loader::query_fields;
use crate::loader::query_of;
use crate::loader::soft_error_names;
use crate::loader::SoftErrors;
use crate::source::url_text;
use crate::source::Url;
use crate::source::UrlView;
use crate::text::has_prefix;
use crate::text::holds;
use crate::text::lowercase;
use crate::text::same_text;
use crate::text::starts_with;
use crate::text::to_lowercase;
use vstd::prelude::*;
use vstd::std_specs::cmp::PartialEqSpec;

verus! {

/// The soft errors of the filesystem loader.
#[derive(Debug, Clone, Copy)]
pub enum SoftErrorsFs {
    NotFound,
    PermissionDenied,
}

impl PartialEq for SoftErrorsFs {
    fn eq(&self, other: &Self) -> (same: bool) {
        match self {
            SoftErrorsFs::NotFound => match other {
                SoftErrorsFs::NotFound => true,
                SoftErrorsFs::PermissionDenied => false,
            },
            SoftErrorsFs::PermissionDenied => match other {
                SoftErrorsFs::NotFound => false,
                SoftErrorsFs::PermissionDenied => true,
            },
        }
    }
}

impl vstd::std_specs::cmp::PartialEqSpecImpl for SoftErrorsFs {
    open spec fn obeys_eq_spec() -> bool {
        true
    }

    open spec fn eq_spec(&self, other: &Self) -> bool {
        *self == *other
    }
}

/// The kind of failure that reading a file or a directory gave.
#[derive(Debug, Clone, Copy, PartialEq, Eq, Structural)]
pub enum IoErrorKind {
    NotFound,
    PermissionDenied,
    Other,
}

/// The soft error that a kind of failure stands for, if it stands for one.
pub open spec fn soft_error_of(kind: IoErrorKind) -> Option<SoftErrorsFs> {
    match kind {
        IoErrorKind::NotFound => Some(SoftErrorsFs::NotFound),
        IoErrorKind::PermissionDenied => Some(SoftErrorsFs::PermissionDenied),
        IoErrorKind::Other => None,
    }
}

impl SoftErrorsFs {
    /// The soft error that a kind of failure stands for, if it stands for one.
    pub fn try_from(kind: IoErrorKind) -> (soft_error: Option<SoftErrorsFs>)
        ensures
            soft_error == soft_error_of(kind),
    {
        match kind {
            IoErrorKind::NotFound => Some(SoftErrorsFs::NotFound),
            IoErrorKind::PermissionDenied => Some(SoftErrorsFs::PermissionDenied),
            IoErrorKind::Other => None,
        }
    }
}

/// A failure of reading a file or a directory: its kind, and what the
/// system said.
#[derive(Debug)]
pub struct IoFailure {
    pub kind: IoErrorKind,
    pub message: String,
}

/// One entry of a directory: its path, and whether it is a regular file.
#[derive(Debug)]
pub struct DirectoryItem {
    pub path: String,
    pub is_file: bool,
}

/// What a source's path points to.
#[derive(Debug)]
pub enum Probe {
    /// A directory, with its entries or the failure of reading them.
    Directory { listing: Result<Vec<DirectoryItem>, IoFailure> },
    /// A regular file.
    File,
    /// Something that is neither.
    Other,
    /// Nothing.
    Missing,
}

/// The soft error that a name of a policy text stands for.
pub open spec fn soft_error_named(name: Seq<char>) -> Option<SoftErrorsFs> {
    if name == "not-found"@ {
        Some(SoftErrorsFs::NotFound)
    } else if name == "permission-denied"@ {
        Some(SoftErrorsFs::PermissionDenied)
    } else {
        None
    }
}

/// The soft errors that a list of names stands for, or `None` where a name
/// stands for none.
pub open spec fn soft_errors_named(names: Seq<Seq<char>>) -> Option<Seq<SoftErrorsFs>>
    decreases names.len(),
{
    if names.len() == 0 {
        Some(Seq::<SoftErrorsFs>::empty())
    } else {
        match (soft_errors_named(names.drop_last()), soft_error_named(names.last())) {
            (Some(list), Some(soft_error)) => Some(list.push(soft_error)),
            _ => None,
        }
    }
}

/// The mathematical model of a soft-error policy.
pub enum Policy {
    All,
    List(Seq<SoftErrorsFs>),
}

/// The model of a policy.
pub open spec fn policy_of(soft_errors: SoftErrors<SoftErrorsFs>) -> Policy {
    match soft_errors {
        SoftErrors::All => Policy::All,
        SoftErrors::List(list) => Policy::List(list@),
    }
}

/// The policy that a text asks for: all, where one of its names is `all`,
/// else the soft errors that its names stand for. `None` where a name stands
/// for no soft error.
pub open spec fn policy_asked(text: Seq<char>) -> Option<Policy> {
    if policy_is_all(text) {
        Some(Policy::All)
    } else {
        match soft_errors_named(policy_names(text)) {
            Some(list) => Some(Policy::List(list)),
            None => None,
        }
    }
}

/// Both policies together: all, where one of them is all, else the soft
/// errors of the first followed by those of the second.
pub open spec fn policy_or(first: Policy, second: Policy) -> Policy {
    match (first, second) {
        (Policy::List(a), Policy::List(b)) => Policy::List(a + b),
        _ => Policy::All,
    }
}

/// `true` when the policy skips the soft error.
pub open spec fn policy_skips(policy: Policy, soft_error: SoftErrorsFs) -> bool {
    match policy {
        Policy::All => true,
        Policy::List(list) => list.contains(soft_error),
    }
}

/// `true` when a failure of this kind counts as soft under the policy: the
/// policy skips all, or the kind stands for a soft error that it lists. Such
/// a failure is skipped where soft errors are skipped, and is marked
/// skippable where they are not.
pub open spec fn policy_tolerates(policy: Policy, kind: IoErrorKind) -> bool {
    policy is All || policy_covers(policy, kind)
}

/// `true` when the policy skips a failure of this kind: the kind stands for
/// a soft error that the policy skips.
pub open spec fn policy_covers(policy: Policy, kind: IoErrorKind) -> bool {
    match soft_error_of(kind) {
        Some(soft_error) => policy_skips(policy, soft_error),
        None => false,
    }
}

/// The mathematical model of the options.
pub struct FsSettings {
    pub strip_slash: Option<bool>,
    pub soft_errors: Policy,
}

/// What a source's fields ask for: `strip-slash` and `soft-errors`. `None`
/// where `strip-slash` is neither `true` nor `false`, and where `soft-errors`
/// names something that is no soft error.
pub open spec fn asked_fs_settings(fields: Seq<(Seq<char>, Seq<char>)>) -> Option<FsSettings> {
    let strip_slash = match field_value(fields, "strip-slash"@) {
        Some(text) => match switch_of(text) {
            Some(switch) => Some(Some(switch)),
            None => None,
        },
        None => Some(None),
    };
    let soft_errors = match field_value(fields, "soft-errors"@) {
        Some(text) => policy_asked(text),
        None => Some(Policy::List(Seq::<SoftErrorsFs>::empty())),
    };
    match (strip_slash, soft_errors) {
        (Some(strip_slash), Some(soft_errors)) => Some(FsSettings { strip_slash, soft_errors }),
        _ => None,
    }
}

/// The options of the filesystem loader.
#[derive(Debug)]
pub struct ConfigurationLoaderFsOptions {
    pub strip_slash: Option<bool>,
    pub soft_errors: SoftErrors<SoftErrorsFs>,
}

impl View for ConfigurationLoaderFsOptions {
    type V = FsSettings;

    open spec fn view(&self) -> FsSettings {
        FsSettings { strip_slash: self.strip_slash, soft_errors: policy_of(self.soft_errors) }
    }
}

impl ConfigurationLoaderFsOptions {
    /// `true` when `soft_error` is skipped under these options.
    pub open spec fn skips(&self, soft_error: SoftErrorsFs) -> bool {
        self.soft_errors is All || self.soft_errors->List_0@.contains(soft_error)
    }

    /// `true` when a failure of this kind is a soft error that the options
    /// skip.
    pub fn contains(&self, error: IoErrorKind) -> (skipped: bool)
        ensures
            skipped == match soft_error_of(error) {
                Some(soft_error) => self.skips(soft_error),
                None => false,
            },
    {
        match SoftErrorsFs::try_from(error) {
            Some(soft_error) => {
                let skipped = self.soft_errors.contains(&soft_error);
                proof {
                    if self.soft_errors is List {
                        let list = self.soft_errors->List_0@;
                        if skipped {
                            let i = choose|i: int|
                                0 <= i < list.len() && (#[trigger] list[i]).eq_spec(&soft_error);
                            assert(list[i] == soft_error);
                        } else if list.contains(soft_error) {
                            let i = choose|i: int| 0 <= i < list.len() && list[i] == soft_error;
                            assert(list[i].eq_spec(&soft_error));
                        }
                    }
                }
                skipped
            },
            None => false,
        }
    }
}

impl Default for ConfigurationLoaderFsOptions {
    fn default() -> (options: Self)
        ensures
            options.strip_slash is None,
            options.soft_errors is List,
            options.soft_errors->List_0@ == Seq::<SoftErrorsFs>::empty(),
    {
        ConfigurationLoaderFsOptions { strip_slash: None, soft_errors: SoftErrors::new_list() }
    }
}

/// Loads configurations from files and directories.
#[derive(Debug)]
pub struct ConfigurationLoaderFs {
    options: ConfigurationLoaderFsOptions,
}

/// The part of a path's last component before its extension, as
/// `std::path::Path::file_stem` gives it where the name is valid Unicode.
pub uninterp spec fn path_file_stem(path: Seq<char>) -> Option<Seq<char>>;

/// The extension of a path's last component, as
/// `std::path::Path::extension` gives it where it is valid Unicode.
pub uninterp spec fn path_extension(path: Seq<char>) -> Option<Seq<char>>;

/// `std::path::Path::file_stem` on a path given as text: the stem of the
/// last component, or `None` where the path has none.
#[verifier::external_body]
fn file_stem(path: &str) -> (stem: Option<String>)
    ensures
        stem.deep_view() == path_file_stem(path@),
{
    std::path::Path::new(path).file_stem().and_then(|name| name.to_str()).map(String::from)
}

/// `std::path::Path::extension` on a path given as text: the extension of
/// the last component, or `None` where it has none.
#[verifier::external_body]
fn extension(path: &str) -> (extension: Option<String>)
    ensures
        extension.deep_view() == path_extension(path@),
{
    std::path::Path::new(path).extension().and_then(|name| name.to_str()).map(String::from)
}

/// A path without what `std::path::Path::components` leaves out: repeated
/// separators, single dots within, a separator at the end.
pub uninterp spec fn path_normal(path: Seq<char>) -> Seq<char>;

/// `std::path::Path::components` on a path given as text, its components
/// joined again into one path.
#[verifier::external_body]
fn normalized(path: &str) -> (normal: String)
    ensures
        normal@ == path_normal(path@),
{
    std::path::Path::new(path).components().collect::<std::path::PathBuf>().to_string_lossy()
        .into_owned()
}

/// The lower-case form of a name part, or `None` where it is missing or empty.
pub open spec fn lowered_part(part: Option<Seq<char>>) -> Option<Seq<char>> {
    match part {
        Some(text) => if lowercase(text).len() == 0 {
            None
        } else {
            Some(lowercase(text))
        },
        None => None,
    }
}

/// The plugin's name that a path gives: its file stem in lower case.
pub open spec fn plugin_name_of(path: Seq<char>) -> Option<Seq<char>> {
    lowered_part(path_file_stem(path))
}

/// The format that a path gives: its extension in lower case.
pub open spec fn format_of(path: Seq<char>) -> Option<Seq<char>> {
    lowered_part(path_extension(path))
}

/// The path that a source's locator stands for, before it is normalized: the
/// current directory where the locator's path is `/`; the locator's path
/// without its first slash where the options ask to strip it; else the
/// locator's path. `None` where the current directory is needed and is not
/// known.
pub open spec fn raw_path(url: UrlView, settings: FsSettings, current_dir: Option<Seq<char>>) -> Option<
    Seq<char>,
> {
    if url.path == "/"@ {
        current_dir
    } else if settings.strip_slash == Some(true) && has_prefix(url.path, "/"@) {
        Some(url.path.subrange(1, url.path.len() as int))
    } else {
        Some(url.path)
    }
}

/// What an entry of a directory gives: the plugin's name, the format and the
/// path, where the path gives a name and a format, the whitelist lets the
/// plugin through, and the entry is a regular file.
pub open spec fn file_of(path: Seq<char>, is_file: bool, maybe_whitelist: Option<Seq<Seq<char>>>) -> Option<
    (Seq<char>, Seq<char>, Seq<char>),
> {
    match (plugin_name_of(path), format_of(path)) {
        (Some(plugin), Some(format)) => if listed(maybe_whitelist, plugin) && is_file {
            Some((plugin, format, path))
        } else {
            None
        },
        _ => None,
    }
}

/// The files of a directory that hold configuration, in the order of the
/// directory's entries: see [`file_of`].
pub open spec fn files_of(
    items: Seq<DirectoryItem>,
    maybe_whitelist: Option<Seq<Seq<char>>>,
) -> Seq<(Seq<char>, Seq<char>, Seq<char>)>
    decreases items.len(),
{
    if items.len() == 0 {
        Seq::<(Seq<char>, Seq<char>, Seq<char>)>::empty()
    } else {
        match file_of(items.last().path@, items.last().is_file, maybe_whitelist) {
            Some(file) => files_of(items.drop_last(), maybe_whitelist).push(file),
            None => files_of(items.drop_last(), maybe_whitelist),
        }
    }
}

/// The index of the first file of the plugin, or `-1`.
pub open spec fn file_index(files: Seq<(Seq<char>, Seq<char>, Seq<char>)>, plugin: Seq<char>) -> int
    decreases files.len(),
{
    if files.len() == 0 {
        -1
    } else {
        let before = file_index(files.drop_last(), plugin);
        if before >= 0 {
            before
        } else if files.last().0 == plugin {
            files.len() - 1
        } else {
            -1
        }
    }
}

/// What `file_index` finds: the least index of a file of that plugin.
pub proof fn lemma_file_index(files: Seq<(Seq<char>, Seq<char>, Seq<char>)>, plugin: Seq<char>)
    ensures
        -1 <= file_index(files, plugin) < files.len(),
        file_index(files, plugin) >= 0 ==> files[file_index(files, plugin)].0 == plugin,
        forall|j: int|
            0 <= j < files.len() && (file_index(files, plugin) < 0 || j < file_index(files, plugin))
                ==> (#[trigger] files[j]).0 != plugin,
    decreases files.len(),
{
    if files.len() > 0 {
        lemma_file_index(files.drop_last(), plugin);
        assert forall|j: int|
            0 <= j < files.len() && (file_index(files, plugin) < 0 || j < file_index(files, plugin))
            implies (#[trigger] files[j]).0 != plugin by {
            if j < files.len() - 1 {
                assert(files.drop_last()[j] == files[j]);
            }
        }
    }
}

/// The index of the first file whose plugin has a file before it, or `-1`
/// where every plugin has one file.
pub open spec fn repeat_index(files: Seq<(Seq<char>, Seq<char>, Seq<char>)>) -> int
    decreases files.len(),
{
    if files.len() == 0 {
        -1
    } else {
        let before = repeat_index(files.drop_last());
        if before >= 0 {
            before
        } else if file_index(files.drop_last(), files.last().0) >= 0 {
            files.len() - 1
        } else {
            -1
        }
    }
}

/// The entity of each file: with the loader's name, the source with the
/// file's path in place of its own, the plugin's name and the format.
pub open spec fn file_entities(url: UrlView, files: Seq<(Seq<char>, Seq<char>, Seq<char>)>) -> Seq<
    EntityView,
> {
    Seq::new(
        files.len(),
        |i: int|
            EntityView {
                loader_name: "File"@,
                url: UrlView { path: files[i].2, ..url },
                plugin_name: files[i].0,
                format: Some(files[i].1),
                contents: None,
                parsed: None,
            },
    )
}

/// What the loader finds at a source, before any file is read: the entities,
/// or how it fails. `path` is the path that the source stands for.
pub open spec fn found_entities(
    url: UrlView,
    settings: FsSettings,
    maybe_whitelist: Option<Seq<Seq<char>>>,
    skip_soft_errors: bool,
    path: Seq<char>,
    probe: Probe,
) -> Found {
    match probe {
        Probe::Directory { listing: Err(failure) } => if skip_soft_errors && policy_tolerates(
            settings.soft_errors,
            failure.kind,
        ) {
            Found::Entities(Seq::<EntityView>::empty())
        } else {
            Found::Unreadable(failure)
        },
        Probe::Directory { listing: Ok(items) } => {
            let files = files_of(items@, maybe_whitelist);
            let at = repeat_index(files);
            if at >= 0 {
                Found::Repeated(
                    files[at].0,
                    files[file_index(files, files[at].0)].1,
                    files[at].1,
                )
            } else {
                Found::Entities(file_entities(url, files))
            }
        },
        Probe::File => match (plugin_name_of(path), format_of(path)) {
            (Some(plugin), Some(format)) => if listed(maybe_whitelist, plugin) {
                Found::Entities(
                    seq![
                        EntityView {
                            loader_name: "File"@,
                            url,
                            plugin_name: plugin,
                            format: Some(format),
                            contents: None,
                            parsed: None,
                        },
                    ],
                )
            } else {
                Found::Entities(Seq::<EntityView>::empty())
            },
            _ => if skip_soft_errors && settings.soft_errors is All {
                Found::Entities(Seq::<EntityView>::empty())
            } else {
                Found::Unnamed
            },
        },
        Probe::Other => if skip_soft_errors && settings.soft_errors is All {
            Found::Entities(Seq::<EntityView>::empty())
        } else {
            Found::Unfit
        },
        Probe::Missing => if skip_soft_errors && policy_skips(
            settings.soft_errors,
            SoftErrorsFs::NotFound,
        ) {
            Found::Entities(Seq::<EntityView>::empty())
        } else {
            Found::Absent
        },
    }
}

/// What the loader finds at a source.
pub enum Found {
    /// These entities.
    Entities(Seq<EntityView>),
    /// A directory that cannot be read.
    Unreadable(IoFailure),
    /// A plugin with two files: its name, the format of the first file and
    /// the format of the second.
    Repeated(Seq<char>, Seq<char>, Seq<char>),
    /// A file whose name gives no plugin and format.
    Unnamed,
    /// Something that is neither a directory nor a regular file.
    Unfit,
    /// Nothing.
    Absent,
}

/// `true` when the error is what the loader returns for what it found.
pub open spec fn reports(
    error: ConfigurationLoadError,
    found: Found,
    url: UrlView,
    settings: FsSettings,
) -> bool {
    match (found, error) {
        (
            Found::Unreadable(failure),
            ConfigurationLoadError::Load { loader, url: at, description, source, skippable },
        ) => {
            &&& loader@ == "File"@
            &&& at@ == url
            &&& description@ == "load directory file list"@
            &&& source@ == failure.message@
            &&& skippable == policy_tolerates(settings.soft_errors, failure.kind)
        },
        (
            Found::Repeated(plugin, first, second),
            ConfigurationLoadError::Duplicate { loader, url: at, plugin: named, format_1, format_2 },
        ) => {
            &&& loader@ == "File"@
            &&& at@ == (UrlView { query: None, ..url })
            &&& named@ == plugin
            &&& format_1@ == first
            &&& format_2@ == second
        },
        (Found::Unnamed, ConfigurationLoadError::InvalidUrl { loader, url: text, source }) => {
            &&& loader@ == "File"@
            &&& text@ == url_text(url)
            &&& source@ == "Could not parse plugin name/format"@
        },
        (Found::Unfit, ConfigurationLoadError::InvalidUrl { loader, url: text, source }) => {
            &&& loader@ == "File"@
            &&& text@ == url_text(url)
            &&& source@ == "URL is not pointing to a directory or regular file"@
        },
        (Found::Absent, ConfigurationLoadError::NotFound { loader, url: at }) => {
            &&& loader@ == "File"@
            &&& at@ == url
        },
        _ => false,
    }
}

/// What becomes of the entities once their files are read, in order: an
/// entity gets the contents of its file; an entity whose file cannot be read
/// is left out where the failure is skipped, else the first such failure
/// ends the list.
pub open spec fn read_entities(
    reads: Seq<(ConfigurationEntity, Result<String, IoFailure>)>,
    settings: FsSettings,
    skip_soft_errors: bool,
) -> Result<Seq<(Seq<char>, EntityView)>, int>
    decreases reads.len(),
{
    if reads.len() == 0 {
        Ok(Seq::<(Seq<char>, EntityView)>::empty())
    } else {
        match read_entities(reads.drop_last(), settings, skip_soft_errors) {
            Ok(list) => match reads.last().1 {
                Ok(contents) => Ok(
                    list.push(
                        (
                            reads.last().0@.plugin_name,
                            EntityView { contents: Some(contents@), ..reads.last().0@ },
                        ),
                    ),
                ),
                Err(failure) => if skip_soft_errors && policy_tolerates(
                    settings.soft_errors,
                    failure.kind,
                ) {
                    Ok(list)
                } else {
                    Err(reads.len() - 1)
                },
            },
            Err(at) => Err(at),
        }
    }
}

impl ConfigurationLoaderFs {
    /// The options that hold for one call: what the source asks for, with
    /// the soft errors that this loader skips by itself added. See
    /// [`asked_fs_settings`] and [`policy_or`]. A query that cannot be read
    /// and fields that ask for nothing valid give `InvalidUrl`.
    pub fn get_options(&self, url: &Url) -> (options: Result<
        ConfigurationLoaderFsOptions,
        ConfigurationLoadError,
    >)
        ensures
            match options {
                Ok(settled) => query_fields(query_of(url@)) is Ok && asked_fs_settings(
                    query_fields(query_of(url@))->Ok_0,
                ) is Some && settled@ == ({
                    let asked = asked_fs_settings(query_fields(query_of(url@))->Ok_0)->Some_0;
                    FsSettings {
                        strip_slash: asked.strip_slash,
                        soft_errors: policy_or(asked.soft_errors, policy_of(self.soft_errors())),
                    }
                }),
                Err(error) => match error {
                    ConfigurationLoadError::InvalidUrl { loader, url: text, source } => {
                        &&& loader@ == "File"@
                        &&& text@ == url_text(url@)
                        &&& match query_fields(query_of(url@)) {
                            Ok(fields) => asked_fs_settings(fields) is None,
                            Err(reason) => source@ == reason,
                        }
                    },
                    _ => false,
                },
            },
    {
        let fields = match deserialize_query_string("File", url) {
            Ok(fields) => fields,
            Err(error) => {
                return Err(error);
            },
        };
        let strip_slash = match field(fields.as_slice(), "strip-slash") {
            Some(text) => {
                if same_text(text.as_str(), "true") {
                    Some(true)
                } else if same_text(text.as_str(), "false") {
                    Some(false)
                } else {
                    return Err(
                        ConfigurationLoadError::InvalidUrl {
                            loader: "File".to_owned(),
                            url: url.as_string(),
                            source: "`strip-slash` is neither `true` nor `false`".to_owned(),
                        },
                    );
                }
            },
            None => None,
        };
        let asked = match field(fields.as_slice(), "soft-errors") {
            Some(text) => match Self::read_policy(text.as_str()) {
                Some(policy) => policy,
                None => {
                    return Err(
                        ConfigurationLoadError::InvalidUrl {
                            loader: "File".to_owned(),
                            url: url.as_string(),
                            source: "`soft-errors` names something that is no soft error".to_owned(),
                        },
                    );
                },
            },
            None => SoftErrors::new_list(),
        };
        let soft_errors = match asked {
            SoftErrors::All => SoftErrors::All,
            SoftErrors::List(first) => match &self.options.soft_errors {
                SoftErrors::All => SoftErrors::All,
                SoftErrors::List(second) => {
                    let mut both = first;
                    let ghost start = both@;
                    let mut i: usize = 0;
                    while i < second.len()
                        invariant
                            i <= second@.len(),
                            both@ == start + second@.take(i as int),
                        decreases second@.len() - i,
                    {
                        both.push(second[i]);
                        proof {
                            assert(second@.take(i + 1) =~= second@.take(i as int).push(
                                second@[i as int],
                            ));
                            assert(both@ =~= start + second@.take(i + 1));
                        }
                        i += 1;
                    }
                    proof {
                        assert(second@.take(second@.len() as int) =~= second@);
                    }
                    SoftErrors::List(both)
                },
            },
        };
        Ok(ConfigurationLoaderFsOptions { strip_slash, soft_errors })
    }

    /// Reads a soft-error policy text: see [`policy_asked`].
    #[verifier::loop_isolation(false)]
    pub fn read_policy(text: &str) -> (policy: Option<SoftErrors<SoftErrorsFs>>)
        ensures
            match policy {
                Some(soft_errors) => policy_asked(text@) == Some(policy_of(soft_errors)),
                None => policy_asked(text@) is None,
            },
    {
        match soft_error_names(text) {
            None => Some(SoftErrors::All),
            Some(names) => {
                let ghost all = names.deep_view();
                let mut list: Vec<SoftErrorsFs> = Vec::new();
                let mut i: usize = 0;
                proof {
                    assert(all.take(0) =~= Seq::<Seq<char>>::empty());
                }
                while i < names.len()
                    invariant
                        i <= names@.len(),
                        all == names.deep_view(),
                        soft_errors_named(all.take(i as int)) == Some(list@),
                    decreases names@.len() - i,
                {
                    proof {
                        assert(all.take(i + 1).drop_last() =~= all.take(i as int));
                        assert(all.take(i + 1).last() == names@[i as int]@);
                    }
                    if same_text(names[i].as_str(), "not-found") {
                        list.push(SoftErrorsFs::NotFound);
                    } else if same_text(names[i].as_str(), "permission-denied") {
                        list.push(SoftErrorsFs::PermissionDenied);
                    } else {
                        proof {
                            lemma_soft_errors_unnamed(all, i + 1);
                        }
                        return None;
                    }
                    i += 1;
                }
                proof {
                    assert(all.take(names@.len() as int) =~= all);
                }
                Some(SoftErrors::List(list))
            },
        }
    }

    /// The path that a source stands for: see [`raw_path`], normalized as
    /// [`path_normal`] says. `current_dir` is the current directory, where it
    /// is known.
    pub fn url_to_path(url: &Url, options: &ConfigurationLoaderFsOptions, current_dir: Option<&str>) -> (path:
        Option<String>)
        ensures
            path.deep_view() == match raw_path(url@, options@, current_dir.deep_view()) {
                Some(raw) => Some(path_normal(raw)),
                None => None,
            },
    {
        let strip = match options.strip_slash {
            Some(strip) => strip,
            None => false,
        };
        if same_text(url.path.as_str(), "/") {
            match current_dir {
                Some(directory) => Some(normalized(directory)),
                None => None,
            }
        } else if strip && starts_with(url.path.as_str(), "/") {
            proof {
                reveal_strlit("/");
            }
            let rest = url.path.as_str().substring_char(1, url.path.as_str().unicode_len());
            Some(normalized(rest))
        } else {
            Some(normalized(url.path.as_str()))
        }
    }

    /// The files of a directory that hold configuration: see [`files_of`].
    pub fn get_directory_file_list(items: &[DirectoryItem], maybe_whitelist: Option<&[String]>) -> (files:
        Vec<(String, String, String)>)
        ensures
            files.deep_view() == files_of(items@, maybe_whitelist.deep_view()),
    {
        let ghost whitelist = maybe_whitelist.deep_view();
        let mut files: Vec<(String, String, String)> = Vec::new();
        let mut i: usize = 0;
        proof {
            assert(items@.take(0) =~= Seq::<DirectoryItem>::empty());
            assert(files.deep_view() =~= files_of(items@.take(0), whitelist));
        }
        while i < items.len()
            invariant
                i <= items@.len(),
                whitelist == maybe_whitelist.deep_view(),
                files.deep_view() == files_of(items@.take(i as int), whitelist),
            decreases items@.len() - i,
        {
            let ghost before = files.deep_view();
            proof {
                assert(items@.take(i + 1).drop_last() =~= items@.take(i as int));
                assert(items@.take(i + 1).last() == items@[i as int]);
            }
            match Self::get_plugin_name_and_format(items[i].path.as_str()) {
                Some((plugin, format)) => {
                    let through = match maybe_whitelist {
                        Some(names) => holds(names, &plugin),
                        None => true,
                    };
                    if through && items[i].is_file {
                        files.push((plugin, format, items[i].path.clone()));
                        proof {
                            assert(files.deep_view() =~= before.push(
                                (plugin@, format@, items@[i as int].path@),
                            ));
                        }
                    }
                },
                None => {},
            }
            i += 1;
        }
        proof {
            assert(items@.take(items@.len() as int) =~= items@);
        }
        files
    }

    /// What the loader finds at a source, before any file is read: see
    /// [`found_entities`] and [`reports`]. `path` is the path that the source
    /// stands for, `probe` what it points to.
    #[verifier::loop_isolation(false)]
    pub fn get_entity_list(
        url: &Url,
        options: &ConfigurationLoaderFsOptions,
        maybe_whitelist: Option<&[String]>,
        skip_soft_errors: bool,
        path: &str,
        probe: &Probe,
    ) -> (entities: Result<Vec<ConfigurationEntity>, ConfigurationLoadError>)
        ensures
            match entities {
                Ok(list) => found_entities(
                    url@,
                    options@,
                    maybe_whitelist.deep_view(),
                    skip_soft_errors,
                    path@,
                    *probe,
                ) == Found::Entities(list.deep_view()),
                Err(error) => reports(
                    error,
                    found_entities(
                        url@,
                        options@,
                        maybe_whitelist.deep_view(),
                        skip_soft_errors,
                        path@,
                        *probe,
                    ),
                    url@,
                    options@,
                ),
            },
    {
        let skip_all = skip_soft_errors && options.soft_errors.skip_all();
        let mut entities: Vec<ConfigurationEntity> = Vec::new();
        proof {
            assert(entities.deep_view() =~= Seq::<EntityView>::empty());
        }
        match probe {
            Probe::Directory { listing: Err(failure) } => {
                let tolerated = options.soft_errors.skip_all() || options.contains(failure.kind);
                if skip_soft_errors && tolerated {
                    Ok(entities)
                } else {
                    Err(
                        ConfigurationLoadError::Load {
                            loader: "File".to_owned(),
                            url: url.clone(),
                            description: "load directory file list".to_owned(),
                            source: failure.message.clone(),
                            skippable: tolerated,
                        },
                    )
                }
            },
            Probe::Directory { listing: Ok(items) } => {
                let files = Self::get_directory_file_list(items.as_slice(), maybe_whitelist);
                let ghost all = files.deep_view();
                let mut i: usize = 0;
                proof {
                    assert(all.take(0) =~= Seq::<(Seq<char>, Seq<char>, Seq<char>)>::empty());
                }
                while i < files.len()
                    invariant
                        i <= files@.len(),
                        all == files.deep_view(),
                        repeat_index(all.take(i as int)) < 0,
                        entities@.len() == i,
                        forall|j: int|
                            0 <= j < i ==> (#[trigger] entities@[j])@ == file_entities(url@, all)[j],
                    decreases files@.len() - i,
                {
                    proof {
                        assert(all.take(i + 1).drop_last() =~= all.take(i as int));
                        assert(all.take(i + 1).last() == all[i as int]);
                        assert(all[i as int] == (
                            files@[i as int].0@,
                            files@[i as int].1@,
                            files@[i as int].2@,
                        ));
                    }
                    match find_file(&files, i, &files[i].0) {
                        Some(first) => {
                            let mut at = url.clone();
                            at.set_query(None);
                            proof {
                                lemma_repeat_found(all, i + 1);
                                lemma_file_index_prefix(all, i as int, all[i as int].0);
                            }
                            return Err(
                                ConfigurationLoadError::Duplicate {
                                    loader: "File".to_owned(),
                                    url: at,
                                    plugin: files[i].0.clone(),
                                    format_1: files[first].1.clone(),
                                    format_2: files[i].1.clone(),
                                },
                            );
                        },
                        None => {},
                    }
                    let mut at = url.clone();
                    at.set_path(files[i].2.as_str());
                    entities.push(
                        ConfigurationEntity::new(at, files[i].0.as_str(), "File").with_format(
                            files[i].1.as_str(),
                        ),
                    );
                    i += 1;
                }
                proof {
                    assert(all.take(files@.len() as int) =~= all);
                    assert(entities.deep_view() =~= file_entities(url@, all));
                }
                Ok(entities)
            },
            Probe::File => match Self::get_plugin_name_and_format(path) {
                Some((plugin, format)) => {
                    let through = match maybe_whitelist {
                        Some(names) => holds(names, &plugin),
                        None => true,
                    };
                    if through {
                        let entity = ConfigurationEntity::new(
                            url.clone(),
                            plugin.as_str(),
                            "File",
                        ).with_format(format.as_str());
                        entities.push(entity);
                        proof {
                            assert(entities.deep_view() =~= seq![entity@]);
                        }
                    }
                    Ok(entities)
                },
                None => {
                    if skip_all {
                        Ok(entities)
                    } else {
                        Err(
                            ConfigurationLoadError::InvalidUrl {
                                loader: "File".to_owned(),
                                url: url.as_string(),
                                source: "Could not parse plugin name/format".to_owned(),
                            },
                        )
                    }
                },
            },
            Probe::Other => {
                if skip_all {
                    Ok(entities)
                } else {
                    Err(
                        ConfigurationLoadError::InvalidUrl {
                            loader: "File".to_owned(),
                            url: url.as_string(),
                            source: "URL is not pointing to a directory or regular file".to_owned(),
                        },
                    )
                }
            },
            Probe::Missing => {
                if skip_soft_errors && options.contains(IoErrorKind::NotFound) {
                    Ok(entities)
                } else {
                    Err(ConfigurationLoadError::NotFound { loader: "File".to_owned(), url: url.clone() })
                }
            },
        }
    }

    /// Gives an entity the contents that reading its file gave; a failure is
    /// handed back and leaves the entity as it was.
    pub fn read_entity_contents(entity: &mut ConfigurationEntity, read: Result<String, IoFailure>) -> (done:
        Result<(), IoFailure>)
        ensures
            match read {
                Ok(contents) => done is Ok && final(entity)@ == (EntityView {
                    contents: Some(contents@),
                    ..old(entity)@
                }),
                Err(failure) => done == Err::<(), IoFailure>(failure) && *final(entity) == *old(
                    entity,
                ),
            },
    {
        match read {
            Ok(contents) => {
                entity.set_contents(contents.as_str());
                Ok(())
            },
            Err(failure) => Err(failure),
        }
    }

    /// Gives each entity the contents of its file: see [`read_entities`].
    /// `reads` holds each entity with what reading its file gave. A failure
    /// that is not skipped comes back as a `Load` error that names the
    /// entity's source and tells whether the options count it as soft.
    #[verifier::loop_isolation(false)]
    pub fn load(
        options: &ConfigurationLoaderFsOptions,
        reads: Vec<(ConfigurationEntity, Result<String, IoFailure>)>,
        skip_soft_errors: bool,
    ) -> (loaded: Result<Vec<(String, ConfigurationEntity)>, ConfigurationLoadError>)
        ensures
            match loaded {
                Ok(list) => read_entities(reads@, options@, skip_soft_errors) == Ok::<
                    Seq<(Seq<char>, EntityView)>,
                    int,
                >(list.deep_view()),
                Err(error) => match (read_entities(reads@, options@, skip_soft_errors), error) {
                    (
                        Err(at),
                        ConfigurationLoadError::Load { loader, url, description, source, skippable },
                    ) => {
                        &&& 0 <= at < reads@.len()
                        &&& reads@[at].1 is Err
                        &&& loader@ == "File"@
                        &&& url@ == reads@[at].0@.url
                        &&& description@ == "read contents of file"@
                        &&& source@ == reads@[at].1->Err_0.message@
                        &&& skippable == policy_tolerates(
                            options@.soft_errors,
                            reads@[at].1->Err_0.kind,
                        )
                    },
                    _ => false,
                },
            },
    {
        let mut rest = reads;
        let ghost all = reads@;
        let ghost mut done: Seq<(ConfigurationEntity, Result<String, IoFailure>)> = Seq::empty();
        let mut list: Vec<(String, ConfigurationEntity)> = Vec::new();
        proof {
            assert(list.deep_view() =~= Seq::<(Seq<char>, EntityView)>::empty());
        }
        while rest.len() > 0
            invariant
                done + rest@ == all,
                read_entities(done, options@, skip_soft_errors) == Ok::<
                    Seq<(Seq<char>, EntityView)>,
                    int,
                >(list.deep_view()),
            decreases rest@.len(),
        {
            let ghost before = list.deep_view();
            let item = rest.remove(0);
            proof {
                assert(done.push(item) + rest@ =~= all);
                assert(done.push(item).drop_last() =~= done);
                assert(all[done.len() as int] == item);
            }
            let (entity, read) = item;
            let mut entity = entity;
            match read {
                Ok(contents) => {
                    entity.set_contents(contents.as_str());
                    list.push((entity.plugin_name.clone(), entity));
                    proof {
                        assert(list.deep_view() =~= before.push((entity@.plugin_name, entity@)));
                    }
                },
                Err(failure) => {
                    let tolerated = options.soft_errors.skip_all() || options.contains(
                        failure.kind,
                    );
                    if !(skip_soft_errors && tolerated) {
                        proof {
                            assert(tolerated == policy_tolerates(options@.soft_errors, failure.kind));
                            assert(all.take((done.len() + 1) as int) =~= done.push(item));
                            assert(read_entities(done.push(item), options@, skip_soft_errors) == Err::<
                                Seq<(Seq<char>, EntityView)>,
                                int,
                            >(done.len() as int));
                            lemma_read_entities_failed(
                                all,
                                options@,
                                skip_soft_errors,
                                (done.len() + 1) as int,
                            );
                        }
                        return Err(
                            ConfigurationLoadError::Load {
                                loader: "File".to_owned(),
                                url: entity.url.clone(),
                                description: "read contents of file".to_owned(),
                                source: failure.message,
                                skippable: tolerated,
                            },
                        );
                    }
                },
            }
            proof {
                done = done.push(item);
            }
        }
        proof {
            assert(done =~= done + rest@);
        }
        Ok(list)
    }
}

/// Once a name stands for no soft error, the names after it change nothing.
pub proof fn lemma_soft_errors_unnamed(names: Seq<Seq<char>>, upto: int)
    requires
        0 <= upto <= names.len(),
        soft_errors_named(names.take(upto)) is None,
    ensures
        soft_errors_named(names) is None,
    decreases names.len() - upto,
{
    if upto < names.len() {
        assert(names.take(upto + 1).drop_last() =~= names.take(upto));
        lemma_soft_errors_unnamed(names, upto + 1);
    } else {
        assert(names.take(upto) =~= names);
    }
}

/// A repeat among the first files is the repeat among all.
pub proof fn lemma_repeat_found(files: Seq<(Seq<char>, Seq<char>, Seq<char>)>, upto: int)
    requires
        0 <= upto <= files.len(),
        repeat_index(files.take(upto)) >= 0,
    ensures
        repeat_index(files) == repeat_index(files.take(upto)),
    decreases files.len() - upto,
{
    if upto < files.len() {
        assert(files.take(upto + 1).drop_last() =~= files.take(upto));
        lemma_repeat_found(files, upto + 1);
    } else {
        assert(files.take(upto) =~= files);
    }
}

/// A file that is found among the first files is the one found among all.
pub proof fn lemma_file_index_prefix(
    files: Seq<(Seq<char>, Seq<char>, Seq<char>)>,
    upto: int,
    plugin: Seq<char>,
)
    requires
        0 <= upto <= files.len(),
        file_index(files.take(upto), plugin) >= 0,
    ensures
        file_index(files, plugin) == file_index(files.take(upto), plugin),
    decreases files.len() - upto,
{
    if upto < files.len() {
        assert(files.take(upto + 1).drop_last() =~= files.take(upto));
        lemma_file_index_prefix(files, upto + 1, plugin);
    } else {
        assert(files.take(upto) =~= files);
    }
}

/// Once reading fails, the entities after the failure change nothing.
pub proof fn lemma_read_entities_failed(
    reads: Seq<(ConfigurationEntity, Result<String, IoFailure>)>,
    settings: FsSettings,
    skip_soft_errors: bool,
    upto: int,
)
    requires
        0 <= upto <= reads.len(),
        read_entities(reads.take(upto), settings, skip_soft_errors) is Err,
    ensures
        read_entities(reads, settings, skip_soft_errors) == read_entities(
            reads.take(upto),
            settings,
            skip_soft_errors,
        ),
    decreases reads.len() - upto,
{
    if upto < reads.len() {
        assert(reads.take(upto + 1).drop_last() =~= reads.take(upto));
        lemma_read_entities_failed(reads, settings, skip_soft_errors, upto + 1);
    } else {
        assert(reads.take(upto) =~= reads);
    }
}

/// The index of the first of the files before number `upto` that belongs to
/// `plugin`, if there is one.
fn find_file(files: &Vec<(String, String, String)>, upto: usize, plugin: &String) -> (found: Option<
    usize,
>)
    requires
        upto <= files@.len(),
    ensures
        match found {
            Some(i) => i < upto && file_index(files.deep_view().take(upto as int), plugin@) == i,
            None => file_index(files.deep_view().take(upto as int), plugin@) < 0,
        },
{
    let ghost all = files.deep_view().take(upto as int);
    let mut i: usize = 0;
    while i < upto
        invariant
            i <= upto <= files@.len(),
            all == files.deep_view().take(upto as int),
            forall|j: int| 0 <= j < i ==> (#[trigger] all[j]).0 != plugin@,
        decreases upto - i,
    {
        proof {
            assert(all[i as int] == (files@[i as int].0@, files@[i as int].1@, files@[i as int].2@));
        }
        if files[i].0 == *plugin {
            proof {
                lemma_file_index(all, plugin@);
            }
            return Some(i);
        }
        i += 1;
    }
    proof {
        lemma_file_index(all, plugin@);
    }
    None
}

impl ConfigurationLoaderFs {
    /// The soft errors that this loader skips by itself, whatever a source's
    /// options say.
    pub closed spec fn soft_errors(&self) -> SoftErrors<SoftErrorsFs> {
        self.options.soft_errors
    }

    /// A loader that skips no soft error by itself.
    pub fn new() -> (loader: Self)
        ensures
            loader.soft_errors() is List,
            loader.soft_errors()->List_0@ == Seq::<SoftErrorsFs>::empty(),
    {
        ConfigurationLoaderFs { options: ConfigurationLoaderFsOptions::default() }
    }

    /// The loader's name.
    pub fn name(&self) -> (name: String)
        ensures
            name@ == "File"@,
    {
        "File".to_owned()
    }

    /// The schemes that the loader takes: `fs` and `file`.
    pub fn scheme_list(&self) -> (list: Vec<String>)
        ensures
            list.deep_view() == seq!["fs"@, "file"@],
    {
        let mut list: Vec<String> = Vec::new();
        list.push("fs".to_owned());
        list.push("file".to_owned());
        proof {
            assert(list.deep_view() =~= seq!["fs"@, "file"@]);
        }
        list
    }

    /// Makes the loader skip `error` for every source.
    pub fn add_soft_error(&mut self, error: SoftErrorsFs)
        ensures
            old(self).soft_errors() is All ==> final(self).soft_errors() is All,
            old(self).soft_errors() is List ==> final(self).soft_errors() is List
                && final(self).soft_errors()->List_0@ == old(self).soft_errors()->List_0@.push(
                error,
            ),
    {
        self.options.soft_errors.add_soft_error(error)
    }

    /// The loader that also skips `error` for every source.
    pub fn with_soft_error(self, error: SoftErrorsFs) -> (loader: Self)
        ensures
            self.soft_errors() is All ==> loader.soft_errors() is All,
            self.soft_errors() is List ==> loader.soft_errors() is List
                && loader.soft_errors()->List_0@ == self.soft_errors()->List_0@.push(error),
    {
        let mut loader = self;
        loader.add_soft_error(error);
        loader
    }

    /// The plugin's name that a path gives: its file stem in lower case, if
    /// that is not empty.
    pub fn get_plugin_name(path: &str) -> (name: Option<String>)
        ensures
            name.deep_view() == plugin_name_of(path@),
    {
        match file_stem(path) {
            Some(stem) => {
                let name = to_lowercase(stem.as_str());
                if name.as_str().unicode_len() == 0 {
                    None
                } else {
                    Some(name)
                }
            },
            None => None,
        }
    }

    /// The format that a path gives: its extension in lower case, if that is
    /// not empty.
    pub fn get_format(path: &str) -> (format: Option<String>)
        ensures
            format.deep_view() == format_of(path@),
    {
        match extension(path) {
            Some(extension) => {
                let format = to_lowercase(extension.as_str());
                if format.as_str().unicode_len() == 0 {
                    None
                } else {
                    Some(format)
                }
            },
            None => None,
        }
    }

    /// The plugin's name and the format that a path gives, where it gives
    /// both.
    pub fn get_plugin_name_and_format(path: &str) -> (both: Option<(String, String)>)
        ensures
            both.deep_view() == match (plugin_name_of(path@), format_of(path@)) {
                (Some(name), Some(format)) => Some((name, format)),
                _ => None,
            },
    {
        match Self::get_plugin_name(path) {
            Some(name) => match Self::get_format(path) {
                Some(format) => Some((name, format)),
                None => None,
            },
            None => None,
        }
    }
}

} // verus!
