//! The loader for environment variables: its options, and how a list of
//! variables becomes one entity for each plugin.
use crate::entity::ConfigurationEntity;
use crate::entity::EntityView;
use crate::loader::ConfigurationLoadError;
use crate::loader::deserialize_query_string;
use crate::loader::query_fields;
use crate::loader::query_of;
use crate::source::url_text;
use crate::source::Url;
use crate::source::UrlView;
use crate::text::debug_text;
use crate::text::ends_with;
use crate::text::has_prefix;
use crate::text::has_suffix;
use crate::text::holds;
use crate::text::lowercase;
use crate::text::quoted;
use crate::text::same_text;
use crate::text::split_first;
use crate::text::split_once;
use crate::text::starts_with;
use crate::text::to_lowercase;
use vstd::prelude::*;
use vstd::string::StringExecFns;

pub mod default;

verus! {

/// The options of the loader: the prefix that a variable's name must have,
/// the separator that parts the plugin's name from the rest of the name, and
/// whether the prefix is taken off the name first.
#[derive(Debug)]
pub struct EnvOptions {
    pub prefix: String,
    pub separator: String,
    pub strip_prefix: bool,
}

/// The mathematical model of [`EnvOptions`].
pub struct EnvSettings {
    pub prefix: Seq<char>,
    pub separator: Seq<char>,
    pub strip_prefix: bool,
}

impl View for EnvOptions {
    type V = EnvSettings;

    open spec fn view(&self) -> EnvSettings {
        EnvSettings {
            prefix: self.prefix@,
            separator: self.separator@,
            strip_prefix: self.strip_prefix,
        }
    }
}

impl Default for EnvOptions {
    fn default() -> (options: Self)
        ensures
            options@ == default_settings(),
    {
        EnvOptions {
            prefix: default::prefix(),
            separator: default::separator(),
            strip_prefix: default::strip_prefix(),
        }
    }
}

/// Loads configurations from environment variables.
#[derive(Debug)]
pub struct Env {
    pub options: EnvOptions,
}

impl Default for Env {
    fn default() -> (loader: Self)
        ensures
            loader.options@ == default_settings(),
    {
        Env::new()
    }
}

/// The options that are used where nothing is set.
pub open spec fn default_settings() -> EnvSettings {
    EnvSettings { prefix: "plugx_config__"@, separator: "__"@, strip_prefix: true }
}

/// The text of the first field with this name, if there is one.
pub open spec fn field_value(fields: Seq<(Seq<char>, Seq<char>)>, name: Seq<char>) -> Option<
    Seq<char>,
>
    decreases fields.len(),
{
    if fields.len() == 0 {
        None
    } else {
        match field_value(fields.drop_last(), name) {
            Some(text) => Some(text),
            None => if fields.last().0 == name {
                Some(fields.last().1)
            } else {
                None
            },
        }
    }
}

/// The text of the first field with this name, if there is one.
pub fn field<'a>(fields: &'a [(String, String)], name: &str) -> (found: Option<&'a String>)
    ensures
        found.deep_view() == field_value(fields.deep_view(), name@),
{
    let ghost all = fields.deep_view();
    let wanted = name.to_owned();
    let mut i: usize = 0;
    proof {
        assert(all.take(0) =~= Seq::<(Seq<char>, Seq<char>)>::empty());
    }
    while i < fields.len()
        invariant
            i <= fields@.len(),
            all == fields.deep_view(),
            wanted@ == name@,
            field_value(all.take(i as int), name@) is None,
        decreases fields@.len() - i,
    {
        proof {
            assert(all.take(i + 1).drop_last() =~= all.take(i as int));
            assert(all.take(i + 1).last() == (fields@[i as int].0@, fields@[i as int].1@));
        }
        if fields[i].0 == wanted {
            proof {
                lemma_field_found(all, name@, i + 1);
            }
            return Some(&fields[i].1);
        }
        i += 1;
    }
    proof {
        assert(all.take(fields@.len() as int) =~= all);
    }
    None
}

/// A field that is found among the first fields is found among all.
pub proof fn lemma_field_found(fields: Seq<(Seq<char>, Seq<char>)>, name: Seq<char>, upto: int)
    requires
        0 <= upto <= fields.len(),
        field_value(fields.take(upto), name) is Some,
    ensures
        field_value(fields, name) == field_value(fields.take(upto), name),
    decreases fields.len() - upto,
{
    if upto < fields.len() {
        assert(fields.take(upto + 1).drop_last() =~= fields.take(upto));
        lemma_field_found(fields, name, upto + 1);
    } else {
        assert(fields.take(upto) =~= fields);
    }
}

/// What a field says of a switch: `true`, `false`, or neither.
pub open spec fn switch_of(text: Seq<char>) -> Option<bool> {
    if text == "true"@ {
        Some(true)
    } else if text == "false"@ {
        Some(false)
    } else {
        None
    }
}

/// The options that a source's fields ask for: `prefix`, `separator` and
/// `strip_prefix`, each with its default where the field is missing. `None`
/// where `strip_prefix` is neither `true` nor `false`.
pub open spec fn asked_settings(fields: Seq<(Seq<char>, Seq<char>)>) -> Option<EnvSettings> {
    let strip_prefix = match field_value(fields, "strip_prefix"@) {
        Some(text) => switch_of(text),
        None => Some(true),
    };
    match strip_prefix {
        Some(strip_prefix) => Some(
            EnvSettings {
                prefix: match field_value(fields, "prefix"@) {
                    Some(text) => text,
                    None => default_settings().prefix,
                },
                separator: match field_value(fields, "separator"@) {
                    Some(text) => text,
                    None => default_settings().separator,
                },
                strip_prefix,
            },
        ),
        None => None,
    }
}

/// The options that hold for one call: each option of the loader that is
/// not the default stands, the others are as the source asks; then a prefix
/// that is not empty gets the separator at its end where the separator is
/// not empty and the prefix does not end with it.
pub open spec fn effective_settings(own: EnvSettings, asked: EnvSettings) -> EnvSettings {
    let prefix = if own.prefix != default_settings().prefix {
        own.prefix
    } else {
        asked.prefix
    };
    let separator = if own.separator != default_settings().separator {
        own.separator
    } else {
        asked.separator
    };
    let strip_prefix = if own.strip_prefix != default_settings().strip_prefix {
        own.strip_prefix
    } else {
        asked.strip_prefix
    };
    EnvSettings {
        prefix: if separator.len() > 0 && prefix.len() > 0 && !has_suffix(prefix, separator) {
            prefix + separator
        } else {
            prefix
        },
        separator,
        strip_prefix,
    }
}

/// What one variable gives: the plugin's name and a line `key="value"`. A
/// variable gives nothing where its name lacks the prefix, where nothing is
/// left of the name once the prefix is off, and where the name does not part
/// at the separator into a plugin's name and a key that are both not empty.
pub open spec fn line_of(name: Seq<char>, value: Seq<char>, settings: EnvSettings) -> Option<
    (Seq<char>, Seq<char>),
> {
    if settings.prefix.len() > 0 && !has_prefix(name, settings.prefix) {
        None
    } else {
        let rest = if settings.prefix.len() > 0 && settings.strip_prefix {
            name.subrange(settings.prefix.len() as int, name.len() as int)
        } else {
            name
        };
        match split_first(rest, settings.separator) {
            Some((plugin, key)) => if plugin.len() == 0 || key.len() == 0 {
                None
            } else {
                Some((lowercase(plugin), key + "="@ + debug_text(value)))
            },
            None => None,
        }
    }
}

/// The index of the first group of lines that belongs to `plugin`, or `-1`.
pub open spec fn lines_index(groups: Seq<(Seq<char>, Seq<char>)>, plugin: Seq<char>) -> int
    decreases groups.len(),
{
    if groups.len() == 0 {
        -1
    } else {
        let before = lines_index(groups.drop_last(), plugin);
        if before >= 0 {
            before
        } else if groups.last().0 == plugin {
            groups.len() - 1
        } else {
            -1
        }
    }
}

/// What `lines_index` finds: the least index of a group of that plugin.
pub proof fn lemma_lines_index(groups: Seq<(Seq<char>, Seq<char>)>, plugin: Seq<char>)
    ensures
        -1 <= lines_index(groups, plugin) < groups.len(),
        lines_index(groups, plugin) >= 0 ==> groups[lines_index(groups, plugin)].0 == plugin,
        forall|j: int|
            0 <= j < groups.len() && (lines_index(groups, plugin) < 0 || j < lines_index(
                groups,
                plugin,
            )) ==> (#[trigger] groups[j]).0 != plugin,
    decreases groups.len(),
{
    if groups.len() > 0 {
        lemma_lines_index(groups.drop_last(), plugin);
        assert forall|j: int|
            0 <= j < groups.len() && (lines_index(groups, plugin) < 0 || j < lines_index(
                groups,
                plugin,
            )) implies (#[trigger] groups[j]).0 != plugin by {
            if j < groups.len() - 1 {
                assert(groups.drop_last()[j] == groups[j]);
            }
        }
    }
}

/// `true` when the whitelist lets the plugin through: there is none, or it
/// names the plugin.
pub open spec fn listed(maybe_whitelist: Option<Seq<Seq<char>>>, plugin: Seq<char>) -> bool {
    match maybe_whitelist {
        Some(whitelist) => whitelist.contains(plugin),
        None => true,
    }
}

/// The contents of each plugin that a list of variables gives: the lines of
/// the plugin's variables, in the order of the variables, one below the other;
/// the plugins in the order in which each first occurs. A plugin that the
/// whitelist does not let through is left out.
pub open spec fn contents_of(
    variables: Seq<(Seq<char>, Seq<char>)>,
    settings: EnvSettings,
    maybe_whitelist: Option<Seq<Seq<char>>>,
) -> Seq<(Seq<char>, Seq<char>)>
    decreases variables.len(),
{
    if variables.len() == 0 {
        Seq::<(Seq<char>, Seq<char>)>::empty()
    } else {
        let before = contents_of(variables.drop_last(), settings, maybe_whitelist);
        match line_of(variables.last().0, variables.last().1, settings) {
            Some((plugin, line)) => if listed(maybe_whitelist, plugin) {
                let at = lines_index(before, plugin);
                if at >= 0 {
                    before.update(at, (plugin, before[at].1 + "\n"@ + line))
                } else {
                    before.push((plugin, line))
                }
            } else {
                before
            },
            None => before,
        }
    }
}

/// The entities that the contents of each plugin make: each with the loader's
/// name, the source, the plugin's name, the format `env` and the contents.
pub open spec fn entities_of(url: UrlView, contents: Seq<(Seq<char>, Seq<char>)>) -> Seq<
    (Seq<char>, EntityView),
> {
    Seq::new(
        contents.len(),
        |i: int|
            (
                contents[i].0,
                EntityView {
                    loader_name: "Environment-Variables"@,
                    url,
                    plugin_name: contents[i].0,
                    format: Some("env"@),
                    contents: Some(contents[i].1),
                    parsed: None,
                },
            ),
    )
}

/// Every plugin of the contents is one that the whitelist lets through.
pub proof fn lemma_contents_listed(
    variables: Seq<(Seq<char>, Seq<char>)>,
    settings: EnvSettings,
    maybe_whitelist: Option<Seq<Seq<char>>>,
)
    ensures
        forall|i: int|
            0 <= i < contents_of(variables, settings, maybe_whitelist).len() ==> listed(
                maybe_whitelist,
                (#[trigger] contents_of(variables, settings, maybe_whitelist)[i]).0,
            ),
    decreases variables.len(),
{
    if variables.len() > 0 {
        lemma_contents_listed(variables.drop_last(), settings, maybe_whitelist);
        let before = contents_of(variables.drop_last(), settings, maybe_whitelist);
        match line_of(variables.last().0, variables.last().1, settings) {
            Some((plugin, line)) => {
                lemma_lines_index(before, plugin);
            },
            None => {},
        }
    }
}

impl Env {
    /// A loader with the default prefix, separator and stripping.
    pub fn new() -> (loader: Self)
        ensures
            loader.options@ == default_settings(),
    {
        Env { options: EnvOptions::default() }
    }

    /// Only variables whose name has this prefix are loaded.
    pub fn set_prefix(&mut self, prefix: &str)
        ensures
            final(self).options@ == (EnvSettings { prefix: prefix@, ..old(self).options@ }),
    {
        self.options.prefix = prefix.to_owned();
    }

    /// The loader with the prefix set.
    pub fn with_prefix(self, prefix: &str) -> (loader: Self)
        ensures
            loader.options@ == (EnvSettings { prefix: prefix@, ..self.options@ }),
    {
        let mut loader = self;
        loader.set_prefix(prefix);
        loader
    }

    /// Parts a plugin's name from the rest of a variable's name.
    pub fn set_separator(&mut self, separator: &str)
        ensures
            final(self).options@ == (EnvSettings { separator: separator@, ..old(self).options@ }),
    {
        self.options.separator = separator.to_owned();
    }

    /// The loader with the separator set.
    pub fn with_separator(self, separator: &str) -> (loader: Self)
        ensures
            loader.options@ == (EnvSettings { separator: separator@, ..self.options@ }),
    {
        let mut loader = self;
        loader.set_separator(separator);
        loader
    }

    /// Whether the prefix is taken off a name before the plugin's name is
    /// read.
    pub fn set_strip_prefix(&mut self, strip_prefix: bool)
        ensures
            final(self).options@ == (EnvSettings { strip_prefix, ..old(self).options@ }),
    {
        self.options.strip_prefix = strip_prefix;
    }

    /// The loader with the stripping set.
    pub fn with_strip_prefix(self, strip_prefix: bool) -> (loader: Self)
        ensures
            loader.options@ == (EnvSettings { strip_prefix, ..self.options@ }),
    {
        let mut loader = self;
        loader.set_strip_prefix(strip_prefix);
        loader
    }

    /// The loader's name.
    pub fn name(&self) -> (name: String)
        ensures
            name@ == "Environment-Variables"@,
    {
        "Environment-Variables".to_owned()
    }

    /// The schemes that the loader takes: `env`.
    pub fn scheme_list(&self) -> (list: Vec<String>)
        ensures
            list.deep_view() == seq!["env"@],
    {
        let mut list: Vec<String> = Vec::new();
        list.push("env".to_owned());
        proof {
            assert(list.deep_view() =~= seq!["env"@]);
        }
        list
    }

    /// The options that a source asks for: see [`asked_settings`]. A query
    /// that cannot be read, and a `strip_prefix` that is neither `true` nor
    /// `false`, give `InvalidUrl`.
    pub fn get_options(&self, url: &Url) -> (options: Result<EnvOptions, ConfigurationLoadError>)
        ensures
            match options {
                Ok(asked) => query_fields(query_of(url@)) is Ok && asked_settings(
                    query_fields(query_of(url@))->Ok_0,
                ) == Some(asked@),
                Err(error) => match error {
                    ConfigurationLoadError::InvalidUrl { loader, url: text, source } => {
                        &&& loader@ == "Environment-Variables"@
                        &&& text@ == url_text(url@)
                        &&& match query_fields(query_of(url@)) {
                            Ok(fields) => asked_settings(fields) is None,
                            Err(reason) => source@ == reason,
                        }
                    },
                    _ => false,
                },
            },
    {
        let fields = match deserialize_query_string("Environment-Variables", url) {
            Ok(fields) => fields,
            Err(error) => {
                return Err(error);
            },
        };
        let strip_prefix = match field(fields.as_slice(), "strip_prefix") {
            Some(text) => {
                if same_text(text.as_str(), "true") {
                    true
                } else if same_text(text.as_str(), "false") {
                    false
                } else {
                    return Err(
                        ConfigurationLoadError::InvalidUrl {
                            loader: "Environment-Variables".to_owned(),
                            url: url.as_string(),
                            source: "`strip_prefix` is neither `true` nor `false`".to_owned(),
                        },
                    );
                }
            },
            None => true,
        };
        let prefix = match field(fields.as_slice(), "prefix") {
            Some(text) => text.clone(),
            None => default::prefix(),
        };
        let separator = match field(fields.as_slice(), "separator") {
            Some(text) => text.clone(),
            None => default::separator(),
        };
        Ok(EnvOptions { prefix, separator, strip_prefix })
    }

    /// The options that hold for one call: see [`effective_settings`].
    pub fn settle_options(&self, asked: EnvOptions) -> (options: EnvOptions)
        ensures
            options@ == effective_settings(self.options@, asked@),
    {
        let default_prefix = default::prefix();
        let default_separator = default::separator();
        let mut prefix = if self.options.prefix != default_prefix {
            self.options.prefix.clone()
        } else {
            asked.prefix
        };
        let separator = if self.options.separator != default_separator {
            self.options.separator.clone()
        } else {
            asked.separator
        };
        let strip_prefix = if self.options.strip_prefix != default::strip_prefix() {
            self.options.strip_prefix
        } else {
            asked.strip_prefix
        };
        if separator.as_str().unicode_len() > 0 && prefix.as_str().unicode_len() > 0 && !ends_with(
            prefix.as_str(),
            separator.as_str(),
        ) {
            prefix.append(separator.as_str());
        }
        EnvOptions { prefix, separator, strip_prefix }
    }

    /// What one variable gives: see [`line_of`].
    pub fn read_variable(name: &String, value: &String, options: &EnvOptions) -> (line: Option<
        (String, String),
    >)
        ensures
            line.deep_view() == line_of(name@, value@, options@),
    {
        let with_prefix = options.prefix.as_str().unicode_len() > 0;
        if with_prefix && !starts_with(name.as_str(), options.prefix.as_str()) {
            return None;
        }
        let rest = if with_prefix && options.strip_prefix {
            name.as_str().substring_char(
                options.prefix.as_str().unicode_len(),
                name.as_str().unicode_len(),
            ).to_owned()
        } else {
            name.clone()
        };
        match split_once(rest.as_str(), options.separator.as_str()) {
            Some((plugin, key)) => {
                if plugin.as_str().unicode_len() == 0 || key.as_str().unicode_len() == 0 {
                    None
                } else {
                    let mut line = key;
                    line.append("=");
                    line.append(quoted(value.as_str()).as_str());
                    Some((to_lowercase(plugin.as_str()), line))
                }
            },
            None => None,
        }
    }

    /// Loads what the variables hold for each plugin: one entity for each
    /// plugin that the whitelist lets through, with the format `env` and the
    /// plugin's lines as contents. See [`contents_of`]. The only failure is a
    /// source whose options cannot be read: see [`Self::get_options`].
    pub fn load(
        &self,
        url: &Url,
        variables: &[(String, String)],
        maybe_whitelist: Option<&[String]>,
        _skip_soft_errors: bool,
    ) -> (loaded: Result<Vec<(String, ConfigurationEntity)>, ConfigurationLoadError>)
        ensures
            match loaded {
                Ok(list) => query_fields(query_of(url@)) is Ok && asked_settings(
                    query_fields(query_of(url@))->Ok_0,
                ) is Some && list.deep_view() == entities_of(
                    url@,
                    contents_of(
                        variables.deep_view(),
                        effective_settings(
                            self.options@,
                            asked_settings(query_fields(query_of(url@))->Ok_0)->Some_0,
                        ),
                        maybe_whitelist.deep_view(),
                    ),
                ) && forall|i: int|
                    0 <= i < list@.len() ==> listed(
                        maybe_whitelist.deep_view(),
                        (#[trigger] list@[i]).0@,
                    ),
                Err(error) => match error {
                    ConfigurationLoadError::InvalidUrl { .. } => match query_fields(
                        query_of(url@),
                    ) {
                        Ok(fields) => asked_settings(fields) is None,
                        Err(_) => true,
                    },
                    _ => false,
                },
            },
    {
        let asked = match self.get_options(url) {
            Ok(asked) => asked,
            Err(error) => {
                return Err(error);
            },
        };
        let options = self.settle_options(asked);
        let ghost all = variables.deep_view();
        let ghost whitelist = maybe_whitelist.deep_view();
        let mut result: Vec<(String, String)> = Vec::new();
        let mut i: usize = 0;
        proof {
            assert(all.take(0) =~= Seq::<(Seq<char>, Seq<char>)>::empty());
            assert(result.deep_view() =~= contents_of(all.take(0), options@, whitelist));
        }
        while i < variables.len()
            invariant
                i <= variables@.len(),
                all == variables.deep_view(),
                whitelist == maybe_whitelist.deep_view(),
                result.deep_view() == contents_of(all.take(i as int), options@, whitelist),
            decreases variables@.len() - i,
        {
            let ghost before = result.deep_view();
            proof {
                assert(all.take(i + 1).drop_last() =~= all.take(i as int));
                assert(all.take(i + 1).last() == (variables@[i as int].0@, variables@[i as int].1@));
            }
            match Self::read_variable(&variables[i].0, &variables[i].1, &options) {
                Some((plugin, line)) => {
                    let through = match maybe_whitelist {
                        Some(names) => holds(names, &plugin),
                        None => true,
                    };
                    if through {
                        match find_lines(&result, &plugin) {
                            Some(at) => {
                                result[at].1.append("\n");
                                result[at].1.append(line.as_str());
                                proof {
                                    assert(result.deep_view() =~= before.update(
                                        at as int,
                                        (plugin@, before[at as int].1 + "\n"@ + line@),
                                    ));
                                }
                            },
                            None => {
                                result.push((plugin, line));
                                proof {
                                    assert(result.deep_view() =~= before.push((plugin@, line@)));
                                }
                            },
                        }
                    }
                },
                None => {},
            }
            i += 1;
        }
        proof {
            assert(all.take(variables@.len() as int) =~= all);
            lemma_contents_listed(all, options@, whitelist);
        }
        let ghost contents = result.deep_view();
        let mut list: Vec<(String, ConfigurationEntity)> = Vec::new();
        let mut j: usize = 0;
        while j < result.len()
            invariant
                j <= result@.len(),
                contents == result.deep_view(),
                list@.len() == j,
                forall|k: int|
                    0 <= k < j ==> (#[trigger] list@[k]).deep_view() == entities_of(url@, contents)[k],
            decreases result@.len() - j,
        {
            let entity = ConfigurationEntity::new(
                url.clone(),
                result[j].0.as_str(),
                "Environment-Variables",
            ).with_format("env").with_contents(result[j].1.as_str());
            proof {
                assert(contents[j as int] == (result@[j as int].0@, result@[j as int].1@));
            }
            list.push((result[j].0.clone(), entity));
            j += 1;
        }
        proof {
            assert(list.deep_view() =~= entities_of(url@, contents));
            assert forall|k: int| 0 <= k < list@.len() implies listed(
                whitelist,
                (#[trigger] list@[k]).0@,
            ) by {
                assert(list@[k].deep_view() == entities_of(url@, contents)[k]);
                assert(listed(whitelist, contents[k].0));
            }
        }
        Ok(list)
    }
}

/// The index of the first group of lines that belongs to `plugin`, if there
/// is one.
fn find_lines(groups: &Vec<(String, String)>, plugin: &String) -> (found: Option<usize>)
    ensures
        match found {
            Some(i) => i < groups@.len() && lines_index(groups.deep_view(), plugin@) == i
                && groups@[i as int].0@ == plugin@,
            None => lines_index(groups.deep_view(), plugin@) < 0,
        },
{
    let ghost all = groups.deep_view();
    let mut i: usize = 0;
    while i < groups.len()
        invariant
            i <= groups@.len(),
            all == groups.deep_view(),
            forall|j: int| 0 <= j < i ==> (#[trigger] all[j]).0 != plugin@,
        decreases groups@.len() - i,
    {
        proof {
            assert(all[i as int] == (groups@[i as int].0@, groups@[i as int].1@));
        }
        if groups[i].0 == *plugin {
            proof {
                lemma_lines_index(all, plugin@);
            }
            return Some(i);
        }
        i += 1;
    }
    proof {
        lemma_lines_index(all, plugin@);
    }
    None
}

} // verus!
