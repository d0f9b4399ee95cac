//! Loading: the soft-error policy that a source's options carry, and the
//! loaders themselves.
use crate::entity::ConfigurationEntity;
use crate::source::Url;
use crate::text::holds;
use crate::text::split_text;
use crate::text::split;
use vstd::prelude::*;
use vstd::std_specs::cmp::PartialEqSpec;

pub mod closure;
pub mod env;
pub mod fs;

verus! {

/// Why a source could not be loaded.
#[derive(Debug)]
#[allow(inconsistent_fields)]
pub enum ConfigurationLoadError {
    /// The source does not exist.
    NotFound { loader: String, url: Url },
    /// The source may not be read.
    NoAccess { loader: String, url: Url },
    /// The source did not answer in time.
    Timeout { loader: String, url: Url, timeout_in_seconds: usize },
    /// The source's locator or its options are not valid.
    InvalidUrl { loader: String, url: String, source: String },
    /// One source holds a plugin's configuration in two formats.
    Duplicate { loader: String, url: Url, plugin: String, format_1: String, format_2: String },
    /// Loading failed; `skippable` says whether the loader counts this as a
    /// soft error.
    Load { loader: String, url: Url, description: String, source: String, skippable: bool },
    /// No loader takes the source's scheme.
    LoaderNotFound { scheme: String, url: Url },
    /// The loader is in use by another call.
    AcquireLock { loader: String, url: Url },
    /// Anything else.
    Other(String),
}

impl ConfigurationLoadError {
    /// `true` for an error that reports itself as soft: a `Load` error marked
    /// skippable. Every other error is hard.
    pub open spec fn skippable(&self) -> bool {
        match self {
            ConfigurationLoadError::Load { skippable, .. } => *skippable,
            _ => false,
        }
    }

    /// Whether the error reports itself as soft: see [`Self::skippable`].
    pub fn is_skippable(&self) -> (soft: bool)
        ensures
            soft == self.skippable(),
    {
        match self {
            ConfigurationLoadError::Load { skippable, .. } => *skippable,
            _ => false,
        }
    }
}

/// Loads configurations for one or more plugins from a source.
///
/// A loader leaves out the plugins that a whitelist does not name, gives each
/// plugin's name in lower case, sets an entity's format where the source shows
/// it, and returns an empty list in place of a soft error that its options and
/// `skip_soft_errors` allow it to skip.
pub trait ConfigurationLoader {
    /// The loader's name, for messages.
    fn name(&self) -> String;

    /// The schemes of the sources that this loader takes.
    fn scheme_list(&self) -> Vec<String>;

    /// Loads what the source holds, each entity with its plugin's name.
    fn load(
        &self,
        url: &Url,
        maybe_whitelist: Option<&[String]>,
        skip_soft_errors: bool,
    ) -> Result<Vec<(String, ConfigurationEntity)>, ConfigurationLoadError>;
}

/// The fields that `serde_qs` reads from a query, ordered by key, or the text
/// of its error.
pub uninterp spec fn query_fields(query: Seq<char>) -> Result<
    Seq<(Seq<char>, Seq<char>)>,
    Seq<char>,
>;

/// `serde_qs::from_str` into a map from field names to texts, handed out in
/// the order of the names.
#[verifier::external_body]
fn read_query(query: &str) -> (fields: Result<Vec<(String, String)>, String>)
    ensures
        match fields {
            Ok(list) => query_fields(query@) == Ok::<Seq<(Seq<char>, Seq<char>)>, Seq<char>>(
                list.deep_view(),
            ),
            Err(error) => query_fields(query@) == Err::<Seq<(Seq<char>, Seq<char>)>, Seq<char>>(
                error@,
            ),
        },
{
    serde_qs::from_str::<std::collections::BTreeMap<String, String>>(query).map(
        |fields| fields.into_iter().collect(),
    ).map_err(|error| error.to_string())
}

/// The query of a locator, empty where it has none.
pub open spec fn query_of(url: crate::source::UrlView) -> Seq<char> {
    match url.query {
        Some(query) => query,
        None => Seq::<char>::empty(),
    }
}

/// Reads the options that a source's query carries, as fields ordered by
/// name. A query that cannot be read gives `InvalidUrl` with the loader's
/// name, the locator's written form and the reason.
pub fn deserialize_query_string(loader_name: &str, url: &Url) -> (fields: Result<
    Vec<(String, String)>,
    ConfigurationLoadError,
>)
    ensures
        match fields {
            Ok(list) => query_fields(query_of(url@)) == Ok::<
                Seq<(Seq<char>, Seq<char>)>,
                Seq<char>,
            >(list.deep_view()),
            Err(error) => match error {
                ConfigurationLoadError::InvalidUrl { loader, url: text, source } => {
                    &&& loader@ == loader_name@
                    &&& text@ == crate::source::url_text(url@)
                    &&& query_fields(query_of(url@)) == Err::<
                        Seq<(Seq<char>, Seq<char>)>,
                        Seq<char>,
                    >(source@)
                },
                _ => false,
            },
        },
{
    let outcome = match &url.query {
        Some(query) => read_query(query.as_str()),
        None => read_query(""),
    };
    proof {
        reveal_strlit("");
        assert(""@ =~= Seq::<char>::empty());
    }
    match outcome {
        Ok(list) => Ok(list),
        Err(source) => Err(
            ConfigurationLoadError::InvalidUrl {
                loader: loader_name.to_owned(),
                url: url.as_string(),
                source,
            },
        ),
    }
}

/// The texts of `parts` that are not empty, in order.
pub open spec fn without_empty(parts: Seq<Seq<char>>) -> Seq<Seq<char>>
    decreases parts.len(),
{
    if parts.len() == 0 {
        Seq::<Seq<char>>::empty()
    } else if parts.last().len() > 0 {
        without_empty(parts.drop_last()).push(parts.last())
    } else {
        without_empty(parts.drop_last())
    }
}

/// The names that a policy text lists: its pieces between dots, without the
/// empty ones.
pub open spec fn policy_names(text: Seq<char>) -> Seq<Seq<char>> {
    without_empty(split(text, "."@))
}

/// `true` when a policy text asks to skip every soft error: one of its names
/// is `all`.
pub open spec fn policy_is_all(text: Seq<char>) -> bool {
    split(text, "."@).contains("all"@)
}

/// Reads a soft-error policy text: `None` where it asks to skip every soft
/// error, else the names that it lists, in order.
pub fn soft_error_names(text: &str) -> (names: Option<Vec<String>>)
    ensures
        match names {
            Some(list) => !policy_is_all(text@) && list.deep_view() == policy_names(text@),
            None => policy_is_all(text@),
        },
{
    let parts = split_text(text, ".");
    let all = "all".to_owned();
    if holds(parts.as_slice(), &all) {
        return None;
    }
    let ghost all_parts = parts.deep_view();
    let mut names: Vec<String> = Vec::new();
    let mut i: usize = 0;
    proof {
        assert(all_parts.take(0) =~= Seq::<Seq<char>>::empty());
        assert(names.deep_view() =~= without_empty(all_parts.take(0)));
    }
    while i < parts.len()
        invariant
            i <= parts@.len(),
            all_parts == parts.deep_view(),
            names.deep_view() == without_empty(all_parts.take(i as int)),
        decreases parts@.len() - i,
    {
        let ghost before = names.deep_view();
        proof {
            assert(all_parts.take(i + 1).drop_last() =~= all_parts.take(i as int));
            assert(all_parts.take(i + 1).last() == parts@[i as int]@);
        }
        if parts[i].as_str().unicode_len() > 0 {
            names.push(parts[i].clone());
            proof {
                assert(names.deep_view() =~= before.push(parts@[i as int]@));
            }
        }
        i += 1;
    }
    proof {
        assert(all_parts.take(parts@.len() as int) =~= all_parts);
    }
    Some(names)
}

/// Which soft errors a loader may skip: all of them, or the listed ones.
#[derive(Debug)]
pub enum SoftErrors<T> {
    All,
    List(Vec<T>),
}

impl<T> SoftErrors<T> {
    /// The policy that skips every soft error.
    pub fn new_all() -> (policy: Self)
        ensures
            policy is All,
    {
        SoftErrors::All
    }

    /// The policy that skips nothing yet: an empty list.
    pub fn new_list() -> (policy: Self)
        ensures
            policy is List,
            policy->List_0@ == Seq::<T>::empty(),
    {
        SoftErrors::List(Vec::new())
    }

    /// `true` when every soft error is skipped.
    pub fn skip_all(&self) -> (all: bool)
        ensures
            all == (self is All),
    {
        match self {
            SoftErrors::All => true,
            SoftErrors::List(_) => false,
        }
    }

    /// Adds one soft error to a list; a policy that skips all stays as it is.
    pub fn add_soft_error(&mut self, soft_error: T)
        ensures
            *old(self) is All ==> *final(self) is All,
            *old(self) is List ==> *final(self) is List && (*final(self))->List_0@ == (*old(
                self,
            ))->List_0@.push(soft_error),
    {
        match self {
            SoftErrors::List(soft_errors) => {
                soft_errors.push(soft_error);
            },
            SoftErrors::All => {},
        }
    }

    /// The policy with one more soft error listed: see [`Self::add_soft_error`].
    pub fn with_soft_error(self, soft_error: T) -> (policy: Self)
        ensures
            self is All ==> policy is All,
            self is List ==> policy is List && policy->List_0@ == self->List_0@.push(soft_error),
    {
        let mut policy = self;
        policy.add_soft_error(soft_error);
        policy
    }

    /// The listed soft errors, or `None` for the policy that skips all.
    pub fn maybe_soft_error_list(&self) -> (list: Option<&Vec<T>>)
        ensures
            match list {
                Some(soft_errors) => self is List && *soft_errors == self->List_0,
                None => self is All,
            },
    {
        match self {
            SoftErrors::List(soft_errors) => Some(soft_errors),
            SoftErrors::All => None,
        }
    }

    /// The listed soft errors, open to change, or `None` for the policy that
    /// skips all.
    pub fn maybe_soft_error_list_mut(&mut self) -> (list: Option<&mut Vec<T>>)
        ensures
            match list {
                Some(soft_errors) => *old(self) is List && *soft_errors == (*old(self))->List_0
                    && *final(self) == SoftErrors::List(*final(soft_errors)),
                None => *old(self) is All && *final(self) is All,
            },
    {
        match self {
            SoftErrors::List(soft_errors) => Some(soft_errors),
            SoftErrors::All => None,
        }
    }
}

impl<T: PartialEq> SoftErrors<T> {
    /// `true` when the policy skips `soft_error`: it skips all, or lists an
    /// equal one. What "equal" means is the type's own `==`, where that has a
    /// stated meaning.
    pub fn contains(&self, soft_error: &T) -> (skipped: bool)
        ensures
            self is All ==> skipped,
            T::obeys_eq_spec() ==> skipped == (self is All || exists|i: int|
                0 <= i < self->List_0@.len() && #[trigger] self->List_0@[i].eq_spec(soft_error)),
    {
        match self {
            SoftErrors::All => true,
            SoftErrors::List(soft_errors) => {
                let mut i: usize = 0;
                while i < soft_errors.len()
                    invariant
                        i <= soft_errors@.len(),
                        self->List_0 == *soft_errors,
                        T::obeys_eq_spec() ==> forall|j: int|
                            0 <= j < i ==> !(#[trigger] soft_errors@[j]).eq_spec(soft_error),
                    decreases soft_errors@.len() - i,
                {
                    if soft_errors[i] == *soft_error {
                        proof {
                            if T::obeys_eq_spec() {
                                assert(self->List_0@[i as int].eq_spec(soft_error));
                            }
                        }
                        return true;
                    }
                    i += 1;
                }
                false
            },
        }
    }
}

impl<T> Default for SoftErrors<T> {
    fn default() -> (policy: Self)
        ensures
            policy is List,
            policy->List_0@ == Seq::<T>::empty(),
    {
        SoftErrors::new_list()
    }
}

} // verus!
