//! The configuration: sources in the order they were registered, the loaders
//! and parsers that serve them, an optional whitelist, and the stages run in
//! turn.
use crate::entity::ConfigurationEntity;
use crate::error::Error;
use crate::loader::ConfigurationLoader;
use crate::loader::ConfigurationLoadError;
use crate::parser::Parser;
use crate::registry::find_taker;
use crate::registry::first_taker;
use crate::source::Url;
use crate::source::UrlView;
use crate::stages::forget::parsed_dropped;
use crate::stages::load::explains;
use crate::stages::load::state_model;
use crate::stages::merge::merged_model;
use crate::stages::parse::fails_at;
use crate::stages::parse::parsed_from;
use crate::stages::parse::same_shape;
use crate::stages::validate::passes;
use crate::stages::validate::refused_at;
use crate::text::holds;
use crate::text::lowercase;
use crate::text::to_lowercase;
use crate::value::Value;
use crate::whitelist::split_names;
use crate::whitelist::whitelist_text_names;
use crate::whitelist::whitelist_with_all;
use crate::whitelist::whitelist_with;
use vstd::prelude::*;

pub use crate::registry::Registered;
pub use crate::registry::Source;
pub use crate::stages::forget::forget_loaded;
pub use crate::stages::forget::forget_parsed;
pub use crate::stages::load::load;
pub use crate::stages::load::resolve_loader;
pub use crate::stages::merge::merge;
pub use crate::stages::parse::parse;
pub use crate::stages::validate::validate;

verus! {

/// Resolves configuration for plugins: sources in the order of their
/// registration, which is the order of precedence when fragments merge, the
/// loaders and parsers that serve them, and an optional whitelist of plugins.
pub struct Configuration<L: ConfigurationLoader, P: Parser> {
    pub source_list: Vec<Source<L>>,
    pub loader_list: Vec<Registered<L>>,
    pub parser_list: Vec<Registered<P>>,
    pub maybe_whitelist: Option<Vec<String>>,
    pub forget_loaded: bool,
    pub forget_parsed: bool,
}

/// The locators of a list of sources.
pub open spec fn urls_of<L>(sources: Seq<Source<L>>) -> Seq<UrlView> {
    Seq::new(sources.len(), |i: int| sources[i].url@)
}

/// The sources without those at `url`, in order.
pub open spec fn without_url<L>(sources: Seq<Source<L>>, url: UrlView) -> Seq<Source<L>>
    decreases sources.len(),
{
    if sources.len() == 0 {
        Seq::<Source<L>>::empty()
    } else if sources.last().url@ == url {
        without_url(sources.drop_last(), url)
    } else {
        without_url(sources.drop_last(), url).push(sources.last())
    }
}

/// The sources without those of the scheme, in order.
pub open spec fn without_scheme<L>(sources: Seq<Source<L>>, scheme: Seq<char>) -> Seq<Source<L>>
    decreases sources.len(),
{
    if sources.len() == 0 {
        Seq::<Source<L>>::empty()
    } else if sources.last().url@.scheme == scheme {
        without_scheme(sources.drop_last(), scheme)
    } else {
        without_scheme(sources.drop_last(), scheme).push(sources.last())
    }
}

/// The locators of the sources of the scheme, in order.
pub open spec fn urls_of_scheme<L>(sources: Seq<Source<L>>, scheme: Seq<char>) -> Seq<UrlView>
    decreases sources.len(),
{
    if sources.len() == 0 {
        Seq::<UrlView>::empty()
    } else if sources.last().url@.scheme == scheme {
        urls_of_scheme(sources.drop_last(), scheme).push(sources.last().url@)
    } else {
        urls_of_scheme(sources.drop_last(), scheme)
    }
}

/// Those of `list` that are not registered under `key`, in order.
pub open spec fn without_takers<T>(list: Seq<Registered<T>>, key: Seq<char>) -> Seq<Registered<T>>
    decreases list.len(),
{
    if list.len() == 0 {
        Seq::<Registered<T>>::empty()
    } else if list.last().keys.deep_view().contains(key) {
        without_takers(list.drop_last(), key)
    } else {
        without_takers(list.drop_last(), key).push(list.last())
    }
}

/// The items of those of `list` that are registered under `key`, in order.
pub open spec fn takers<T>(list: Seq<Registered<T>>, key: Seq<char>) -> Seq<T>
    decreases list.len(),
{
    if list.len() == 0 {
        Seq::<T>::empty()
    } else if list.last().keys.deep_view().contains(key) {
        takers(list.drop_last(), key).push(list.last().item)
    } else {
        takers(list.drop_last(), key)
    }
}

impl<L: ConfigurationLoader, P: Parser> Configuration<L, P> {
    /// A configuration with no source, no loader, no parser and no whitelist,
    /// that forgets nothing.
    pub fn new() -> (configuration: Self)
        ensures
            configuration.source_list@.len() == 0,
            configuration.loader_list@.len() == 0,
            configuration.parser_list@.len() == 0,
            configuration.maybe_whitelist is None,
            !configuration.forget_loaded,
            !configuration.forget_parsed,
    {
        Configuration {
            source_list: Vec::new(),
            loader_list: Vec::new(),
            parser_list: Vec::new(),
            maybe_whitelist: None,
            forget_loaded: false,
            forget_parsed: false,
        }
    }

    /// The locators of the sources, in the order of their registration.
    pub fn url_list(&self) -> (list: Vec<Url>)
        ensures
            list.deep_view() == urls_of(self.source_list@),
    {
        let mut list: Vec<Url> = Vec::new();
        let mut i: usize = 0;
        while i < self.source_list.len()
            invariant
                i <= self.source_list@.len(),
                list@.len() == i,
                forall|j: int| 0 <= j < i ==> (#[trigger] list@[j])@ == self.source_list@[j].url@,
            decreases self.source_list@.len() - i,
        {
            list.push(self.source_list[i].url.clone());
            i += 1;
        }
        proof {
            assert(list.deep_view() =~= urls_of(self.source_list@));
        }
        list
    }

    /// `true` when a source with this locator is registered.
    pub fn has_url(&self, url: &Url) -> (found: bool)
        ensures
            found == urls_of(self.source_list@).contains(url@),
    {
        let ghost urls = urls_of(self.source_list@);
        let mut i: usize = 0;
        while i < self.source_list.len()
            invariant
                i <= self.source_list@.len(),
                urls == urls_of(self.source_list@),
                forall|j: int| 0 <= j < i ==> #[trigger] urls[j] != url@,
            decreases self.source_list@.len() - i,
        {
            if self.source_list[i].url.same_as(url) {
                proof {
                    assert(urls[i as int] == url@);
                }
                return true;
            }
            i += 1;
        }
        false
    }

    /// `true` when a source with the scheme of this locator is registered.
    pub fn has_url_scheme(&self, url: &Url) -> (found: bool)
        ensures
            found == exists|i: int|
                0 <= i < self.source_list@.len() && (#[trigger] self.source_list@[i]).url@.scheme
                    == url@.scheme,
    {
        let mut i: usize = 0;
        while i < self.source_list.len()
            invariant
                i <= self.source_list@.len(),
                forall|j: int|
                    0 <= j < i ==> (#[trigger] self.source_list@[j]).url@.scheme != url@.scheme,
            decreases self.source_list@.len() - i,
        {
            if self.source_list[i].url.scheme == url.scheme {
                return true;
            }
            i += 1;
        }
        false
    }

    /// `true` when a loader is registered under the scheme of this locator.
    pub fn has_loader(&self, url: &Url) -> (found: bool)
        ensures
            found == (first_taker(self.loader_list@, url@.scheme) >= 0),
    {
        find_taker(self.loader_list.as_slice(), &url.scheme).is_some()
    }

    /// Registers a loader under the schemes that it names.
    pub fn add_loader(&mut self, loader: L)
        ensures
            final(self).loader_list@.len() == old(self).loader_list@.len() + 1,
            final(self).loader_list@.drop_last() == old(self).loader_list@,
            final(self).loader_list@.last().item == loader,
            call_ensures(L::scheme_list, (&loader,), final(self).loader_list@.last().keys),
            final(self).source_list == old(self).source_list,
            final(self).parser_list == old(self).parser_list,
            final(self).maybe_whitelist == old(self).maybe_whitelist,
            final(self).forget_loaded == old(self).forget_loaded,
            final(self).forget_parsed == old(self).forget_parsed,
    {
        let keys = loader.scheme_list();
        self.loader_list.push(Registered { keys, item: loader });
        proof {
            assert(self.loader_list@.drop_last() =~= old(self).loader_list@);
        }
    }

    /// The configuration with the loader registered: see [`Self::add_loader`].
    pub fn with_loader(self, loader: L) -> (configuration: Self)
        ensures
            configuration.loader_list@.len() == self.loader_list@.len() + 1,
            configuration.loader_list@.drop_last() == self.loader_list@,
            configuration.loader_list@.last().item == loader,
            call_ensures(L::scheme_list, (&loader,), configuration.loader_list@.last().keys),
            configuration.source_list == self.source_list,
            configuration.parser_list == self.parser_list,
            configuration.maybe_whitelist == self.maybe_whitelist,
            configuration.forget_loaded == self.forget_loaded,
            configuration.forget_parsed == self.forget_parsed,
    {
        let mut configuration = self;
        configuration.add_loader(loader);
        configuration
    }

    /// Registers a parser under the formats that it names.
    pub fn add_parser(&mut self, parser: P)
        ensures
            final(self).parser_list@.len() == old(self).parser_list@.len() + 1,
            final(self).parser_list@.drop_last() == old(self).parser_list@,
            final(self).parser_list@.last().item == parser,
            call_ensures(P::supported_format_list, (&parser,), final(self).parser_list@.last().keys),
            final(self).source_list == old(self).source_list,
            final(self).loader_list == old(self).loader_list,
            final(self).maybe_whitelist == old(self).maybe_whitelist,
            final(self).forget_loaded == old(self).forget_loaded,
            final(self).forget_parsed == old(self).forget_parsed,
    {
        let keys = parser.supported_format_list();
        self.parser_list.push(Registered { keys, item: parser });
        proof {
            assert(self.parser_list@.drop_last() =~= old(self).parser_list@);
        }
    }

    /// The configuration with the parser registered: see [`Self::add_parser`].
    pub fn with_parser(self, parser: P) -> (configuration: Self)
        ensures
            configuration.parser_list@.len() == self.parser_list@.len() + 1,
            configuration.parser_list@.drop_last() == self.parser_list@,
            configuration.parser_list@.last().item == parser,
            call_ensures(
                P::supported_format_list,
                (&parser,),
                configuration.parser_list@.last().keys,
            ),
            configuration.source_list == self.source_list,
            configuration.loader_list == self.loader_list,
            configuration.maybe_whitelist == self.maybe_whitelist,
            configuration.forget_loaded == self.forget_loaded,
            configuration.forget_parsed == self.forget_parsed,
    {
        let mut configuration = self;
        configuration.add_parser(parser);
        configuration
    }

    /// `true` when a parser is registered under the format, taken in lower
    /// case.
    pub fn has_parser(&self, format: &str) -> (found: bool)
        ensures
            found == (first_taker(self.parser_list@, lowercase(format@)) >= 0),
    {
        let format = to_lowercase(format);
        find_taker(self.parser_list.as_slice(), &format).is_some()
    }

    /// Registers a source. Its scheme has to be one that a registered loader
    /// takes; a source that is registered already is not registered again.
    pub fn add_url(&mut self, url: Url) -> (added: Result<(), Error>)
        ensures
            final(self).loader_list == old(self).loader_list,
            final(self).parser_list == old(self).parser_list,
            final(self).maybe_whitelist == old(self).maybe_whitelist,
            final(self).forget_loaded == old(self).forget_loaded,
            final(self).forget_parsed == old(self).forget_parsed,
            match added {
                Ok(()) => first_taker(old(self).loader_list@, url@.scheme) >= 0 && if urls_of(
                    old(self).source_list@,
                ).contains(url@) {
                    final(self).source_list == old(self).source_list
                } else {
                    final(self).source_list@ == old(self).source_list@.push(
                        Source { url, loader: None },
                    )
                },
                Err(error) => {
                    &&& first_taker(old(self).loader_list@, url@.scheme) < 0
                    &&& final(self).source_list == old(self).source_list
                    &&& match error {
                        Error::Load {
                            source: ConfigurationLoadError::LoaderNotFound { scheme, url: refused },
                        } => scheme@ == url@.scheme && refused == url,
                        _ => false,
                    }
                },
            },
    {
        if !self.has_loader(&url) {
            let scheme = url.scheme.clone();
            return Err(
                Error::Load { source: ConfigurationLoadError::LoaderNotFound { scheme, url } },
            );
        }
        if !self.has_url(&url) {
            self.source_list.push(Source { url, loader: None });
        }
        Ok(())
    }

    /// The configuration with the source registered: see [`Self::add_url`].
    pub fn with_url(self, url: Url) -> (added: Result<Self, Error>)
        ensures
            match added {
                Ok(configuration) => first_taker(self.loader_list@, url@.scheme) >= 0
                    && configuration.loader_list == self.loader_list && configuration.parser_list
                    == self.parser_list && configuration.maybe_whitelist == self.maybe_whitelist
                    && configuration.forget_loaded == self.forget_loaded
                    && configuration.forget_parsed == self.forget_parsed && if urls_of(
                    self.source_list@,
                ).contains(url@) {
                    configuration.source_list == self.source_list
                } else {
                    configuration.source_list@ == self.source_list@.push(
                        Source { url, loader: None },
                    )
                },
                Err(error) => first_taker(self.loader_list@, url@.scheme) < 0 && match error {
                    Error::Load {
                        source: ConfigurationLoadError::LoaderNotFound { scheme, url: refused },
                    } => scheme@ == url@.scheme && refused == url,
                    _ => false,
                },
            },
    {
        let mut configuration = self;
        match configuration.add_url(url) {
            Ok(()) => Ok(configuration),
            Err(error) => Err(error),
        }
    }

    /// Registers a source with a loader of its own, which is asked for this
    /// source whatever loaders are registered under its scheme. A source that
    /// is registered already is not registered again.
    pub fn add_url_and_loader(&mut self, url: Url, loader: L)
        ensures
            final(self).loader_list == old(self).loader_list,
            final(self).parser_list == old(self).parser_list,
            final(self).maybe_whitelist == old(self).maybe_whitelist,
            final(self).forget_loaded == old(self).forget_loaded,
            final(self).forget_parsed == old(self).forget_parsed,
            if urls_of(old(self).source_list@).contains(url@) {
                final(self).source_list == old(self).source_list
            } else {
                final(self).source_list@ == old(self).source_list@.push(
                    Source { url, loader: Some(loader) },
                )
            },
    {
        if !self.has_url(&url) {
            self.source_list.push(Source { url, loader: Some(loader) });
        }
    }

    /// The configuration with the source and its own loader registered: see
    /// [`Self::add_url_and_loader`].
    pub fn with_url_and_loader(self, url: Url, loader: L) -> (configuration: Self)
        ensures
            configuration.loader_list == self.loader_list,
            configuration.parser_list == self.parser_list,
            configuration.maybe_whitelist == self.maybe_whitelist,
            configuration.forget_loaded == self.forget_loaded,
            configuration.forget_parsed == self.forget_parsed,
            if urls_of(self.source_list@).contains(url@) {
                configuration.source_list == self.source_list
            } else {
                configuration.source_list@ == self.source_list@.push(
                    Source { url, loader: Some(loader) },
                )
            },
    {
        let mut configuration = self;
        configuration.add_url_and_loader(url, loader);
        configuration
    }

    /// Registers a loader that comes in a box: see [`Self::add_loader`].
    pub fn add_boxed_loader(&mut self, loader: Box<L>)
        ensures
            final(self).loader_list@.len() == old(self).loader_list@.len() + 1,
            final(self).loader_list@.drop_last() == old(self).loader_list@,
            final(self).loader_list@.last().item == *loader,
            call_ensures(L::scheme_list, (&*loader,), final(self).loader_list@.last().keys),
            final(self).source_list == old(self).source_list,
            final(self).parser_list == old(self).parser_list,
            final(self).maybe_whitelist == old(self).maybe_whitelist,
            final(self).forget_loaded == old(self).forget_loaded,
            final(self).forget_parsed == old(self).forget_parsed,
    {
        self.add_loader(*loader);
    }

    /// The configuration with a loader registered that comes in a box: see
    /// [`Self::add_loader`].
    pub fn with_boxed_loader(self, loader: Box<L>) -> (configuration: Self)
        ensures
            configuration.loader_list@.len() == self.loader_list@.len() + 1,
            configuration.loader_list@.drop_last() == self.loader_list@,
            configuration.loader_list@.last().item == *loader,
            call_ensures(L::scheme_list, (&*loader,), configuration.loader_list@.last().keys),
            configuration.source_list == self.source_list,
            configuration.parser_list == self.parser_list,
            configuration.maybe_whitelist == self.maybe_whitelist,
            configuration.forget_loaded == self.forget_loaded,
            configuration.forget_parsed == self.forget_parsed,
    {
        let mut configuration = self;
        configuration.add_loader(*loader);
        configuration
    }

    /// Registers a parser that comes in a box: see [`Self::add_parser`].
    pub fn add_boxed_parser(&mut self, parser: Box<P>)
        ensures
            final(self).parser_list@.len() == old(self).parser_list@.len() + 1,
            final(self).parser_list@.drop_last() == old(self).parser_list@,
            final(self).parser_list@.last().item == *parser,
            call_ensures(
                P::supported_format_list,
                (&*parser,),
                final(self).parser_list@.last().keys,
            ),
            final(self).source_list == old(self).source_list,
            final(self).loader_list == old(self).loader_list,
            final(self).maybe_whitelist == old(self).maybe_whitelist,
            final(self).forget_loaded == old(self).forget_loaded,
            final(self).forget_parsed == old(self).forget_parsed,
    {
        self.add_parser(*parser);
    }

    /// The configuration with a parser registered that comes in a box: see
    /// [`Self::add_parser`].
    pub fn with_boxed_parser(self, parser: Box<P>) -> (configuration: Self)
        ensures
            configuration.parser_list@.len() == self.parser_list@.len() + 1,
            configuration.parser_list@.drop_last() == self.parser_list@,
            configuration.parser_list@.last().item == *parser,
            call_ensures(
                P::supported_format_list,
                (&*parser,),
                configuration.parser_list@.last().keys,
            ),
            configuration.source_list == self.source_list,
            configuration.loader_list == self.loader_list,
            configuration.maybe_whitelist == self.maybe_whitelist,
            configuration.forget_loaded == self.forget_loaded,
            configuration.forget_parsed == self.forget_parsed,
    {
        let mut configuration = self;
        configuration.add_parser(*parser);
        configuration
    }

    /// Takes away every source at this locator; `true` when there was one.
    pub fn remove_url(&mut self, url: &Url) -> (removed: bool)
        ensures
            removed == urls_of(old(self).source_list@).contains(url@),
            final(self).source_list@ == without_url(old(self).source_list@, url@),
            final(self).loader_list == old(self).loader_list,
            final(self).parser_list == old(self).parser_list,
            final(self).maybe_whitelist == old(self).maybe_whitelist,
            final(self).forget_loaded == old(self).forget_loaded,
            final(self).forget_parsed == old(self).forget_parsed,
    {
        let ghost all = self.source_list@;
        let mut rest: Vec<Source<L>> = Vec::new();
        core::mem::swap(&mut rest, &mut self.source_list);
        let ghost mut done: Seq<Source<L>> = Seq::empty();
        let mut removed = false;
        proof {
            assert(self.source_list@ =~= without_url(done, url@));
        }
        while rest.len() > 0
            invariant
                done + rest@ == all,
                self.source_list@ == without_url(done, url@),
                removed == urls_of(done).contains(url@),
                self.loader_list == old(self).loader_list,
                self.parser_list == old(self).parser_list,
                self.maybe_whitelist == old(self).maybe_whitelist,
                self.forget_loaded == old(self).forget_loaded,
                self.forget_parsed == old(self).forget_parsed,
            decreases rest@.len(),
        {
            let source = rest.remove(0);
            proof {
                assert(done.push(source) + rest@ =~= all);
                assert(done.push(source).drop_last() =~= done);
                let next = urls_of(done.push(source));
                assert(next =~= urls_of(done).push(source.url@));
                if urls_of(done).contains(url@) {
                    let j = choose|j: int| 0 <= j < urls_of(done).len() && urls_of(done)[j] == url@;
                    assert(next[j] == url@);
                } else if next.contains(url@) {
                    let j = choose|j: int| 0 <= j < next.len() && next[j] == url@;
                    if j < done.len() {
                        assert(urls_of(done)[j] == url@);
                    }
                }
            }
            if source.url.same_as(url) {
                removed = true;
                proof {
                    assert(urls_of(done.push(source))[done.len() as int] == url@);
                }
            } else {
                self.source_list.push(source);
            }
            proof {
                done = done.push(source);
            }
        }
        proof {
            assert(done =~= done + rest@);
        }
        removed
    }

    /// Takes away every source of the scheme and returns their locators, in
    /// the order of their registration.
    pub fn remove_scheme(&mut self, scheme: &str) -> (removed: Vec<Url>)
        ensures
            removed.deep_view() == urls_of_scheme(old(self).source_list@, scheme@),
            final(self).source_list@ == without_scheme(old(self).source_list@, scheme@),
            final(self).loader_list == old(self).loader_list,
            final(self).parser_list == old(self).parser_list,
            final(self).maybe_whitelist == old(self).maybe_whitelist,
            final(self).forget_loaded == old(self).forget_loaded,
            final(self).forget_parsed == old(self).forget_parsed,
    {
        let ghost all = self.source_list@;
        let mut rest: Vec<Source<L>> = Vec::new();
        core::mem::swap(&mut rest, &mut self.source_list);
        let ghost mut done: Seq<Source<L>> = Seq::empty();
        let mut removed: Vec<Url> = Vec::new();
        proof {
            assert(self.source_list@ =~= without_scheme(done, scheme@));
            assert(removed.deep_view() =~= urls_of_scheme(done, scheme@));
        }
        while rest.len() > 0
            invariant
                done + rest@ == all,
                self.source_list@ == without_scheme(done, scheme@),
                removed.deep_view() == urls_of_scheme(done, scheme@),
                self.loader_list == old(self).loader_list,
                self.parser_list == old(self).parser_list,
                self.maybe_whitelist == old(self).maybe_whitelist,
                self.forget_loaded == old(self).forget_loaded,
                self.forget_parsed == old(self).forget_parsed,
            decreases rest@.len(),
        {
            let ghost before = removed.deep_view();
            let source = rest.remove(0);
            proof {
                assert(done.push(source) + rest@ =~= all);
                assert(done.push(source).drop_last() =~= done);
            }
            if crate::text::same_text(source.url.scheme.as_str(), scheme) {
                removed.push(source.url);
                proof {
                    assert(removed.deep_view() =~= before.push(source.url@));
                }
            } else {
                self.source_list.push(source);
            }
            proof {
                done = done.push(source);
            }
        }
        proof {
            assert(done =~= done + rest@);
        }
        removed
    }

    /// Takes away the first loader that is registered under the scheme, and
    /// with it every source of the scheme. Returns the loader and the
    /// locators of those sources, or `None` where no loader takes the scheme;
    /// nothing changes then.
    pub fn remove_loader_and_urls(&mut self, scheme: &str) -> (removed: Option<(L, Vec<Url>)>)
        ensures
            final(self).parser_list == old(self).parser_list,
            final(self).maybe_whitelist == old(self).maybe_whitelist,
            final(self).forget_loaded == old(self).forget_loaded,
            final(self).forget_parsed == old(self).forget_parsed,
            match removed {
                Some((loader, urls)) => {
                    let at = first_taker(old(self).loader_list@, scheme@);
                    &&& 0 <= at < old(self).loader_list@.len()
                    &&& loader == old(self).loader_list@[at].item
                    &&& final(self).loader_list@ == old(self).loader_list@.remove(at)
                    &&& urls.deep_view() == urls_of_scheme(old(self).source_list@, scheme@)
                    &&& final(self).source_list@ == without_scheme(old(self).source_list@, scheme@)
                },
                None => first_taker(old(self).loader_list@, scheme@) < 0 && final(self).loader_list
                    == old(self).loader_list && final(self).source_list == old(self).source_list,
            },
    {
        let key = scheme.to_owned();
        match find_taker(self.loader_list.as_slice(), &key) {
            Some(at) => {
                let registered = self.loader_list.remove(at);
                let urls = self.remove_scheme(scheme);
                Some((registered.item, urls))
            },
            None => None,
        }
    }

    /// Takes away every parser that is registered under the format, taken in
    /// lower case, and returns them in the order of their registration.
    pub fn remove_parser(&mut self, format: &str) -> (removed: Vec<P>)
        ensures
            removed@ == takers(old(self).parser_list@, lowercase(format@)),
            final(self).parser_list@ == without_takers(old(self).parser_list@, lowercase(format@)),
            final(self).source_list == old(self).source_list,
            final(self).loader_list == old(self).loader_list,
            final(self).maybe_whitelist == old(self).maybe_whitelist,
            final(self).forget_loaded == old(self).forget_loaded,
            final(self).forget_parsed == old(self).forget_parsed,
    {
        let key = to_lowercase(format);
        let ghost all = self.parser_list@;
        let mut rest: Vec<Registered<P>> = Vec::new();
        core::mem::swap(&mut rest, &mut self.parser_list);
        let ghost mut done: Seq<Registered<P>> = Seq::empty();
        let mut removed: Vec<P> = Vec::new();
        proof {
            assert(self.parser_list@ =~= without_takers(done, key@));
            assert(removed@ =~= takers(done, key@));
        }
        while rest.len() > 0
            invariant
                done + rest@ == all,
                self.parser_list@ == without_takers(done, key@),
                removed@ == takers(done, key@),
                self.source_list == old(self).source_list,
                self.loader_list == old(self).loader_list,
                self.maybe_whitelist == old(self).maybe_whitelist,
                self.forget_loaded == old(self).forget_loaded,
                self.forget_parsed == old(self).forget_parsed,
            decreases rest@.len(),
        {
            let registered = rest.remove(0);
            proof {
                assert(done.push(registered) + rest@ =~= all);
                assert(done.push(registered).drop_last() =~= done);
            }
            if holds(registered.keys.as_slice(), &key) {
                removed.push(registered.item);
            } else {
                self.parser_list.push(registered);
            }
            proof {
                done = done.push(registered);
            }
        }
        proof {
            assert(done =~= done + rest@);
        }
        removed
    }

    /// Puts on the whitelist the names that the text of a variable lists: see
    /// [`whitelist_text_names`]. `value` is what the variable holds; a
    /// variable that is not set is an error, and changes nothing.
    pub fn load_whitelist_from_env(&mut self, key: &str, value: Option<&str>) -> (done: Result<
        (),
        Error,
    >)
        ensures
            final(self).source_list == old(self).source_list,
            final(self).loader_list == old(self).loader_list,
            final(self).parser_list == old(self).parser_list,
            final(self).forget_loaded == old(self).forget_loaded,
            final(self).forget_parsed == old(self).forget_parsed,
            match value {
                Some(text) => done is Ok && final(self).maybe_whitelist.deep_view()
                    == whitelist_with_all(
                    old(self).maybe_whitelist.deep_view(),
                    whitelist_text_names(text@),
                ),
                None => final(self).maybe_whitelist == old(self).maybe_whitelist && match done {
                    Err(Error::Other(message)) => message@
                        == "Invalid key or the value is not set: "@ + key@,
                    _ => false,
                },
            },
    {
        match value {
            Some(text) => {
                let value = to_lowercase(crate::text::trim(text).as_str());
                let names = if value.as_str().unicode_len() == 0 {
                    Vec::new()
                } else {
                    split_names(value.as_str())
                };
                proof {
                    if value@.len() == 0 {
                        assert(names.deep_view() =~= Seq::<Seq<char>>::empty());
                    }
                }
                self.set_whitelist(names.as_slice());
                Ok(())
            },
            None => {
                let mut message = "Invalid key or the value is not set: ".to_owned();
                vstd::string::StringExecFns::append(&mut message, key);
                Err(Error::Other(message))
            },
        }
    }

    /// The configuration with the names on the whitelist that the text of a
    /// variable lists: see [`Self::load_whitelist_from_env`].
    pub fn set_whitelist_from_env(self, key: &str, value: Option<&str>) -> (done: Result<
        Self,
        Error,
    >)
        ensures
            match value {
                Some(text) => done is Ok && done->Ok_0.maybe_whitelist.deep_view()
                    == whitelist_with_all(
                    self.maybe_whitelist.deep_view(),
                    whitelist_text_names(text@),
                ) && done->Ok_0.source_list == self.source_list && done->Ok_0.loader_list
                    == self.loader_list && done->Ok_0.parser_list == self.parser_list,
                None => match done {
                    Err(Error::Other(message)) => message@
                        == "Invalid key or the value is not set: "@ + key@,
                    _ => false,
                },
            },
    {
        let mut configuration = self;
        match configuration.load_whitelist_from_env(key, value) {
            Ok(()) => Ok(configuration),
            Err(error) => Err(error),
        }
    }

    /// `true` when the name, taken in lower case, is on the whitelist.
    /// Without a whitelist no name is on it.
    pub fn is_in_whitelist(&self, name: &str) -> (listed: bool)
        ensures
            listed == match self.maybe_whitelist {
                Some(whitelist) => whitelist.deep_view().contains(lowercase(name@)),
                None => false,
            },
    {
        let name = to_lowercase(name);
        match &self.maybe_whitelist {
            Some(whitelist) => holds(whitelist.as_slice(), &name),
            None => false,
        }
    }

    /// Puts a plugin's name, in lower case, on the whitelist: see
    /// [`whitelist_with`].
    pub fn add_to_whitelist(&mut self, name: &str)
        ensures
            final(self).maybe_whitelist.deep_view() == whitelist_with(
                old(self).maybe_whitelist.deep_view(),
                lowercase(name@),
            ),
            final(self).source_list == old(self).source_list,
            final(self).loader_list == old(self).loader_list,
            final(self).parser_list == old(self).parser_list,
            final(self).forget_loaded == old(self).forget_loaded,
            final(self).forget_parsed == old(self).forget_parsed,
    {
        let name = to_lowercase(name);
        match &mut self.maybe_whitelist {
            Some(whitelist) => {
                let ghost before = whitelist.deep_view();
                if !holds(whitelist.as_slice(), &name) {
                    whitelist.push(name);
                    proof {
                        assert(whitelist.deep_view() =~= before.push(name@));
                    }
                }
            },
            None => {
                let mut whitelist: Vec<String> = Vec::new();
                whitelist.push(name);
                proof {
                    assert(whitelist.deep_view() =~= seq![name@]);
                }
                self.maybe_whitelist = Some(whitelist);
            },
        }
    }

    /// Puts each name of the list, in lower case, on the whitelist: see
    /// [`whitelist_with_all`]. An empty list changes nothing.
    pub fn set_whitelist(&mut self, whitelist: &[String])
        ensures
            final(self).maybe_whitelist.deep_view() == whitelist_with_all(
                old(self).maybe_whitelist.deep_view(),
                whitelist.deep_view(),
            ),
            final(self).source_list == old(self).source_list,
            final(self).loader_list == old(self).loader_list,
            final(self).parser_list == old(self).parser_list,
            final(self).forget_loaded == old(self).forget_loaded,
            final(self).forget_parsed == old(self).forget_parsed,
    {
        let ghost names = whitelist.deep_view();
        let ghost start = self.maybe_whitelist.deep_view();
        let mut i: usize = 0;
        proof {
            assert(names.take(0) =~= Seq::<Seq<char>>::empty());
        }
        while i < whitelist.len()
            invariant
                i <= whitelist@.len(),
                names == whitelist.deep_view(),
                self.maybe_whitelist.deep_view() == whitelist_with_all(start, names.take(i as int)),
                self.source_list == old(self).source_list,
                self.loader_list == old(self).loader_list,
                self.parser_list == old(self).parser_list,
                self.forget_loaded == old(self).forget_loaded,
                self.forget_parsed == old(self).forget_parsed,
            decreases whitelist@.len() - i,
        {
            proof {
                assert(names.take(i + 1).drop_last() =~= names.take(i as int));
                assert(names.take(i + 1).last() == whitelist@[i as int]@);
            }
            self.add_to_whitelist(whitelist[i].as_str());
            i += 1;
        }
        proof {
            assert(names.take(whitelist@.len() as int) =~= names);
        }
    }

    /// The configuration with each name of the list on the whitelist: see
    /// [`Self::set_whitelist`].
    pub fn with_whitelist(self, whitelist: &[String]) -> (configuration: Self)
        ensures
            configuration.maybe_whitelist.deep_view() == whitelist_with_all(
                self.maybe_whitelist.deep_view(),
                whitelist.deep_view(),
            ),
            configuration.source_list == self.source_list,
            configuration.loader_list == self.loader_list,
            configuration.parser_list == self.parser_list,
            configuration.forget_loaded == self.forget_loaded,
            configuration.forget_parsed == self.forget_parsed,
    {
        let mut configuration = self;
        configuration.set_whitelist(whitelist);
        configuration
    }
}

impl<L: ConfigurationLoader, P: Parser> Default for Configuration<L, P> {
    fn default() -> (configuration: Self)
        ensures
            configuration.source_list@.len() == 0,
            configuration.loader_list@.len() == 0,
            configuration.parser_list@.len() == 0,
            configuration.maybe_whitelist is None,
            !configuration.forget_loaded,
            !configuration.forget_parsed,
    {
        Configuration::new()
    }
}

/// `true` when the borrowed whitelist is the owned one.
pub open spec fn same_list(borrowed: Option<&[String]>, owned: Option<Vec<String>>) -> bool {
    match (borrowed, owned) {
        (Some(slice), Some(list)) => slice@ == list@,
        (None, None) => true,
        _ => false,
    }
}

/// `true` when `after` is `before` with every entity parsed, and with the raw
/// contents dropped where `forget` is set.
pub open spec fn parsed_state<P: Parser>(
    before: Seq<(String, Vec<ConfigurationEntity>)>,
    after: Seq<(String, Vec<ConfigurationEntity>)>,
    parsers: Seq<Registered<P>>,
    forget: bool,
) -> bool {
    &&& same_shape(before, after)
    &&& forall|i: int, j: int|
        0 <= i < before.len() && 0 <= j < before[i].1@.len() ==> parsed_from(
            before[i].1@[j],
            ConfigurationEntity {
                maybe_contents: before[i].1@[j].maybe_contents,
                ..#[trigger] after[i].1@[j]
            },
            parsers,
        ) && after[i].1@[j].maybe_contents == if forget {
            None
        } else {
            before[i].1@[j].maybe_contents
        }
}

impl<L: ConfigurationLoader, P: Parser> Configuration<L, P> {
    /// `true` when `loaded` is something that the Load stage may give for
    /// the registered sources and loaders: see [`explains`].
    pub open spec fn loads(
        &self,
        skip_soft_errors: bool,
        loaded: Result<Vec<(String, Vec<ConfigurationEntity>)>, ConfigurationLoadError>,
    ) -> bool {
        exists|
            whitelist: Option<&[String]>,
            outcomes: Seq<Result<Vec<(String, ConfigurationEntity)>, ConfigurationLoadError>>,
        |
            same_list(whitelist, self.maybe_whitelist) && #[trigger] explains(
                self.source_list@,
                self.loader_list@,
                whitelist,
                skip_soft_errors,
                outcomes,
                loaded,
            )
    }

    /// `true` when `parsed` is something that the Load and Parse stages may
    /// give: the entities that were loaded, each with a parsed value, or the
    /// error of the stage that failed.
    pub open spec fn loads_and_parses(
        &self,
        skip_soft_errors: bool,
        parsed: Result<Vec<(String, Vec<ConfigurationEntity>)>, Error>,
    ) -> bool {
        match parsed {
            Ok(state) => exists|loaded: Vec<(String, Vec<ConfigurationEntity>)>|
                #[trigger] self.loads(skip_soft_errors, Ok(loaded)) && parsed_state(
                    loaded@,
                    state@,
                    self.parser_list@,
                    self.forget_loaded,
                ),
            Err(Error::Load { source }) => self.loads(skip_soft_errors, Err(source)),
            Err(error) => exists|loaded: Vec<(String, Vec<ConfigurationEntity>)>, i: int, j: int|
                #[trigger] self.loads(skip_soft_errors, Ok(loaded)) && #[trigger] fails_at(
                    loaded@,
                    i,
                    j,
                    self.parser_list@,
                    error,
                ),
        }
    }

    /// `true` when `merged` is something that the Load, Parse and Merge
    /// stages may give: the merged configuration of each plugin, or the error
    /// of the stage that failed.
    pub open spec fn resolves(
        &self,
        skip_soft_errors: bool,
        merged: Result<Vec<(String, Value)>, Error>,
    ) -> bool {
        match merged {
            Ok(list) => exists|state: Vec<(String, Vec<ConfigurationEntity>)>|
                #[trigger] self.loads_and_parses(skip_soft_errors, Ok(state))
                    && list.deep_view() == merged_model(state_model(state@)),
            Err(error) => self.loads_and_parses(skip_soft_errors, Err(error)),
        }
    }

    /// Sets whether the raw contents of the entities are dropped once they
    /// are parsed.
    pub fn set_forget_loaded(&mut self, forget: bool)
        ensures
            *final(self) == (Configuration { forget_loaded: forget, ..*old(self) }),
    {
        self.forget_loaded = forget;
    }

    /// Sets whether the parsed values of the entities are dropped once they
    /// are merged.
    pub fn set_forget_parsed(&mut self, forget: bool)
        ensures
            *final(self) == (Configuration { forget_parsed: forget, ..*old(self) }),
    {
        self.forget_parsed = forget;
    }

    /// The Load stage on the registered sources: see [`load`].
    pub fn load(&self, skip_soft_errors: bool) -> (loaded: Result<
        Vec<(String, Vec<ConfigurationEntity>)>,
        Error,
    >)
        ensures
            match loaded {
                Ok(state) => self.loads(skip_soft_errors, Ok(state)),
                Err(Error::Load { source }) => self.loads(skip_soft_errors, Err(source)),
                Err(_) => false,
            },
            self.source_list@.len() == 0 ==> loaded is Ok && loaded->Ok_0@.len() == 0,
    {
        let whitelist: Option<&[String]> = match &self.maybe_whitelist {
            Some(list) => Some(list.as_slice()),
            None => None,
        };
        let loaded = load(
            self.source_list.as_slice(),
            self.loader_list.as_slice(),
            whitelist,
            skip_soft_errors,
        );
        proof {
            let outcomes = choose|
                outcomes: Seq<Result<Vec<(String, ConfigurationEntity)>, ConfigurationLoadError>>,
            | #[trigger]
                explains(
                    self.source_list@,
                    self.loader_list@,
                    whitelist,
                    skip_soft_errors,
                    outcomes,
                    loaded,
                );
            assert(same_list(whitelist, self.maybe_whitelist) && explains(
                self.source_list@,
                self.loader_list@,
                whitelist,
                skip_soft_errors,
                outcomes,
                loaded,
            ));
        }
        match loaded {
            Ok(state) => Ok(state),
            Err(source) => Err(Error::Load { source }),
        }
    }

    /// The Parse stage with the registered parsers: see [`parse`]. Where the
    /// configuration forgets what was loaded, the raw contents of the
    /// entities are dropped once all are parsed.
    pub fn parse(&self, plugin_configuration_list: &mut Vec<(String, Vec<ConfigurationEntity>)>) -> (parsed:
        Result<(), Error>)
        ensures
            same_shape(old(plugin_configuration_list)@, final(plugin_configuration_list)@),
            match parsed {
                Ok(()) => parsed_state(
                    old(plugin_configuration_list)@,
                    final(plugin_configuration_list)@,
                    self.parser_list@,
                    self.forget_loaded,
                ),
                Err(error) => exists|i: int, j: int| #[trigger]
                    fails_at(old(plugin_configuration_list)@, i, j, self.parser_list@, error),
            },
    {
        let ghost before = plugin_configuration_list@;
        match parse(plugin_configuration_list, self.parser_list.as_slice()) {
            Ok(()) => {
                let ghost middle = plugin_configuration_list@;
                if self.forget_loaded {
                    forget_loaded(plugin_configuration_list);
                }
                proof {
                    let after = plugin_configuration_list@;
                    assert forall|i: int, j: int|
                        0 <= i < before.len() && 0 <= j < before[i].1@.len() implies parsed_from(
                        before[i].1@[j],
                        ConfigurationEntity {
                            maybe_contents: before[i].1@[j].maybe_contents,
                            ..#[trigger] after[i].1@[j]
                        },
                        self.parser_list@,
                    ) && after[i].1@[j].maybe_contents == if self.forget_loaded {
                        None
                    } else {
                        before[i].1@[j].maybe_contents
                    } by {
                        assert(parsed_from(before[i].1@[j], middle[i].1@[j], self.parser_list@));
                        assert(middle[i].0 == before[i].0);
                    }
                }
                Ok(())
            },
            Err(error) => Err(error),
        }
    }

    /// The Merge stage: see [`merge`]. Where the configuration forgets what
    /// was parsed, the parsed values of the entities are dropped once they
    /// are merged; merging the same entities again then gives empty tables.
    pub fn merge(&self, plugin_configuration_list: &mut Vec<(String, Vec<ConfigurationEntity>)>) -> (merged:
        Result<Vec<(String, Value)>, Error>)
        ensures
            merged is Ok,
            merged->Ok_0.deep_view() == merged_model(state_model(old(plugin_configuration_list)@)),
            if self.forget_parsed {
                parsed_dropped(old(plugin_configuration_list)@, final(plugin_configuration_list)@)
            } else {
                final(plugin_configuration_list)@ == old(plugin_configuration_list)@
            },
    {
        let merged = merge(plugin_configuration_list.as_slice());
        if self.forget_parsed {
            forget_parsed(plugin_configuration_list);
        }
        merged
    }

    /// The Load and Parse stages in turn: see [`Self::loads_and_parses`].
    pub fn load_and_parse(&self, skip_soft_errors: bool) -> (parsed: Result<
        Vec<(String, Vec<ConfigurationEntity>)>,
        Error,
    >)
        ensures
            self.loads_and_parses(skip_soft_errors, parsed),
    {
        match self.load(skip_soft_errors) {
            Ok(loaded) => {
                let mut state = loaded;
                match self.parse(&mut state) {
                    Ok(()) => {
                        proof {
                            assert(self.loads(skip_soft_errors, Ok(loaded)));
                        }
                        Ok(state)
                    },
                    Err(error) => {
                        proof {
                            let (i, j) = choose|i: int, j: int| #[trigger]
                                fails_at(loaded@, i, j, self.parser_list@, error);
                            assert(self.loads(skip_soft_errors, Ok(loaded)) && fails_at(
                                loaded@,
                                i,
                                j,
                                self.parser_list@,
                                error,
                            ));
                        }
                        Err(error)
                    },
                }
            },
            Err(error) => Err(error),
        }
    }

    /// The Load, Parse and Merge stages in turn: see [`Self::resolves`].
    pub fn load_parse_merge(&self, skip_soft_errors: bool) -> (merged: Result<
        Vec<(String, Value)>,
        Error,
    >)
        ensures
            self.resolves(skip_soft_errors, merged),
    {
        match self.load_and_parse(skip_soft_errors) {
            Ok(parsed) => {
                let mut state = parsed;
                let merged = self.merge(&mut state);
                proof {
                    assert(self.loads_and_parses(skip_soft_errors, Ok(parsed)));
                }
                merged
            },
            Err(error) => Err(error),
        }
    }

    /// The Load, Parse, Merge and Validate stages in turn: the outcome of
    /// the first three, held to the schemas as [`validate`] does it.
    pub fn load_parse_merge_validate<C: Fn(usize, &Value, &String) -> Result<Value, String>>(
        &self,
        schema_list: &[String],
        check: &C,
        skip_soft_errors: bool,
    ) -> (validated: Result<Vec<(String, Value)>, Error>)
        requires
            forall|at: usize, value: &Value, name: &String| #[trigger]
                check.requires((at, value, name)),
        ensures
            match validated {
                Ok(list) => exists|merged: Vec<(String, Value)>|
                    #[trigger] self.resolves(skip_soft_errors, Ok(merged)) && list@.len()
                        == merged@.len() && forall|i: int|
                        0 <= i < list@.len() ==> (#[trigger] list@[i]).0@ == merged@[i].0@
                            && passes(
                            schema_list@,
                            check,
                            merged@[i].0,
                            merged@[i].1,
                            list@[i].1,
                        ),
                Err(Error::Validate { plugin_name, source }) => exists|
                    merged: Vec<(String, Value)>,
                    i: int,
                |
                    #[trigger] self.resolves(skip_soft_errors, Ok(merged)) && #[trigger] refused_at(
                        merged@,
                        schema_list@,
                        check,
                        i,
                        plugin_name,
                        source,
                    ),
                Err(error) => self.resolves(skip_soft_errors, Err(error)),
            },
    {
        match self.load_parse_merge(skip_soft_errors) {
            Ok(merged) => {
                let validated = validate(merged.as_slice(), schema_list, check);
                proof {
                    if validated is Ok {
                        assert(self.resolves(skip_soft_errors, Ok(merged)));
                    } else {
                        let error = validated->Err_0;
                        {
                            let i = choose|i: int|
                                0 <= i < merged@.len() && #[trigger] refused_at(
                                    merged@,
                                    schema_list@,
                                    check,
                                    i,
                                    error->Validate_plugin_name,
                                    error->Validate_source,
                                );
                            assert(self.resolves(skip_soft_errors, Ok(merged)) && refused_at(
                                merged@,
                                schema_list@,
                                check,
                                i,
                                error->Validate_plugin_name,
                                error->Validate_source,
                            ));
                        }
                    }
                }
                validated
            },
            Err(error) => Err(error),
        }
    }
}

} // verus!
