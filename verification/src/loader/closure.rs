//! A loader made of one function.
use crate::entity::ConfigurationEntity;
use crate::loader::ConfigurationLoader;
use crate::loader::ConfigurationLoadError;
use crate::source::Url;
use crate::text::copy_texts;
use vstd::prelude::*;

verus! {

/// A loader that hands the source to a function of the caller's. The
/// function must take every input.
pub struct ConfigurationLoaderFn<
    F: Fn(&Url, Option<&[String]>, bool) -> Result<
        Vec<(String, ConfigurationEntity)>,
        ConfigurationLoadError,
    >,
> {
    name: String,
    loader: F,
    scheme_list: Vec<String>,
}

impl<
    F: Fn(&Url, Option<&[String]>, bool) -> Result<
        Vec<(String, ConfigurationEntity)>,
        ConfigurationLoadError,
    >,
> ConfigurationLoaderFn<F> {
    #[verifier::type_invariant]
    spec fn total(self) -> bool {
        forall|url: &Url, whitelist: Option<&[String]>, skip: bool| #[trigger]
            self.loader.requires((url, whitelist, skip))
    }

    /// The loader's name.
    pub closed spec fn spec_name(&self) -> Seq<char> {
        self.name@
    }

    /// The schemes that the loader takes.
    pub closed spec fn schemes(&self) -> Seq<Seq<char>> {
        self.scheme_list.deep_view()
    }

    /// The function that loads.
    pub closed spec fn spec_loader(&self) -> F {
        self.loader
    }

    /// A loader for one scheme.
    pub fn new(name: &str, loader: F, scheme: &str) -> (made: Self)
        requires
            forall|url: &Url, whitelist: Option<&[String]>, skip: bool| #[trigger]
                loader.requires((url, whitelist, skip)),
        ensures
            made.spec_name() == name@,
            made.schemes() == seq![scheme@],
            made.spec_loader() == loader,
    {
        let mut scheme_list: Vec<String> = Vec::new();
        scheme_list.push(scheme.to_owned());
        proof {
            assert(scheme_list.deep_view() =~= seq![scheme@]);
        }
        ConfigurationLoaderFn { name: name.to_owned(), loader, scheme_list }
    }

    /// Sets the name.
    pub fn set_name(&mut self, name: &str)
        ensures
            final(self).spec_name() == name@,
            final(self).schemes() == old(self).schemes(),
            final(self).spec_loader() == old(self).spec_loader(),
    {
        proof {
            use_type_invariant(&*self);
        }
        self.name = name.to_owned();
    }

    /// The loader with the name set.
    pub fn with_name(self, name: &str) -> (made: Self)
        ensures
            made.spec_name() == name@,
            made.schemes() == self.schemes(),
            made.spec_loader() == self.spec_loader(),
    {
        let mut made = self;
        made.set_name(name);
        made
    }

    /// Replaces the function that loads.
    pub fn set_loader(&mut self, loader: F)
        requires
            forall|url: &Url, whitelist: Option<&[String]>, skip: bool| #[trigger]
                loader.requires((url, whitelist, skip)),
        ensures
            final(self).spec_loader() == loader,
            final(self).spec_name() == old(self).spec_name(),
            final(self).schemes() == old(self).schemes(),
    {
        self.loader = loader;
    }

    /// The loader with the function replaced.
    pub fn with_loader(self, loader: F) -> (made: Self)
        requires
            forall|url: &Url, whitelist: Option<&[String]>, skip: bool| #[trigger]
                loader.requires((url, whitelist, skip)),
        ensures
            made.spec_loader() == loader,
            made.spec_name() == self.spec_name(),
            made.schemes() == self.schemes(),
    {
        let mut made = self;
        made.set_loader(loader);
        made
    }

    /// Replaces the schemes.
    pub fn set_scheme_list(&mut self, scheme_list: &[String])
        ensures
            final(self).schemes() == scheme_list.deep_view(),
            final(self).spec_name() == old(self).spec_name(),
            final(self).spec_loader() == old(self).spec_loader(),
    {
        proof {
            use_type_invariant(&*self);
        }
        self.scheme_list = copy_texts(scheme_list);
    }

    /// The loader with the schemes replaced.
    pub fn with_scheme_list(self, scheme_list: &[String]) -> (made: Self)
        ensures
            made.schemes() == scheme_list.deep_view(),
            made.spec_name() == self.spec_name(),
            made.spec_loader() == self.spec_loader(),
    {
        let mut made = self;
        made.set_scheme_list(scheme_list);
        made
    }
}

impl<
    F: Fn(&Url, Option<&[String]>, bool) -> Result<
        Vec<(String, ConfigurationEntity)>,
        ConfigurationLoadError,
    >,
> ConfigurationLoader for ConfigurationLoaderFn<F> {
    fn name(&self) -> (name: String)
        ensures
            name@ == self.spec_name(),
    {
        self.name.clone()
    }

    fn scheme_list(&self) -> (list: Vec<String>)
        ensures
            list.deep_view() == self.schemes(),
    {
        copy_texts(self.scheme_list.as_slice())
    }

    fn load(&self, url: &Url, maybe_whitelist: Option<&[String]>, skip_soft_errors: bool) -> (loaded:
        Result<Vec<(String, ConfigurationEntity)>, ConfigurationLoadError>)
        ensures
            self.spec_loader().ensures((url, maybe_whitelist, skip_soft_errors), loaded),
    {
        proof {
            use_type_invariant(self);
        }
        (self.loader)(url, maybe_whitelist, skip_soft_errors)
    }
}

} // verus!
