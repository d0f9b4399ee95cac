//! The locator of a configuration source: a scheme that picks the loader, a
//! path, and a query that carries the loader's options.
use vstd::prelude::*;
use vstd::string::StringExecFns;

verus! {

/// Where configuration comes from. Two locators are the same when all their
/// parts are.
#[derive(Debug)]
pub struct Url {
    pub scheme: String,
    pub authority: String,
    pub path: String,
    pub query: Option<String>,
}

/// The mathematical model of a [`Url`].
pub struct UrlView {
    pub scheme: Seq<char>,
    pub authority: Seq<char>,
    pub path: Seq<char>,
    pub query: Option<Seq<char>>,
}

impl View for Url {
    type V = UrlView;

    open spec fn view(&self) -> UrlView {
        UrlView {
            scheme: self.scheme@,
            authority: self.authority@,
            path: self.path@,
            query: match self.query {
                Some(query) => Some(query@),
                None => None,
            },
        }
    }
}

impl DeepView for Url {
    type V = UrlView;

    open spec fn deep_view(&self) -> UrlView {
        self.view()
    }
}

/// The written form of a locator: `scheme://authority` followed by the path
/// and, where there is a query, `?` and the query.
pub open spec fn url_text(url: UrlView) -> Seq<char> {
    url.scheme + "://"@ + url.authority + url.path + match url.query {
        Some(query) => "?"@ + query,
        None => Seq::<char>::empty(),
    }
}

/// The parts that the `url` crate reads from a text, or `None` where it
/// refuses the text.
pub uninterp spec fn parsed_url(text: Seq<char>) -> Option<UrlView>;

/// `url::Url::parse`, with the parts of the parsed locator taken out by
/// `scheme`, `authority`, `path` and `query`.
#[verifier::external_body]
fn parse_parts(text: &str) -> (parts: Option<Url>)
    ensures
        parts.deep_view() == parsed_url(text@),
{
    url::Url::parse(text).ok().map(
        |parsed|
            Url {
                scheme: parsed.scheme().to_string(),
                authority: parsed.authority().to_string(),
                path: parsed.path().to_string(),
                query: parsed.query().map(String::from),
            },
    )
}

impl Url {
    /// A locator made of the given parts.
    pub fn new(scheme: &str, authority: &str, path: &str, query: Option<&str>) -> (url: Url)
        ensures
            url@ == (UrlView {
                scheme: scheme@,
                authority: authority@,
                path: path@,
                query: match query {
                    Some(query) => Some(query@),
                    None => None,
                },
            }),
    {
        Url {
            scheme: scheme.to_owned(),
            authority: authority.to_owned(),
            path: path.to_owned(),
            query: match query {
                Some(query) => Some(query.to_owned()),
                None => None,
            },
        }
    }

    /// Reads a locator from its written form, such as `env://?prefix=APP`.
    pub fn parse(text: &str) -> (url: Option<Url>)
        ensures
            url.deep_view() == parsed_url(text@),
    {
        parse_parts(text)
    }

    /// The scheme, which picks the loader.
    pub fn scheme(&self) -> (scheme: &String)
        ensures
            scheme@ == self@.scheme,
    {
        &self.scheme
    }

    /// The path.
    pub fn path(&self) -> (path: &String)
        ensures
            path@ == self@.path,
    {
        &self.path
    }

    /// The query, which carries the loader's options.
    pub fn query(&self) -> (query: Option<&String>)
        ensures
            query.deep_view() == self@.query,
    {
        self.query.as_ref()
    }

    /// Replaces the path.
    pub fn set_path(&mut self, path: &str)
        ensures
            final(self)@ == (UrlView { path: path@, ..old(self)@ }),
    {
        self.path = path.to_owned();
    }

    /// Replaces the query, or takes it away.
    pub fn set_query(&mut self, query: Option<&str>)
        ensures
            final(self)@ == (UrlView {
                query: match query {
                    Some(query) => Some(query@),
                    None => None,
                },
                ..old(self)@
            }),
    {
        self.query = match query {
            Some(query) => Some(query.to_owned()),
            None => None,
        };
    }

    /// The written form: see [`url_text`].
    pub fn as_string(&self) -> (text: String)
        ensures
            text@ == url_text(self@),
    {
        let mut text = self.scheme.clone();
        text.append("://");
        text.append(self.authority.as_str());
        text.append(self.path.as_str());
        match &self.query {
            Some(query) => {
                text.append("?");
                text.append(query.as_str());
            },
            None => {
                assert(text@ + Seq::<char>::empty() =~= text@);
            },
        }
        text
    }

    /// `true` exactly when both locators have the same parts.
    pub fn same_as(&self, other: &Url) -> (same: bool)
        ensures
            same == (self@ == other@),
    {
        let same_query = match &self.query {
            Some(mine) => match &other.query {
                Some(theirs) => *mine == *theirs,
                None => false,
            },
            None => other.query.is_none(),
        };
        self.scheme == other.scheme && self.authority == other.authority && self.path
            == other.path && same_query
    }
}

impl PartialEq for Url {
    fn eq(&self, other: &Self) -> (same: bool) {
        self.same_as(other)
    }
}

impl vstd::std_specs::cmp::PartialEqSpecImpl for Url {
    open spec fn obeys_eq_spec() -> bool {
        true
    }

    open spec fn eq_spec(&self, other: &Self) -> bool {
        self@ == other@
    }
}

impl Clone for Url {
    fn clone(&self) -> (copy: Self)
        ensures
            copy@ == self@,
    {
        Url {
            scheme: self.scheme.clone(),
            authority: self.authority.clone(),
            path: self.path.clone(),
            query: match &self.query {
                Some(query) => Some(query.clone()),
                None => None,
            },
        }
    }
}

} // verus!
