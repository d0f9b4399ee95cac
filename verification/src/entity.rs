//! The configuration entity: what one source holds for one plugin.
use crate::parser::Error;
use crate::parser::Parser;
use crate::registry::find_taker;
use crate::registry::first_taker;
use crate::registry::Registered;
use crate::source::Url;
use crate::source::UrlView;
use crate::value::Tree;
use crate::value::Value;
use vstd::prelude::*;
use vstd::string::StringExecFns;

verus! {

/// One fragment of configuration for one plugin, found by one loader at one
/// source: raw contents with perhaps a format, and the parsed value once
/// there is one.
#[derive(Debug)]
pub struct ConfigurationEntity {
    pub loader_name: String,
    pub url: Url,
    pub plugin_name: String,
    pub maybe_format: Option<String>,
    pub maybe_contents: Option<String>,
    pub maybe_parsed: Option<Value>,
}

/// The mathematical model of a [`ConfigurationEntity`].
pub struct EntityView {
    pub loader_name: Seq<char>,
    pub url: UrlView,
    pub plugin_name: Seq<char>,
    pub format: Option<Seq<char>>,
    pub contents: Option<Seq<char>>,
    pub parsed: Option<Tree>,
}

impl View for ConfigurationEntity {
    type V = EntityView;

    open spec fn view(&self) -> EntityView {
        EntityView {
            loader_name: self.loader_name@,
            url: self.url@,
            plugin_name: self.plugin_name@,
            format: self.maybe_format.deep_view(),
            contents: self.maybe_contents.deep_view(),
            parsed: self.maybe_parsed.deep_view(),
        }
    }
}

impl DeepView for ConfigurationEntity {
    type V = EntityView;

    open spec fn deep_view(&self) -> EntityView {
        self.view()
    }
}

/// `true` when the parser may answer something other than yes to whether it
/// recognises the bytes.
pub open spec fn declines<P: Parser>(registered: Registered<P>, bytes: &[u8]) -> bool {
    exists|answer: Option<bool>|
        answer != Some(true) && #[trigger] call_ensures(
            P::is_format_supported,
            (&registered.item, bytes),
            answer,
        )
}

/// `true` when the parser number `k` is the first that recognised the bytes:
/// each parser before it was asked and did not say yes, and it said yes. With
/// `k` the number of parsers, none said yes.
pub open spec fn sniffed_at<P: Parser>(parsers: Seq<Registered<P>>, bytes: &[u8], k: int) -> bool {
    &&& 0 <= k <= parsers.len()
    &&& forall|j: int| 0 <= j < k ==> declines(#[trigger] parsers[j], bytes)
    &&& k < parsers.len() ==> call_ensures(
        P::is_format_supported,
        (&parsers[k].item, bytes),
        Some(true),
    )
}

/// `true` when `outcome` is something that parsing the bytes may give. With a
/// format, the first parser registered under it parses; where there is none,
/// the outcome is `ParserNotFound` with that format. Without a format, the
/// first parser that recognises the bytes parses; where none does, the
/// outcome is `ParserNotFound` without a format.
pub open spec fn parses_bytes<P: Parser>(
    maybe_format: Option<String>,
    parsers: Seq<Registered<P>>,
    bytes: &[u8],
    outcome: Result<Value, Error>,
) -> bool {
    match maybe_format {
        Some(format) => {
            let at = first_taker(parsers, format@);
            if at >= 0 {
                call_ensures(P::parse, (&parsers[at].item, bytes), outcome)
            } else {
                match outcome {
                    Err(Error::ParserNotFound { format: Some(missing) }) => missing@ == format@,
                    _ => false,
                }
            }
        },
        None => exists|k: int|
            #[trigger] sniffed_at(parsers, bytes, k) && if k < parsers.len() {
                call_ensures(P::parse, (&parsers[k].item, bytes), outcome)
            } else {
                outcome == Err::<Value, Error>(Error::ParserNotFound { format: None })
            },
    }
}

/// `true` when `outcome` is something that parsing the entity's contents may
/// give: an empty table where there are no contents, else what parsing the
/// bytes of the contents may give.
pub open spec fn may_parse<P: Parser>(
    entity: ConfigurationEntity,
    parsers: Seq<Registered<P>>,
    outcome: Result<Value, Error>,
) -> bool {
    match entity.maybe_contents {
        None => outcome is Ok && outcome->Ok_0@ == Tree::Table(Map::<Seq<char>, Tree>::empty()),
        Some(contents) => exists|bytes: &[u8]|
            bytes@ == vstd::utf8::encode_utf8(contents@) && #[trigger] parses_bytes(
                entity.maybe_format,
                parsers,
                bytes,
                outcome,
            ),
    }
}

/// The first parser that recognises the bytes, if one does: see
/// [`sniffed_at`].
pub fn sniff<P: Parser>(parser_list: &[Registered<P>], bytes: &[u8]) -> (found: Option<usize>)
    ensures
        match found {
            Some(k) => k < parser_list@.len() && sniffed_at(parser_list@, bytes, k as int),
            None => sniffed_at(parser_list@, bytes, parser_list@.len() as int),
        },
{
    let mut k: usize = 0;
    while k < parser_list.len()
        invariant
            k <= parser_list@.len(),
            forall|j: int| 0 <= j < k ==> declines(#[trigger] parser_list@[j], bytes),
        decreases parser_list@.len() - k,
    {
        let answer = parser_list[k].item.is_format_supported(bytes);
        match answer {
            Some(true) => {
                return Some(k);
            },
            _ => {
                proof {
                    assert(answer != Some(true) && call_ensures(
                        P::is_format_supported,
                        (&parser_list@[k as int].item, bytes),
                        answer,
                    ));
                }
            },
        }
        k += 1;
    }
    None
}

impl ConfigurationEntity {
    /// The format that the contents look like: the last format of the first
    /// parser that recognises them. `None` without contents, where no parser
    /// recognises them, and where that parser is registered under no format.
    pub fn guess_format<P: Parser>(&self, parser_list: &[Registered<P>]) -> (format: Option<String>)
        ensures
            match self.maybe_contents {
                None => format is None,
                Some(contents) => exists|bytes: &[u8], k: int|
                    bytes@ == vstd::utf8::encode_utf8(contents@) && #[trigger] sniffed_at(
                        parser_list@,
                        bytes,
                        k,
                    ) && format.deep_view() == if k < parser_list@.len()
                        && parser_list@[k].keys@.len() > 0 {
                        Some(parser_list@[k].keys@.last()@)
                    } else {
                        None
                    },
            },
    {
        match &self.maybe_contents {
            None => None,
            Some(contents) => {
                let bytes = contents.as_str().as_bytes();
                match sniff(parser_list, bytes) {
                    Some(k) => {
                        let keys = &parser_list[k].keys;
                        let format = if keys.len() > 0 {
                            Some(keys[keys.len() - 1].clone())
                        } else {
                            None
                        };
                        proof {
                            assert(sniffed_at(parser_list@, bytes, k as int));
                        }
                        format
                    },
                    None => {
                        proof {
                            assert(sniffed_at(parser_list@, bytes, parser_list@.len() as int));
                        }
                        None
                    },
                }
            },
        }
    }

    /// Parses the contents: see [`may_parse`]. An entity without contents
    /// parses to an empty table.
    pub fn parse_contents<P: Parser>(&self, parser_list: &[Registered<P>]) -> (parsed: Result<
        Value,
        Error,
    >)
        ensures
            may_parse(*self, parser_list@, parsed),
    {
        match &self.maybe_contents {
            None => Ok(Value::new_map()),
            Some(contents) => {
                let bytes = contents.as_str().as_bytes();
                let parsed = match &self.maybe_format {
                    Some(format) => match find_taker(parser_list, format) {
                        Some(at) => parser_list[at].item.parse(bytes),
                        None => Err(Error::ParserNotFound { format: Some(format.clone()) }),
                    },
                    None => match sniff(parser_list, bytes) {
                        Some(k) => {
                            let parsed = parser_list[k].item.parse(bytes);
                            proof {
                                assert(sniffed_at(parser_list@, bytes, k as int));
                            }
                            parsed
                        },
                        None => {
                            proof {
                                assert(sniffed_at(parser_list@, bytes, parser_list@.len() as int));
                            }
                            Err(Error::ParserNotFound { format: None })
                        },
                    },
                };
                proof {
                    assert(parses_bytes(self.maybe_format, parser_list@, bytes, parsed));
                }
                parsed
            },
        }
    }

    /// Parses the contents and keeps the value in the entity: see
    /// [`may_parse`]. Where parsing fails the entity stays as it was.
    pub fn parse_contents_mut<P: Parser>(&mut self, parser_list: &[Registered<P>]) -> (parsed:
        Result<(), Error>)
        ensures
            match parsed {
                Ok(()) => final(self).maybe_parsed is Some && may_parse(
                    *old(self),
                    parser_list@,
                    Ok(final(self).maybe_parsed->Some_0),
                ) && *final(self) == (ConfigurationEntity {
                    maybe_parsed: final(self).maybe_parsed,
                    ..*old(self)
                }),
                Err(error) => may_parse(*old(self), parser_list@, Err(error)) && *final(self)
                    == *old(self),
            },
    {
        match self.parse_contents(parser_list) {
            Ok(value) => {
                self.maybe_parsed = Some(value);
                Ok(())
            },
            Err(error) => Err(error),
        }
    }

    /// An entity with no format, no contents and nothing parsed yet.
    pub fn new(url: Url, plugin_name: &str, loader_name: &str) -> (entity: Self)
        ensures
            entity@ == (EntityView {
                loader_name: loader_name@,
                url: url@,
                plugin_name: plugin_name@,
                format: None,
                contents: None,
                parsed: None,
            }),
    {
        ConfigurationEntity {
            url,
            plugin_name: plugin_name.to_owned(),
            loader_name: loader_name.to_owned(),
            maybe_format: None,
            maybe_contents: None,
            maybe_parsed: None,
        }
    }

    /// Sets the format, which from then on decides the parser.
    pub fn set_format(&mut self, format: &str)
        ensures
            final(self)@ == (EntityView { format: Some(format@), ..old(self)@ }),
    {
        self.maybe_format = Some(format.to_owned());
    }

    /// The entity with the format set.
    pub fn with_format(self, format: &str) -> (entity: Self)
        ensures
            entity@ == (EntityView { format: Some(format@), ..self@ }),
    {
        let mut entity = self;
        entity.set_format(format);
        entity
    }

    /// Sets the raw contents.
    pub fn set_contents(&mut self, contents: &str)
        ensures
            final(self)@ == (EntityView { contents: Some(contents@), ..old(self)@ }),
    {
        self.maybe_contents = Some(contents.to_owned());
    }

    /// The entity with the raw contents set.
    pub fn with_contents(self, contents: &str) -> (entity: Self)
        ensures
            entity@ == (EntityView { contents: Some(contents@), ..self@ }),
    {
        let mut entity = self;
        entity.set_contents(contents);
        entity
    }

    /// Sets the parsed value.
    pub fn set_parsed_contents(&mut self, contents: Value)
        ensures
            final(self)@ == (EntityView { parsed: Some(contents@), ..old(self)@ }),
    {
        self.maybe_parsed = Some(contents);
    }

    /// The entity with the parsed value set.
    pub fn with_parsed_contents(self, contents: Value) -> (entity: Self)
        ensures
            entity@ == (EntityView { parsed: Some(contents@), ..self@ }),
    {
        let mut entity = self;
        entity.set_parsed_contents(contents);
        entity
    }

    /// The source.
    pub fn url(&self) -> (url: &Url)
        ensures
            *url == self.url,
    {
        &self.url
    }

    /// The source, open to change.
    pub fn url_mut(&mut self) -> (url: &mut Url)
        ensures
            *url == old(self).url,
            *final(self) == (ConfigurationEntity { url: *final(url), ..*old(self) }),
    {
        &mut self.url
    }

    /// The plugin's name.
    pub fn plugin_name(&self) -> (name: &String)
        ensures
            *name == self.plugin_name,
    {
        &self.plugin_name
    }

    /// The plugin's name, open to change.
    pub fn plugin_name_mut(&mut self) -> (name: &mut String)
        ensures
            *name == old(self).plugin_name,
            *final(self) == (ConfigurationEntity { plugin_name: *final(name), ..*old(self) }),
    {
        &mut self.plugin_name
    }

    /// The format, if one is set.
    pub fn maybe_format(&self) -> (format: Option<&String>)
        ensures
            format.deep_view() == self@.format,
    {
        self.maybe_format.as_ref()
    }

    /// The format, open to change.
    pub fn maybe_format_mut(&mut self) -> (format: &mut Option<String>)
        ensures
            *format == old(self).maybe_format,
            *final(self) == (ConfigurationEntity { maybe_format: *final(format), ..*old(self) }),
    {
        &mut self.maybe_format
    }

    /// The raw contents, if there are any.
    pub fn maybe_contents(&self) -> (contents: Option<&String>)
        ensures
            contents.deep_view() == self@.contents,
    {
        self.maybe_contents.as_ref()
    }

    /// The raw contents, open to change.
    pub fn maybe_contents_mut(&mut self) -> (contents: &mut Option<String>)
        ensures
            *contents == old(self).maybe_contents,
            *final(self) == (ConfigurationEntity {
                maybe_contents: *final(contents),
                ..*old(self)
            }),
    {
        &mut self.maybe_contents
    }

    /// The parsed value, once there is one.
    pub fn maybe_parsed_contents(&self) -> (parsed: Option<&Value>)
        ensures
            parsed.deep_view() == self@.parsed,
    {
        self.maybe_parsed.as_ref()
    }

    /// The parsed value, open to change.
    pub fn maybe_parsed_contents_mut(&mut self) -> (parsed: &mut Option<Value>)
        ensures
            *parsed == old(self).maybe_parsed,
            *final(self) == (ConfigurationEntity { maybe_parsed: *final(parsed), ..*old(self) }),
    {
        &mut self.maybe_parsed
    }

    /// What the entity shows for itself in a message.
    pub fn to_text(&self) -> (text: String)
        ensures
            text@ == "Configuration entity for "@ + self@.plugin_name,
    {
        let mut text = "Configuration entity for ".to_owned();
        text.append(self.plugin_name.as_str());
        text
    }
}

impl Clone for ConfigurationEntity {
    fn clone(&self) -> (copy: Self)
        ensures
            copy@ == self@,
    {
        ConfigurationEntity {
            loader_name: self.loader_name.clone(),
            url: self.url.clone(),
            plugin_name: self.plugin_name.clone(),
            maybe_format: match &self.maybe_format {
                Some(format) => Some(format.clone()),
                None => None,
            },
            maybe_contents: match &self.maybe_contents {
                Some(contents) => Some(contents.clone()),
                None => None,
            },
            maybe_parsed: match &self.maybe_parsed {
                Some(parsed) => Some(parsed.clone()),
                None => None,
            },
        }
    }
}

} // verus!
