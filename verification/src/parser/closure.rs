//! A parser made of two functions: one that parses, one that recognises.
use crate::parser::Parser;
use crate::text::copy_texts;
use crate::value::Value;
use vstd::prelude::*;

verus! {

/// A parser that hands the contents to a function of the caller's. The
/// functions must take every input.
pub struct Closure<P: Fn(&[u8]) -> Result<Value, String>, V: Fn(&[u8]) -> Option<bool>> {
    name: String,
    parser: P,
    validator: V,
    supported_format_list: Vec<String>,
}

impl<P: Fn(&[u8]) -> Result<Value, String>, V: Fn(&[u8]) -> Option<bool>> Closure<P, V> {
    #[verifier::type_invariant]
    spec fn total(self) -> bool {
        &&& forall|bytes: &[u8]| #[trigger] self.parser.requires((bytes,))
        &&& forall|bytes: &[u8]| #[trigger] self.validator.requires((bytes,))
    }

    /// The parser's name.
    pub closed spec fn spec_name(&self) -> Seq<char> {
        self.name@
    }

    /// The formats that the parser takes.
    pub closed spec fn formats(&self) -> Seq<Seq<char>> {
        self.supported_format_list.deep_view()
    }

    /// The function that parses.
    pub closed spec fn spec_parser(&self) -> P {
        self.parser
    }

    /// The function that recognises.
    pub closed spec fn spec_validator(&self) -> V {
        self.validator
    }

    /// A parser with one format.
    pub fn new(name: &str, supported_format: &str, parser: P, validator: V) -> (made: Self)
        requires
            forall|bytes: &[u8]| #[trigger] parser.requires((bytes,)),
            forall|bytes: &[u8]| #[trigger] validator.requires((bytes,)),
        ensures
            made.spec_name() == name@,
            made.formats() == seq![supported_format@],
            made.spec_parser() == parser,
            made.spec_validator() == validator,
    {
        let mut supported_format_list: Vec<String> = Vec::new();
        supported_format_list.push(supported_format.to_owned());
        proof {
            assert(supported_format_list.deep_view() =~= seq![supported_format@]);
        }
        Closure { name: name.to_owned(), parser, validator, supported_format_list }
    }

    /// Replaces the function that parses.
    pub fn set_parser(&mut self, parser: P)
        requires
            forall|bytes: &[u8]| #[trigger] parser.requires((bytes,)),
        ensures
            final(self).spec_parser() == parser,
            final(self).spec_name() == old(self).spec_name(),
            final(self).formats() == old(self).formats(),
            final(self).spec_validator() == old(self).spec_validator(),
    {
        proof {
            use_type_invariant(&*self);
        }
        self.parser = parser;
    }

    /// The parser with the function that parses replaced.
    pub fn with_parser(self, parser: P) -> (made: Self)
        requires
            forall|bytes: &[u8]| #[trigger] parser.requires((bytes,)),
        ensures
            made.spec_parser() == parser,
            made.spec_name() == self.spec_name(),
            made.formats() == self.formats(),
            made.spec_validator() == self.spec_validator(),
    {
        let mut made = self;
        made.set_parser(parser);
        made
    }

    /// Replaces the function that recognises.
    pub fn set_validator(&mut self, validator: V)
        requires
            forall|bytes: &[u8]| #[trigger] validator.requires((bytes,)),
        ensures
            final(self).spec_validator() == validator,
            final(self).spec_name() == old(self).spec_name(),
            final(self).formats() == old(self).formats(),
            final(self).spec_parser() == old(self).spec_parser(),
    {
        proof {
            use_type_invariant(&*self);
        }
        self.validator = validator;
    }

    /// The parser with the function that recognises replaced.
    pub fn with_validator(self, validator: V) -> (made: Self)
        requires
            forall|bytes: &[u8]| #[trigger] validator.requires((bytes,)),
        ensures
            made.spec_validator() == validator,
            made.spec_name() == self.spec_name(),
            made.formats() == self.formats(),
            made.spec_parser() == self.spec_parser(),
    {
        let mut made = self;
        made.set_validator(validator);
        made
    }

    /// Replaces the formats.
    pub fn set_format_list(&mut self, format_list: &[String])
        ensures
            final(self).formats() == format_list.deep_view(),
            final(self).spec_name() == old(self).spec_name(),
            final(self).spec_parser() == old(self).spec_parser(),
            final(self).spec_validator() == old(self).spec_validator(),
    {
        proof {
            use_type_invariant(&*self);
        }
        self.supported_format_list = copy_texts(format_list);
    }

    /// The parser with the formats replaced.
    pub fn with_format_list(self, format_list: &[String]) -> (made: Self)
        ensures
            made.formats() == format_list.deep_view(),
            made.spec_name() == self.spec_name(),
            made.spec_parser() == self.spec_parser(),
            made.spec_validator() == self.spec_validator(),
    {
        let mut made = self;
        made.set_format_list(format_list);
        made
    }
}

impl<P: Fn(&[u8]) -> Result<Value, String>, V: Fn(&[u8]) -> Option<bool>> Parser for Closure<
    P,
    V,
> {
    fn name(&self) -> (name: String)
        ensures
            name@ == self.spec_name(),
    {
        self.name.clone()
    }

    fn supported_format_list(&self) -> (list: Vec<String>)
        ensures
            list.deep_view() == self.formats(),
    {
        copy_texts(self.supported_format_list.as_slice())
    }

    fn try_parse(&self, bytes: &[u8]) -> (document: Result<Value, String>)
        ensures
            self.spec_parser().ensures((bytes,), document),
    {
        proof {
            use_type_invariant(self);
        }
        (self.parser)(bytes)
    }

    fn is_format_supported(&self, bytes: &[u8]) -> (supported: Option<bool>)
        ensures
            self.spec_validator().ensures((bytes,), supported),
    {
        proof {
            use_type_invariant(self);
        }
        (self.validator)(bytes)
    }
}

} // verus!
