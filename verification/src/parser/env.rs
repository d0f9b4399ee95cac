//! The parser for environment-style contents: lines of `KEY=value`, where a
//! separator inside a key makes nested tables.
use crate::parser::Parser;
use crate::parser::reads_as;
use crate::text::lowercase;
use crate::text::split_text;
use crate::text::split;
use crate::text::text_of_bytes;
use crate::text::to_lowercase;
use crate::value::kind_name;
use crate::value::Tree;
use crate::value::Value;
use vstd::prelude::*;
use vstd::string::StringExecFns;

verus! {

/// Parses environment-style contents.
#[derive(Debug)]
pub struct ConfigurationParserEnv {
    separator: String,
}

/// The entries that `dotenv_parser` reads from a text, ordered by key, or the
/// text of its error.
pub uninterp spec fn dotenv_entries(text: Seq<char>) -> Result<
    Seq<(Seq<char>, Seq<char>)>,
    Seq<char>,
>;

/// `dotenv_parser::parse_dotenv`, its map handed out as a list in the order
/// of the keys.
#[verifier::external_body]
fn read_dotenv(text: &str) -> (entries: Result<Vec<(String, String)>, String>)
    ensures
        match entries {
            Ok(list) => dotenv_entries(text@) == Ok::<Seq<(Seq<char>, Seq<char>)>, Seq<char>>(
                list.deep_view(),
            ),
            Err(error) => dotenv_entries(text@) == Err::<Seq<(Seq<char>, Seq<char>)>, Seq<char>>(
                error@,
            ),
        },
{
    dotenv_parser::parse_dotenv(text).map(|entries| entries.into_iter().collect()).map_err(
        |error| error.to_string(),
    )
}

/// Each text of `parts` in lower case.
pub open spec fn lowered(parts: Seq<Seq<char>>) -> Seq<Seq<char>> {
    Seq::new(parts.len(), |i: int| lowercase(parts[i]))
}

/// The path of nested keys that a key stands for: its pieces between
/// separators, in lower case. A key with an empty piece stands for none, and
/// with an empty separator no key stands for one.
pub open spec fn key_path(key: Seq<char>, separator: Seq<char>) -> Option<Seq<Seq<char>>> {
    let parts = lowered(split(key, separator));
    if separator.len() == 0 || parts.contains(Seq::<char>::empty()) {
        None
    } else {
        Some(parts)
    }
}

/// The keys of a path, each in square brackets.
pub open spec fn bracketed(path: Seq<Seq<char>>) -> Seq<char>
    decreases path.len(),
{
    if path.len() == 0 {
        Seq::<char>::empty()
    } else {
        bracketed(path.drop_last()) + "["@ + path.last() + "]"@
    }
}

/// How a message names a place in the tree: a single key by itself, a longer
/// path with each key in square brackets.
pub open spec fn position_text(path: Seq<Seq<char>>) -> Seq<char> {
    if path.len() == 1 {
        path[0]
    } else {
        bracketed(path)
    }
}

/// What a message says of a place that holds something other than a table.
pub open spec fn blocked_text(path: Seq<Seq<char>>, found: Tree) -> Seq<char> {
    position_text(path) + " already exists with type "@ + kind_name(found)
        + ", but we needed map"@
}

/// The table `tree` with the text `value` put at the end of `path`, counted
/// from its key number `at`. Tables on the way are made where they are
/// missing; a value on the way that is no table blocks the path.
pub open spec fn planted(tree: Tree, path: Seq<Seq<char>>, at: int, value: Seq<char>) -> Result<
    Tree,
    Seq<char>,
>
    decreases path.len() - at,
{
    let table = tree->Table_0;
    if at < 0 || at >= path.len() {
        Ok(tree)
    } else if at == path.len() - 1 {
        Ok(Tree::Table(table.insert(path[at], Tree::Str(value))))
    } else {
        let child = if table.contains_key(path[at]) {
            table[path[at]]
        } else {
            Tree::Table(Map::<Seq<char>, Tree>::empty())
        };
        if child is Table {
            match planted(child, path, at + 1, value) {
                Ok(inner) => Ok(Tree::Table(table.insert(path[at], inner))),
                Err(error) => Err(error),
            }
        } else {
            Err(blocked_text(path.take(at + 1), child))
        }
    }
}

/// The tree that a list of entries makes: each entry whose key stands for a
/// path is put into the tree, in order; the first blocked path ends it.
pub open spec fn env_tree(entries: Seq<(Seq<char>, Seq<char>)>, separator: Seq<char>) -> Result<
    Tree,
    Seq<char>,
>
    decreases entries.len(),
{
    if entries.len() == 0 {
        Ok(Tree::Table(Map::<Seq<char>, Tree>::empty()))
    } else {
        match env_tree(entries.drop_last(), separator) {
            Ok(tree) => match key_path(entries.last().0, separator) {
                Some(path) => planted(tree, path, 0, entries.last().1),
                None => Ok(tree),
            },
            Err(error) => Err(error),
        }
    }
}

/// What the parser gives for the bytes of a document.
pub open spec fn env_reading(bytes: Seq<u8>, separator: Seq<char>) -> Result<Tree, Seq<char>> {
    if vstd::utf8::valid_utf8(bytes) {
        match dotenv_entries(vstd::utf8::decode_utf8(bytes)) {
            Ok(entries) => env_tree(entries, separator),
            Err(error) => Err(error),
        }
    } else {
        Err("Could not decode contents to UTF-8"@)
    }
}

/// Planting into a table gives a table.
pub proof fn lemma_planted_is_table(tree: Tree, path: Seq<Seq<char>>, at: int, value: Seq<char>)
    requires
        tree is Table,
        0 <= at < path.len(),
    ensures
        planted(tree, path, at, value) is Ok ==> planted(tree, path, at, value)->Ok_0 is Table,
    decreases path.len() - at,
{
}

/// What the entries make, where they make anything, is a table.
pub proof fn lemma_env_tree_is_table(entries: Seq<(Seq<char>, Seq<char>)>, separator: Seq<char>)
    ensures
        env_tree(entries, separator) is Ok ==> env_tree(entries, separator)->Ok_0 is Table,
    decreases entries.len(),
{
    if entries.len() > 0 {
        lemma_env_tree_is_table(entries.drop_last(), separator);
        match env_tree(entries.drop_last(), separator) {
            Ok(tree) => match key_path(entries.last().0, separator) {
                Some(path) => {
                    lemma_planted_is_table(tree, path, 0, entries.last().1);
                },
                None => {},
            },
            Err(_) => {},
        }
    }
}

/// The text that names the place `key_list[..=at]` in a message.
fn position_of_keys(key_list: &Vec<String>, at: usize) -> (text: String)
    requires
        at < key_list@.len(),
    ensures
        text@ == position_text(key_list.deep_view().take(at + 1)),
{
    let ghost path = key_list.deep_view().take(at + 1);
    if at == 0 {
        proof {
            assert(path[0] == key_list@[0]@);
        }
        return key_list[0].clone();
    }
    let mut text = String::new();
    let mut i: usize = 0;
    let n = key_list.len();
    proof {
        assert(path.take(0) =~= Seq::<Seq<char>>::empty());
    }
    while i <= at
        invariant
            i <= at + 1,
            at < n,
            n == key_list@.len(),
            path == key_list.deep_view().take(at + 1),
            text@ == bracketed(path.take(i as int)),
        decreases at + 1 - i,
    {
        proof {
            assert(path.take(i + 1).drop_last() =~= path.take(i as int));
            assert(path.take(i + 1).last() == key_list@[i as int]@);
        }
        text.append("[");
        text.append(key_list[i].as_str());
        text.append("]");
        i += 1;
    }
    proof {
        assert(path.take(at + 1) =~= path);
    }
    text
}

/// Puts the text `value` into the table `input` at the end of `key_list`,
/// counted from its key number `at`: see [`planted`].
fn update_input_from_key_list(input: &Value, key_list: &Vec<String>, at: usize, value: &String) -> (updated:
    Result<Value, String>)
    requires
        input@ is Table,
        at < key_list@.len(),
    ensures
        reads_as(updated, planted(input@, key_list.deep_view(), at as int, value@)),
    decreases key_list@.len() - at,
{
    let ghost path = key_list.deep_view();
    let key = &key_list[at];
    proof {
        assert(path[at as int] == key@);
    }
    let n = key_list.len();
    if at + 1 == n {
        let mut updated = input.clone();
        updated.insert(key.clone(), Value::Str(value.clone()));
        return Ok(updated);
    }
    let child = match input.get(key) {
        Some(child) => child.clone(),
        None => Value::new_map(),
    };
    if child.is_map() {
        match update_input_from_key_list(&child, key_list, at + 1, value) {
            Ok(inner) => {
                let mut updated = input.clone();
                updated.insert(key.clone(), inner);
                Ok(updated)
            },
            Err(error) => Err(error),
        }
    } else {
        let mut message = position_of_keys(key_list, at);
        message.append(" already exists with type ");
        message.append(child.kind_name().as_str());
        message.append(", but we needed map");
        Err(message)
    }
}

/// The path of nested keys that `key` stands for: see [`key_path`].
fn path_of_key(key: &String, separator: &String) -> (path: Option<Vec<String>>)
    ensures
        path.deep_view() == key_path(key@, separator@),
{
    if separator.as_str().unicode_len() == 0 {
        return None;
    }
    let parts = split_text(key.as_str(), separator.as_str());
    let ghost wanted = lowered(parts.deep_view());
    let mut path: Vec<String> = Vec::new();
    let mut i: usize = 0;
    while i < parts.len()
        invariant
            i <= parts@.len(),
            path@.len() == i,
            separator@.len() > 0,
            parts.deep_view() == split(key@, separator@),
            wanted == lowered(parts.deep_view()),
            forall|j: int| 0 <= j < i ==> (#[trigger] path@[j])@ == wanted[j],
            forall|j: int| 0 <= j < i ==> (#[trigger] wanted[j]).len() > 0,
        decreases parts@.len() - i,
    {
        let part = to_lowercase(parts[i].as_str());
        proof {
            assert(parts.deep_view()[i as int] == parts@[i as int]@);
            assert(wanted[i as int] == part@);
        }
        if part.as_str().unicode_len() == 0 {
            proof {
                assert(wanted[i as int] =~= Seq::<char>::empty());
                assert(wanted.contains(Seq::<char>::empty()));
            }
            return None;
        }
        path.push(part);
        i += 1;
    }
    proof {
        assert(path.deep_view() =~= wanted);
        if wanted.contains(Seq::<char>::empty()) {
            let j = choose|j: int| 0 <= j < wanted.len() && wanted[j] == Seq::<char>::empty();
            assert(wanted[j].len() > 0);
        }
    }
    Some(path)
}

/// Puts every entry of `env_list` into an empty table, in order: see
/// [`env_tree`].
fn update_input_from_env(env_list: &Vec<(String, String)>, separator: &String) -> (updated: Result<
    Value,
    String,
>)
    ensures
        reads_as(updated, env_tree(env_list.deep_view(), separator@)),
{
    let ghost entries = env_list.deep_view();
    let mut tree = Value::new_map();
    let mut i: usize = 0;
    proof {
        assert(entries.take(0) =~= Seq::<(Seq<char>, Seq<char>)>::empty());
    }
    while i < env_list.len()
        invariant
            i <= env_list@.len(),
            entries == env_list.deep_view(),
            tree@ is Table,
            env_tree(entries.take(i as int), separator@) == Ok::<Tree, Seq<char>>(tree@),
        decreases env_list@.len() - i,
    {
        proof {
            assert(entries.take(i + 1).drop_last() =~= entries.take(i as int));
            assert(entries.take(i + 1).last() == entries[i as int]);
            assert(entries[i as int] == (env_list@[i as int].0@, env_list@[i as int].1@));
            lemma_env_tree_is_table(entries.take(i + 1), separator@);
        }
        match path_of_key(&env_list[i].0, separator) {
            Some(path) => {
                if path.len() > 0 {
                    match update_input_from_key_list(&tree, &path, 0, &env_list[i].1) {
                        Ok(updated) => {
                            tree = updated;
                        },
                        Err(error) => {
                            proof {
                                lemma_env_tree_blocked(entries, separator@, i + 1);
                            }
                            return Err(error);
                        },
                    }
                } else {
                    proof {
                        assert(planted(tree@, path.deep_view(), 0, env_list@[i as int].1@) == Ok::<
                            Tree,
                            Seq<char>,
                        >(tree@));
                    }
                }
            },
            None => {},
        }
        i += 1;
    }
    proof {
        assert(entries.take(env_list@.len() as int) =~= entries);
    }
    Ok(tree)
}

/// Once a path is blocked, the entries that follow change nothing.
pub proof fn lemma_env_tree_blocked(
    entries: Seq<(Seq<char>, Seq<char>)>,
    separator: Seq<char>,
    upto: int,
)
    requires
        0 <= upto <= entries.len(),
        env_tree(entries.take(upto), separator) is Err,
    ensures
        env_tree(entries, separator) == env_tree(entries.take(upto), separator),
    decreases entries.len() - upto,
{
    if upto < entries.len() {
        assert(entries.take(upto + 1).drop_last() =~= entries.take(upto));
        lemma_env_tree_blocked(entries, separator, upto + 1);
    } else {
        assert(entries.take(upto) =~= entries);
    }
}

impl ConfigurationParserEnv {
    /// The separator that parts the keys of nested tables.
    pub closed spec fn spec_separator(&self) -> Seq<char> {
        self.separator@
    }

    /// A parser with the default separator, two underscores.
    pub fn new() -> (parser: Self)
        ensures
            parser.spec_separator() == "__"@,
    {
        ConfigurationParserEnv { separator: crate::loader::env::default::separator() }
    }

    /// Sets the separator that parts the keys of nested tables.
    pub fn set_key_separator(&mut self, key_separator: &str)
        ensures
            final(self).spec_separator() == key_separator@,
    {
        self.separator = key_separator.to_owned();
    }

    /// The parser with the separator set.
    pub fn with_key_separator(self, key_separator: &str) -> (parser: Self)
        ensures
            parser.spec_separator() == key_separator@,
    {
        let mut parser = self;
        parser.set_key_separator(key_separator);
        parser
    }
}

impl Parser for ConfigurationParserEnv {
    fn name(&self) -> (name: String)
        ensures
            name@ == "Environment-Variables"@,
    {
        "Environment-Variables".to_owned()
    }

    fn supported_format_list(&self) -> (list: Vec<String>)
        ensures
            list.deep_view() == seq!["env"@],
    {
        let mut list: Vec<String> = Vec::new();
        list.push("env".to_owned());
        proof {
            assert(list.deep_view() =~= seq!["env"@]);
        }
        list
    }

    fn try_parse(&self, bytes: &[u8]) -> (document: Result<Value, String>)
        ensures
            reads_as(document, env_reading(bytes@, self.spec_separator())),
    {
        match text_of_bytes(bytes) {
            Some(text) => match read_dotenv(text.as_str()) {
                Ok(entries) => update_input_from_env(&entries, &self.separator),
                Err(error) => Err(error),
            },
            None => Err("Could not decode contents to UTF-8".to_owned()),
        }
    }

    fn is_format_supported(&self, bytes: &[u8]) -> (supported: Option<bool>)
        ensures
            supported == Some(
                vstd::utf8::valid_utf8(bytes@) && dotenv_entries(
                    vstd::utf8::decode_utf8(bytes@),
                ) is Ok,
            ),
    {
        match text_of_bytes(bytes) {
            Some(text) => Some(read_dotenv(text.as_str()).is_ok()),
            None => Some(false),
        }
    }
}

} // verus!
