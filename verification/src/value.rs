//! The configuration value: a dynamically typed tree of scalars, lists and
//! keyed tables, with its mathematical model and the merge of two trees.
use vstd::prelude::*;

verus! {

/// A configuration value.
///
/// A table is kept as a list of entries. Where a key occurs more than once,
/// the first entry with that key is the one that counts.
#[derive(Debug)]
pub enum Value {
    Bool(bool),
    Int(isize),
    /// A floating-point number, held as its IEEE 754 bit pattern.
    Float(u64),
    Str(String),
    List(Vec<Value>),
    Table(Vec<(String, Value)>),
}

/// The mathematical model of a [`Value`].
pub enum Tree {
    Bool(bool),
    Int(int),
    Float(u64),
    Str(Seq<char>),
    List(Seq<Tree>),
    Table(Map<Seq<char>, Tree>),
}

/// The index of the first entry of `entries` whose key is `key`, or `-1`.
pub open spec fn key_index(entries: Seq<(String, Value)>, key: Seq<char>) -> int
    decreases entries.len(),
{
    if entries.len() == 0 {
        -1
    } else {
        let before = key_index(entries.drop_last(), key);
        if before >= 0 {
            before
        } else if entries.last().0@ == key {
            entries.len() - 1
        } else {
            -1
        }
    }
}

/// What `key_index` finds: the least index that holds `key`.
pub proof fn lemma_key_index(entries: Seq<(String, Value)>, key: Seq<char>)
    ensures
        -1 <= key_index(entries, key) < entries.len(),
        key_index(entries, key) >= 0 ==> entries[key_index(entries, key)].0@ == key,
        forall|j: int|
            0 <= j < entries.len() && (key_index(entries, key) < 0 || j < key_index(entries, key))
                ==> (#[trigger] entries[j]).0@ != key,
    decreases entries.len(),
{
    if entries.len() > 0 {
        lemma_key_index(entries.drop_last(), key);
        assert forall|j: int|
            0 <= j < entries.len() && (key_index(entries, key) < 0 || j < key_index(entries, key))
            implies (#[trigger] entries[j]).0@ != key by {
            if j < entries.len() - 1 {
                assert(entries.drop_last()[j] == entries[j]);
            }
        }
    }
}

/// The name of a tree's kind.
pub open spec fn kind_name(tree: Tree) -> Seq<char> {
    match tree {
        Tree::Bool(_) => "boolean"@,
        Tree::Int(_) => "integer"@,
        Tree::Float(_) => "float"@,
        Tree::Str(_) => "string"@,
        Tree::List(_) => "list"@,
        Tree::Table(_) => "map"@,
    }
}

/// The tree that a [`Value`] stands for.
pub open spec fn tree_of(value: Value) -> Tree
    decreases value,
{
    match value {
        Value::Bool(b) => Tree::Bool(b),
        Value::Int(i) => Tree::Int(i as int),
        Value::Float(bits) => Tree::Float(bits),
        Value::Str(s) => Tree::Str(s@),
        Value::List(items) => Tree::List(
            Seq::new(
                items@.len(),
                |i: int|
                    if 0 <= i < items@.len() {
                        tree_of(items@[i])
                    } else {
                        Tree::Bool(false)
                    },
            ),
        ),
        Value::Table(entries) => Tree::Table(
            Map::new(
                |k: Seq<char>| key_index(entries@, k) >= 0,
                |k: Seq<char>|
                    {
                        let i = key_index(entries@, k);
                        if 0 <= i < entries@.len() {
                            tree_of(entries@[i].1)
                        } else {
                            Tree::Bool(false)
                        }
                    },
            ),
        ),
    }
}

impl View for Value {
    type V = Tree;

    open spec fn view(&self) -> Tree {
        tree_of(*self)
    }
}

impl DeepView for Value {
    type V = Tree;

    open spec fn deep_view(&self) -> Tree {
        self.view()
    }
}

/// The merge of two trees: tables merge key by key, and for a key that both
/// hold the values merge in turn; in every other case the later tree wins.
pub open spec fn merge_trees(base: Tree, over: Tree) -> Tree
    decreases over,
{
    match (base, over) {
        (Tree::Table(a), Tree::Table(b)) => Tree::Table(
            Map::new(
                |k: Seq<char>| a.contains_key(k) || b.contains_key(k),
                |k: Seq<char>|
                    if b.contains_key(k) {
                        if a.contains_key(k) {
                            merge_trees(a[k], b[k])
                        } else {
                            b[k]
                        }
                    } else {
                        a[k]
                    },
            ),
        ),
        _ => over,
    }
}

/// What a tree holds at the end of a path of keys, if the path leads through
/// tables to something.
pub open spec fn at_path(tree: Tree, path: Seq<Seq<char>>) -> Option<Tree>
    decreases path.len(),
{
    if path.len() == 0 {
        Some(tree)
    } else {
        match tree {
            Tree::Table(table) => if table.contains_key(path[0]) {
                at_path(table[path[0]], path.drop_first())
            } else {
                None
            },
            _ => None,
        }
    }
}

/// `true` when a tree says nothing of a path: the path is not empty, and the
/// tree is a table that lacks the path's first key or says nothing of the
/// rest of the path under it.
pub open spec fn silent_on(tree: Tree, path: Seq<Seq<char>>) -> bool
    decreases path.len(),
{
    path.len() > 0 && match tree {
        Tree::Table(table) => !table.contains_key(path[0]) || silent_on(
            table[path[0]],
            path.drop_first(),
        ),
        _ => false,
    }
}

/// The later value wins wherever the two are not both tables.
pub proof fn lemma_merge_later_wins(base: Tree, over: Tree)
    requires
        !(base is Table) || !(over is Table),
    ensures
        merge_trees(base, over) == over,
{
}

/// Two tables merge key by key: the merge holds the keys of both; a key of
/// both holds the merge of the two values, a key of one holds that one's
/// value.
pub proof fn lemma_merge_tables(base: Map<Seq<char>, Tree>, over: Map<Seq<char>, Tree>, key: Seq<char>)
    ensures
        merge_trees(Tree::Table(base), Tree::Table(over)) is Table,
        merge_trees(Tree::Table(base), Tree::Table(over))->Table_0.contains_key(key) <==> (
        base.contains_key(key) || over.contains_key(key)),
        base.contains_key(key) && over.contains_key(key) ==> merge_trees(
            Tree::Table(base),
            Tree::Table(over),
        )->Table_0[key] == merge_trees(base[key], over[key]),
        !base.contains_key(key) && over.contains_key(key) ==> merge_trees(
            Tree::Table(base),
            Tree::Table(over),
        )->Table_0[key] == over[key],
        base.contains_key(key) && !over.contains_key(key) ==> merge_trees(
            Tree::Table(base),
            Tree::Table(over),
        )->Table_0[key] == base[key],
{
}

/// Merging onto an empty table gives the later value.
pub proof fn lemma_merge_onto_empty(over: Tree)
    ensures
        merge_trees(Tree::Table(Map::<Seq<char>, Tree>::empty()), over) == over,
{
    match over {
        Tree::Table(table) => {
            assert(merge_trees(Tree::Table(Map::<Seq<char>, Tree>::empty()), over)->Table_0
                =~= table);
        },
        _ => {},
    }
}

/// Last wins, at any depth: a value that the later tree holds at a path, and
/// that is no table, is what the merge holds at that path.
pub proof fn lemma_merge_later_leaf(base: Tree, over: Tree, path: Seq<Seq<char>>)
    requires
        at_path(over, path) is Some,
        !(at_path(over, path)->Some_0 is Table),
    ensures
        at_path(merge_trees(base, over), path) == at_path(over, path),
    decreases path.len(),
{
    if path.len() > 0 {
        let key = path[0];
        let later = over->Table_0;
        match base {
            Tree::Table(earlier) => {
                lemma_merge_tables(earlier, later, key);
                if earlier.contains_key(key) {
                    lemma_merge_later_leaf(earlier[key], later[key], path.drop_first());
                }
            },
            _ => {},
        }
    }
}

/// Tables merge in depth: what the earlier tree holds at a path of which the
/// later tree says nothing is what the merge holds at that path.
pub proof fn lemma_merge_keeps_earlier(base: Tree, over: Tree, path: Seq<Seq<char>>)
    requires
        at_path(base, path) is Some,
        silent_on(over, path),
    ensures
        at_path(merge_trees(base, over), path) == at_path(base, path),
    decreases path.len(),
{
    let key = path[0];
    let earlier = base->Table_0;
    let later = over->Table_0;
    lemma_merge_tables(earlier, later, key);
    if later.contains_key(key) {
        lemma_merge_keeps_earlier(earlier[key], later[key], path.drop_first());
    }
}

/// Appending an entry changes what a key finds only if nothing held the key before.
pub proof fn lemma_key_index_push(entries: Seq<(String, Value)>, entry: (String, Value), key: Seq<char>)
    ensures
        key_index(entries.push(entry), key) == if key_index(entries, key) >= 0 {
            key_index(entries, key)
        } else if entry.0@ == key {
            entries.len() as int
        } else {
            -1
        },
{
    assert(entries.push(entry).drop_last() =~= entries);
}

/// Two entry lists with the same keys at the same places find the same index for every key.
pub proof fn lemma_key_index_same_keys(a: Seq<(String, Value)>, b: Seq<(String, Value)>, key: Seq<char>)
    requires
        a.len() == b.len(),
        forall|i: int| 0 <= i < a.len() ==> (#[trigger] a[i]).0@ == b[i].0@,
    ensures
        key_index(a, key) == key_index(b, key),
    decreases a.len(),
{
    if a.len() > 0 {
        assert forall|i: int| 0 <= i < a.drop_last().len() implies (#[trigger] a.drop_last()[i]).0@
            == b.drop_last()[i].0@ by {
            assert(a.drop_last()[i] == a[i]);
            assert(b.drop_last()[i] == b[i]);
        }
        lemma_key_index_same_keys(a.drop_last(), b.drop_last(), key);
    }
}

/// The index of the first entry that holds `key`, if any does.
pub fn find_key(entries: &Vec<(String, Value)>, key: &String) -> (found: Option<usize>)
    ensures
        match found {
            Some(i) => i < entries@.len() && key_index(entries@, key@) == i && entries@[i as int].0@
                == key@,
            None => key_index(entries@, key@) < 0,
        },
{
    let mut i: usize = 0;
    while i < entries.len()
        invariant
            i <= entries@.len(),
            forall|j: int| 0 <= j < i ==> (#[trigger] entries@[j]).0@ != key@,
        decreases entries@.len() - i,
    {
        if entries[i].0 == *key {
            proof {
                lemma_key_index(entries@, key@);
            }
            return Some(i);
        }
        i += 1;
    }
    proof {
        lemma_key_index(entries@, key@);
    }
    None
}

/// What the model of a table holds: the keys that some entry has, each with
/// the tree of the first entry that has it.
pub proof fn lemma_table_model(entries: Vec<(String, Value)>)
    ensures
        Value::Table(entries)@ is Table,
        forall|k: Seq<char>| #[trigger]
            Value::Table(entries)@->Table_0.contains_key(k) <==> key_index(entries@, k) >= 0,
        forall|k: Seq<char>|
            key_index(entries@, k) >= 0 ==> 0 <= key_index(entries@, k) < entries@.len()
                && #[trigger] Value::Table(entries)@->Table_0[k] == entries@[key_index(
                entries@,
                k,
            )].1@,
{
    assert forall|k: Seq<char>| key_index(entries@, k) >= 0 implies 0 <= key_index(entries@, k)
        < entries@.len() by {
        lemma_key_index(entries@, k);
    }
}

/// What the model of a list holds: the tree of each item, in order.
pub proof fn lemma_list_model(items: Vec<Value>)
    ensures
        Value::List(items)@ is List,
        Value::List(items)@->List_0.len() == items@.len(),
        forall|i: int|
            0 <= i < items@.len() ==> #[trigger] Value::List(items)@->List_0[i] == items@[i]@,
{
}

impl Value {
    /// An empty table.
    pub fn new_map() -> (table: Value)
        ensures
            table@ == Tree::Table(Map::<Seq<char>, Tree>::empty()),
    {
        let table = Value::Table(Vec::new());
        proof {
            assert(table@->Table_0 =~= Map::<Seq<char>, Tree>::empty());
        }
        table
    }

    /// `true` for a table.
    pub fn is_map(&self) -> (yes: bool)
        ensures
            yes == (self@ is Table),
    {
        match self {
            Value::Table(_) => true,
            _ => false,
        }
    }

    /// The value that a table holds under `key`; `None` for a missing key and
    /// for a value that is no table.
    pub fn get(&self, key: &String) -> (found: Option<&Value>)
        ensures
            match found {
                Some(value) => self@ is Table && self@->Table_0.contains_key(key@)
                    && self@->Table_0[key@] == value@,
                None => !(self@ is Table) || !self@->Table_0.contains_key(key@),
            },
    {
        match self {
            Value::Table(entries) => {
                proof {
                    lemma_table_model(*entries);
                }
                match find_key(entries, key) {
                    Some(i) => Some(&entries[i].1),
                    None => None,
                }
            },
            _ => None,
        }
    }

    /// Puts `value` under `key` in a table, in place of what the key held.
    pub fn insert(&mut self, key: String, value: Value)
        requires
            old(self)@ is Table,
        ensures
            final(self)@ == Tree::Table(old(self)@->Table_0.insert(key@, value@)),
    {
        match self {
            Value::Table(entries) => {
                let ghost before = *entries;
                let found = find_key(entries, &key);
                let ghost entry = (key, value);
                match found {
                    Some(i) => {
                        entries.set(i, (key, value));
                        proof {
                            assert forall|k: Seq<char>| #[trigger]
                                key_index(entries@, k) == key_index(before@, k) by {
                                lemma_key_index_same_keys(entries@, before@, k);
                            }
                        }
                    },
                    None => {
                        entries.push((key, value));
                        proof {
                            assert forall|k: Seq<char>| #[trigger]
                                key_index(entries@, k) == if key_index(before@, k) >= 0 {
                                    key_index(before@, k)
                                } else if entry.0@ == k {
                                    before@.len() as int
                                } else {
                                    -1
                                } by {
                                lemma_key_index_push(before@, entry, k);
                            }
                        }
                    },
                }
                proof {
                    let after = Value::Table(*entries)@->Table_0;
                    let wanted = Value::Table(before)@->Table_0.insert(entry.0@, entry.1@);
                    lemma_table_model(*entries);
                    lemma_table_model(before);
                    assert forall|k: Seq<char>| #[trigger]
                        after.dom().contains(k) == wanted.dom().contains(k) by {
                        lemma_key_index(before@, k);
                        assert(after.contains_key(k) <==> key_index(entries@, k) >= 0);
                        assert(Value::Table(before)@->Table_0.contains_key(k) <==> key_index(
                            before@,
                            k,
                        ) >= 0);
                    }
                    assert forall|k: Seq<char>| after.dom().contains(k) implies #[trigger] after[k]
                        == wanted[k] by {
                        lemma_key_index(before@, k);
                        assert(after.contains_key(k));
                        assert(key_index(entries@, k) >= 0);
                    }
                    assert(after =~= wanted);
                }
            },
            _ => {},
        }
    }

    /// The name of the kind of value: `boolean`, `integer`, `float`, `string`,
    /// `list` or `map`.
    pub fn kind_name(&self) -> (name: String)
        ensures
            name@ == kind_name(self@),
    {
        match self {
            Value::Bool(_) => "boolean".to_string(),
            Value::Int(_) => "integer".to_string(),
            Value::Float(_) => "float".to_string(),
            Value::Str(_) => "string".to_string(),
            Value::List(_) => "list".to_string(),
            Value::Table(_) => "map".to_string(),
        }
    }

    /// Structural equality: `true` exactly when both values stand for the same
    /// tree. The order of a table's entries plays no part.
    #[verifier::loop_isolation(false)]
    pub fn same_as(&self, other: &Value) -> (same: bool)
        ensures
            same == (self@ == other@),
        decreases self,
    {
        match self {
            Value::Bool(a) => match other {
                Value::Bool(b) => *a == *b,
                _ => false,
            },
            Value::Int(a) => match other {
                Value::Int(b) => *a == *b,
                _ => false,
            },
            Value::Float(a) => match other {
                Value::Float(b) => *a == *b,
                _ => false,
            },
            Value::Str(a) => match other {
                Value::Str(b) => *a == *b,
                _ => false,
            },
            Value::List(a) => match other {
                Value::List(b) => {
                    proof {
                        lemma_list_model(*a);
                        lemma_list_model(*b);
                    }
                    if a.len() != b.len() {
                        return false;
                    }
                    let mut i: usize = 0;
                    while i < a.len()
                        invariant
                            i <= a@.len(),
                            a@.len() == b@.len(),
                            forall|j: int| 0 <= j < i ==> (#[trigger] a@[j])@ == b@[j]@,
                        decreases a@.len() - i,
                    {
                        if !a[i].same_as(&b[i]) {
                            proof {
                                lemma_list_model(*a);
                                lemma_list_model(*b);
                                assert(self@->List_0[i as int] != other@->List_0[i as int]);
                            }
                            return false;
                        }
                        i += 1;
                    }
                    proof {
                        lemma_list_model(*a);
                        lemma_list_model(*b);
                        assert(self@->List_0 =~= other@->List_0);
                    }
                    true
                },
                _ => false,
            },
            Value::Table(a) => match other {
                Value::Table(b) => {
                    let mut i: usize = 0;
                    while i < a.len()
                        invariant
                            i <= a@.len(),
                            forall|j: int|
                                0 <= j < i ==> 0 <= key_index(b@, (#[trigger] a@[j]).0@) < b@.len()
                                    && 0 <= key_index(a@, a@[j].0@) < a@.len() && a@[key_index(
                                    a@,
                                    a@[j].0@,
                                )].1@ == b@[key_index(b@, a@[j].0@)].1@,
                        decreases a@.len() - i,
                    {
                        proof {
                            lemma_table_model(*a);
                            lemma_table_model(*b);
                            lemma_key_index(a@, a@[i as int].0@);
                        }
                        let first = match find_key(a, &a[i].0) {
                            Some(first) => first,
                            None => i,
                        };
                        match find_key(b, &a[i].0) {
                            Some(j) => {
                                if !a[first].1.same_as(&b[j].1) {
                                    proof {
                                        let k = a@[i as int].0@;
                                        assert(self@->Table_0[k] != other@->Table_0[k]);
                                    }
                                    return false;
                                }
                            },
                            None => {
                                proof {
                                    let k = a@[i as int].0@;
                                    assert(self@->Table_0.contains_key(k));
                                    assert(!other@->Table_0.contains_key(k));
                                }
                                return false;
                            },
                        }
                        i += 1;
                    }
                    let mut j: usize = 0;
                    while j < b.len()
                        invariant
                            j <= b@.len(),
                            forall|i: int| 0 <= i < j ==> key_index(a@, (#[trigger] b@[i]).0@) >= 0,
                        decreases b@.len() - j,
                    {
                        if find_key(a, &b[j].0).is_none() {
                            proof {
                                lemma_table_model(*a);
                                lemma_table_model(*b);
                                lemma_key_index(b@, b@[j as int].0@);
                                let k = b@[j as int].0@;
                                assert(other@->Table_0.contains_key(k));
                                assert(!self@->Table_0.contains_key(k));
                            }
                            return false;
                        }
                        j += 1;
                    }
                    proof {
                        lemma_table_model(*a);
                        lemma_table_model(*b);
                        assert forall|k: Seq<char>| #[trigger] key_index(a@, k) >= 0 implies key_index(b@, k)
                            >= 0 && self@->Table_0[k] == other@->Table_0[k] by {
                            lemma_key_index(a@, k);
                            assert(a@[key_index(a@, k)].0@ == k);
                        }
                        assert forall|k: Seq<char>| #[trigger] key_index(b@, k) >= 0 implies key_index(a@, k)
                            >= 0 by {
                            lemma_key_index(b@, k);
                            assert(b@[key_index(b@, k)].0@ == k);
                        }
                        assert(self@->Table_0 =~= other@->Table_0);
                    }
                    true
                },
                _ => false,
            },
        }
    }

    /// The merge of `self` with a later value: see [`merge_trees`].
    #[verifier::loop_isolation(false)]
    pub fn merged(&self, over: &Value) -> (merged: Value)
        ensures
            merged@ == merge_trees(self@, over@),
        decreases over,
    {
        match over {
            Value::Table(b) => match self {
                Value::Table(a) => {
                let mut out: Vec<(String, Value)> = Vec::new();
                let mut i: usize = 0;
                while i < a.len()
                    invariant
                        i <= a@.len(),
                        out@.len() == i,
                        forall|j: int| 0 <= j < i ==> (#[trigger] out@[j]).0@ == a@[j].0@,
                        forall|j: int|
                            0 <= j < i ==> (#[trigger] out@[j]).1@ == if key_index(b@, a@[j].0@)
                                >= 0 {
                                merge_trees(a@[j].1@, b@[key_index(b@, a@[j].0@)].1@)
                            } else {
                                a@[j].1@
                            },
                    decreases a@.len() - i,
                {
                    let value = match find_key(b, &a[i].0) {
                        Some(j) => a[i].1.merged(&b[j].1),
                        None => a[i].1.clone(),
                    };
                    out.push((a[i].0.clone(), value));
                    i += 1;
                }
                let ghost kept = out@;
                proof {
                    assert forall|k: Seq<char>| key_index(kept, k) == key_index(a@, k) by {
                        lemma_key_index_same_keys(kept, a@, k);
                    }
                }
                let mut j: usize = 0;
                while j < b.len()
                    invariant
                        j <= b@.len(),
                        kept.len() == a@.len(),
                        out@.len() >= kept.len(),
                        out@.subrange(0, kept.len() as int) == kept,
                        forall|k: Seq<char>| key_index(kept, k) == key_index(a@, k),
                        forall|k: Seq<char>|
                            key_index(a@, k) >= 0 ==> #[trigger] key_index(out@, k) == key_index(
                                a@,
                                k,
                            ),
                        forall|k: Seq<char>|
                            key_index(a@, k) < 0 ==> (#[trigger] key_index(out@, k) >= 0 <==> 0
                                <= key_index(b@, k) < j),
                        forall|k: Seq<char>|
                            key_index(a@, k) < 0 && #[trigger] key_index(out@, k) >= 0
                                ==> key_index(out@, k) < out@.len() && out@[key_index(out@, k)].1@
                                == b@[key_index(b@, k)].1@,
                    decreases b@.len() - j,
                {
                    let ghost before = out@;
                    proof {
                        lemma_key_index(b@, b@[j as int].0@);
                    }
                    if find_key(a, &b[j].0).is_none() {
                        let entry = (b[j].0.clone(), b[j].1.clone());
                        out.push(entry);
                        proof {
                            assert(out@.subrange(0, kept.len() as int) =~= kept);
                            assert forall|k: Seq<char>|
                                key_index(a@, k) >= 0 implies #[trigger] key_index(out@, k)
                                == key_index(a@, k) by {
                                lemma_key_index_push(before, entry, k);
                            }
                            assert forall|k: Seq<char>| key_index(a@, k) < 0 implies (
                            #[trigger] key_index(out@, k) >= 0 <==> 0 <= key_index(b@, k) < j + 1) by {
                                lemma_key_index_push(before, entry, k);
                                lemma_key_index(b@, k);
                            }
                            assert forall|k: Seq<char>|
                                key_index(a@, k) < 0 && #[trigger] key_index(out@, k) >= 0 implies key_index(
                                out@,
                                k,
                            ) < out@.len() && out@[key_index(out@, k)].1@ == b@[key_index(
                                b@,
                                k,
                            )].1@ by {
                                lemma_key_index_push(before, entry, k);
                                lemma_key_index(b@, k);
                            }
                        }
                    } else {
                        proof {
                            assert forall|k: Seq<char>| key_index(a@, k) < 0 implies (
                            #[trigger] key_index(out@, k) >= 0 <==> 0 <= key_index(b@, k) < j + 1) by {
                                lemma_key_index(b@, k);
                            }
                        }
                    }
                    j += 1;
                }
                let merged = Value::Table(out);
                proof {
                    lemma_table_model(out);
                    lemma_table_model(*a);
                    lemma_table_model(*b);
                    assert forall|k: Seq<char>| key_index(b@, k) < b@.len() by {
                        lemma_key_index(b@, k);
                    }
                    assert forall|k: Seq<char>|
                        key_index(a@, k) >= 0 implies #[trigger] merged@->Table_0[k] == merge_trees(
                        self@,
                        over@,
                    )->Table_0[k] by {
                        let at = key_index(a@, k);
                        lemma_key_index(a@, k);
                        assert(out@[at] == out@.subrange(0, kept.len() as int)[at]);
                    }
                    assert(merged@->Table_0 =~= merge_trees(self@, over@)->Table_0);
                }
                merged
                },
                _ => over.clone(),
            },
            _ => over.clone(),
        }
    }
}

/// Makes `plugx_input::Input` known as a type; nothing is known of what a
/// value of it holds but through [`outside_tree`].
#[verifier::external_type_specification]
#[verifier::external_body]
pub struct ExValue(plugx_input::Input);

/// The tree that a `plugx_input::Input` holds: its scalars, the items of its
/// lists in order, and the entries of its maps by key. A float counts as its
/// bit pattern.
pub uninterp spec fn outside_tree(outside: plugx_input::Input) -> Tree;

/// Turns a `plugx_input::Input` into a [`Value`] that holds the same tree,
/// variant by variant; a float goes over as its bit pattern, a map as the
/// list of its entries.
#[verifier::external_body]
pub(crate) fn from_outside(outside: &plugx_input::Input) -> (value: Value)
    ensures
        value@ == outside_tree(*outside),
{
    match outside {
        plugx_input::Input::Bool(b) => Value::Bool(*b),
        plugx_input::Input::Int(i) => Value::Int(*i),
        plugx_input::Input::Float(x) => Value::Float(x.to_bits()),
        plugx_input::Input::Str(s) => Value::Str(s.clone()),
        plugx_input::Input::List(l) => Value::List(l.iter().map(from_outside).collect()),
        plugx_input::Input::Map(m) => Value::Table(
            m.iter().map(|(k, v)| (k.clone(), from_outside(v))).collect(),
        ),
    }
}

impl PartialEq for Value {
    fn eq(&self, other: &Self) -> (same: bool) {
        self.same_as(other)
    }
}

impl vstd::std_specs::cmp::PartialEqSpecImpl for Value {
    open spec fn obeys_eq_spec() -> bool {
        true
    }

    open spec fn eq_spec(&self, other: &Self) -> bool {
        self@ == other@
    }
}

impl Clone for Value {
    #[verifier::loop_isolation(false)]
    fn clone(&self) -> (copy: Self)
        ensures
            copy@ == self@,
        decreases self,
    {
        match self {
            Value::Bool(b) => Value::Bool(*b),
            Value::Int(i) => Value::Int(*i),
            Value::Float(bits) => Value::Float(*bits),
            Value::Str(s) => Value::Str(s.clone()),
            Value::List(items) => {
                let mut out: Vec<Value> = Vec::new();
                let mut i: usize = 0;
                while i < items.len()
                    invariant
                        i <= items@.len(),
                        out@.len() == i,
                        forall|j: int| 0 <= j < i ==> (#[trigger] out@[j])@ == items@[j]@,
                    decreases items@.len() - i,
                {
                    out.push(items[i].clone());
                    i += 1;
                }
                let copy = Value::List(out);
                proof {
                    assert(copy@->List_0 =~= self@->List_0);
                }
                copy
            },
            Value::Table(entries) => {
                let mut out: Vec<(String, Value)> = Vec::new();
                let mut i: usize = 0;
                while i < entries.len()
                    invariant
                        i <= entries@.len(),
                        out@.len() == i,
                        forall|j: int| 0 <= j < i ==> (#[trigger] out@[j]).0@ == entries@[j].0@,
                        forall|j: int| 0 <= j < i ==> (#[trigger] out@[j]).1@ == entries@[j].1@,
                    decreases entries@.len() - i,
                {
                    out.push((entries[i].0.clone(), entries[i].1.clone()));
                    i += 1;
                }
                let copy = Value::Table(out);
                proof {
                    assert forall|k: Seq<char>| key_index(out@, k) == key_index(entries@, k) by {
                        lemma_key_index_same_keys(out@, entries@, k);
                    }
                    assert(copy@->Table_0 =~= self@->Table_0);
                }
                copy
            },
        }
    }
}

} // verus!
