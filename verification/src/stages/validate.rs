//! The Validate stage: the merged configuration of each plugin is held to
//! the schema that is declared for it.
use crate::error::Error;
use crate::value::Value;
use vstd::prelude::*;

verus! {

/// The index of the first of `names` that is `name`, or `-1`.
pub open spec fn name_index(names: Seq<String>, name: Seq<char>) -> int
    decreases names.len(),
{
    if names.len() == 0 {
        -1
    } else {
        let before = name_index(names.drop_last(), name);
        if before >= 0 {
            before
        } else if names.last()@ == name {
            names.len() - 1
        } else {
            -1
        }
    }
}

/// What `name_index` finds: the least index that holds the name.
pub proof fn lemma_name_index(names: Seq<String>, name: Seq<char>)
    ensures
        -1 <= name_index(names, name) < names.len(),
        name_index(names, name) >= 0 ==> names[name_index(names, name)]@ == name,
        forall|j: int|
            0 <= j < names.len() && (name_index(names, name) < 0 || j < name_index(names, name))
                ==> (#[trigger] names[j])@ != name,
    decreases names.len(),
{
    if names.len() > 0 {
        lemma_name_index(names.drop_last(), name);
        assert forall|j: int|
            0 <= j < names.len() && (name_index(names, name) < 0 || j < name_index(names, name))
            implies (#[trigger] names[j])@ != name by {
            if j < names.len() - 1 {
                assert(names.drop_last()[j] == names[j]);
            }
        }
    }
}

/// The number of the first schema that is declared for the plugin `name`, if
/// one is. `schema_list` names, schema by schema, the plugin it is for.
pub fn find_schema(schema_list: &[String], name: &String) -> (found: Option<usize>)
    ensures
        match found {
            Some(i) => i < schema_list@.len() && name_index(schema_list@, name@) == i,
            None => name_index(schema_list@, name@) < 0,
        },
{
    proof {
        lemma_name_index(schema_list@, name@);
    }
    crate::text::position_of(schema_list, name)
}

/// What the Validate stage makes of one plugin: without a schema the value
/// stays as it is; with one, the value is what the schema left, or the
/// schema's refusal becomes the stage's error, which names the plugin.
pub fn settle_validation(plugin_name: &String, value: &Value, checked: Option<Result<Value, String>>) -> (settled:
    Result<Value, Error>)
    ensures
        match checked {
            None => settled is Ok && settled->Ok_0@ == value@,
            Some(Ok(left)) => settled == Ok::<Value, Error>(left),
            Some(Err(refusal)) => match settled {
                Err(Error::Validate { plugin_name: named, source }) => named@ == plugin_name@
                    && source == refusal,
                _ => false,
            },
        },
{
    match checked {
        None => Ok(value.clone()),
        Some(Ok(left)) => Ok(left),
        Some(Err(refusal)) => Err(
            Error::Validate { plugin_name: plugin_name.clone(), source: refusal },
        ),
    }
}

/// `true` when `after` is what the Validate stage may make of the plugin
/// `name` with the value `before`: the same value where no schema is declared
/// for the plugin, else a value that `check` may leave for its schema.
pub open spec fn passes<C: Fn(usize, &Value, &String) -> Result<Value, String>>(
    schemas: Seq<String>,
    check: &C,
    name: String,
    before: Value,
    after: Value,
) -> bool {
    let at = name_index(schemas, name@);
    if at >= 0 {
        call_ensures(*check, (at as usize, &before, &name), Ok::<Value, String>(after))
    } else {
        after@ == before@
    }
}

/// The Validate stage: holds the merged configuration of each plugin to the
/// first schema that is declared for it, in the order of the plugins.
/// `schema_list` names, schema by schema, the plugin it is for; `check` asks
/// the schema with the given number what it makes of a plugin's value: the
/// value as the schema leaves it, or its refusal. A plugin without a schema
/// is left as it is. The first refusal ends the stage, and names the plugin.
pub fn validate<C: Fn(usize, &Value, &String) -> Result<Value, String>>(
    plugin_configuration_list: &[(String, Value)],
    schema_list: &[String],
    check: &C,
) -> (validated: Result<Vec<(String, Value)>, Error>)
    requires
        forall|at: usize, value: &Value, name: &String| #[trigger] check.requires((at, value, name)),
    ensures
        match validated {
            Ok(list) => {
                &&& list@.len() == plugin_configuration_list@.len()
                &&& forall|i: int|
                    0 <= i < list@.len() ==> (#[trigger] list@[i]).0@
                        == plugin_configuration_list@[i].0@ && passes(
                        schema_list@,
                        check,
                        plugin_configuration_list@[i].0,
                        plugin_configuration_list@[i].1,
                        list@[i].1,
                    )
            },
            Err(error) => match error {
                Error::Validate { plugin_name, source } => exists|i: int|
                    0 <= i < plugin_configuration_list@.len() && #[trigger] refused_at(
                        plugin_configuration_list@,
                        schema_list@,
                        check,
                        i,
                        plugin_name,
                        source,
                    ),
                _ => false,
            },
        },
        (forall|i: int|
            0 <= i < plugin_configuration_list@.len() ==> name_index(
                schema_list@,
                (#[trigger] plugin_configuration_list@[i]).0@,
            ) < 0) ==> validated is Ok,
{
    let mut result: Vec<(String, Value)> = Vec::new();
    let mut i: usize = 0;
    while i < plugin_configuration_list.len()
        invariant
            i <= plugin_configuration_list@.len(),
            result@.len() == i,
            forall|at: usize, value: &Value, name: &String| #[trigger]
                check.requires((at, value, name)),
            forall|j: int|
                0 <= j < i ==> (#[trigger] result@[j]).0@ == plugin_configuration_list@[j].0@
                    && passes(
                    schema_list@,
                    check,
                    plugin_configuration_list@[j].0,
                    plugin_configuration_list@[j].1,
                    result@[j].1,
                ),
        decreases plugin_configuration_list@.len() - i,
    {
        let plugin_name = &plugin_configuration_list[i].0;
        let configuration = &plugin_configuration_list[i].1;
        let checked = match find_schema(schema_list, plugin_name) {
            Some(at) => Some(check(at, configuration, plugin_name)),
            None => None,
        };
        match settle_validation(plugin_name, configuration, checked) {
            Ok(value) => {
                result.push((plugin_name.clone(), value));
            },
            Err(error) => {
                proof {
                    assert forall|j: int| 0 <= j < i implies may_pass(
                        schema_list@,
                        check,
                        (#[trigger] plugin_configuration_list@[j]).0,
                        plugin_configuration_list@[j].1,
                    ) by {
                        assert(passes(
                            schema_list@,
                            check,
                            plugin_configuration_list@[j].0,
                            plugin_configuration_list@[j].1,
                            result@[j].1,
                        ));
                    }
                    assert(refused_at(
                        plugin_configuration_list@,
                        schema_list@,
                        check,
                        i as int,
                        error->Validate_plugin_name,
                        error->Validate_source,
                    ));
                }
                return Err(error);
            },
        }
        i += 1;
    }
    Ok(result)
}

/// `true` when the plugin number `i` has a schema and `check` may refuse its
/// value for that schema with `source`, while each plugin before it may
/// pass; `plugin_name` is the plugin's name.
pub open spec fn refused_at<C: Fn(usize, &Value, &String) -> Result<Value, String>>(
    plugins: Seq<(String, Value)>,
    schemas: Seq<String>,
    check: &C,
    i: int,
    plugin_name: String,
    source: String,
) -> bool {
    &&& 0 <= i < plugins.len()
    &&& plugin_name@ == plugins[i].0@
    &&& name_index(schemas, plugins[i].0@) >= 0
    &&& call_ensures(
        *check,
        (name_index(schemas, plugins[i].0@) as usize, &plugins[i].1, &plugins[i].0),
        Err::<Value, String>(source),
    )
    &&& forall|j: int|
        0 <= j < i ==> may_pass(schemas, check, (#[trigger] plugins[j]).0, plugins[j].1)
}

/// `true` when the Validate stage may let the plugin's value pass: see
/// [`passes`].
pub open spec fn may_pass<C: Fn(usize, &Value, &String) -> Result<Value, String>>(
    schemas: Seq<String>,
    check: &C,
    name: String,
    before: Value,
) -> bool {
    exists|after: Value| #[trigger] passes(schemas, check, name, before, after)
}

} // verus!
