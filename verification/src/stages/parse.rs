//! The Parse stage: every entity that has no parsed value gets the value
//! that parsing its contents gives.
use crate::entity::ConfigurationEntity;
use crate::entity::may_parse;
use crate::error::Error;
use crate::parser::Parser;
use crate::registry::Registered;
use crate::value::Value;
use vstd::prelude::*;

verus! {

/// `true` when `after` is `before` with a parsed value: the one it had, or
/// else one that parsing its contents may give. Nothing else differs.
pub open spec fn parsed_from<P: Parser>(
    before: ConfigurationEntity,
    after: ConfigurationEntity,
    parsers: Seq<Registered<P>>,
) -> bool {
    &&& after == (ConfigurationEntity { maybe_parsed: after.maybe_parsed, ..before })
    &&& match before.maybe_parsed {
        Some(_) => after.maybe_parsed == before.maybe_parsed,
        None => after.maybe_parsed is Some && may_parse(
            before,
            parsers,
            Ok::<Value, crate::parser::Error>(after.maybe_parsed->Some_0),
        ),
    }
}

/// `true` when the two states hold the same plugins with as many entities
/// each.
pub open spec fn same_shape(
    before: Seq<(String, Vec<ConfigurationEntity>)>,
    after: Seq<(String, Vec<ConfigurationEntity>)>,
) -> bool {
    &&& after.len() == before.len()
    &&& forall|i: int|
        0 <= i < before.len() ==> (#[trigger] after[i]).0 == before[i].0 && after[i].1@.len()
            == before[i].1@.len()
}

/// `true` when every entity of `after` is the entity of `before` at its place
/// with a parsed value: see [`parsed_from`].
pub open spec fn all_parsed<P: Parser>(
    before: Seq<(String, Vec<ConfigurationEntity>)>,
    after: Seq<(String, Vec<ConfigurationEntity>)>,
    parsers: Seq<Registered<P>>,
) -> bool {
    forall|i: int, j: int|
        0 <= i < before.len() && 0 <= j < before[i].1@.len() ==> parsed_from(
            before[i].1@[j],
            #[trigger] after[i].1@[j],
            parsers,
        )
}

/// `true` when the Parse stage stopped at the entity number `j` of the plugin
/// number `i`: every entity before it, in the order of the plugins and of
/// each plugin's entities, has a parsed value, and it and every entity after
/// it are as they were.
pub open spec fn stopped_at<P: Parser>(
    before: Seq<(String, Vec<ConfigurationEntity>)>,
    after: Seq<(String, Vec<ConfigurationEntity>)>,
    i: int,
    j: int,
    parsers: Seq<Registered<P>>,
) -> bool {
    forall|a: int, b: int|
        0 <= a < before.len() && 0 <= b < before[a].1@.len() ==> if a < i || (a == i && b < j) {
            parsed_from(before[a].1@[b], #[trigger] after[a].1@[b], parsers)
        } else {
            after[a].1@[b] == before[a].1@[b]
        }
}

/// `true` when `error` says that parsing the entity number `j` of the plugin
/// number `i` failed: the entity had no parsed value, the error names the
/// plugin and the entity's source, and its cause is something that parsing
/// the entity's contents may give.
pub open spec fn fails_at<P: Parser>(
    state: Seq<(String, Vec<ConfigurationEntity>)>,
    i: int,
    j: int,
    parsers: Seq<Registered<P>>,
    error: Error,
) -> bool {
    &&& 0 <= i < state.len()
    &&& 0 <= j < state[i].1@.len()
    &&& state[i].1@[j].maybe_parsed is None
    &&& match error {
        Error::Parse { plugin_name, url, source } => {
            &&& plugin_name@ == state[i].0@
            &&& url@ == state[i].1@[j].url@
            &&& may_parse(state[i].1@[j], parsers, Err::<Value, crate::parser::Error>(source))
        },
        _ => false,
    }
}

/// Parses the entities of one plugin in order, up to the first that fails;
/// the failure comes back with the number of its entity.
fn parse_entities<P: Parser>(
    configuration_list: &mut Vec<ConfigurationEntity>,
    parser_list: &[Registered<P>],
) -> (parsed: Result<(), (usize, crate::parser::Error)>)
    ensures
        final(configuration_list)@.len() == old(configuration_list)@.len(),
        forall|j: int|
            0 <= j < old(configuration_list)@.len() ==> (#[trigger] final(configuration_list)@[j])
                == old(configuration_list)@[j] || parsed_from(
                old(configuration_list)@[j],
                final(configuration_list)@[j],
                parser_list@,
            ),
        match parsed {
            Ok(()) => forall|j: int|
                0 <= j < old(configuration_list)@.len() ==> parsed_from(
                    old(configuration_list)@[j],
                    #[trigger] final(configuration_list)@[j],
                    parser_list@,
                ),
            Err((at, error)) => {
                &&& at < old(configuration_list)@.len()
                &&& old(configuration_list)@[at as int].maybe_parsed is None
                &&& may_parse(
                    old(configuration_list)@[at as int],
                    parser_list@,
                    Err::<Value, crate::parser::Error>(error),
                )
                &&& forall|j: int|
                    0 <= j < at ==> parsed_from(
                        old(configuration_list)@[j],
                        #[trigger] final(configuration_list)@[j],
                        parser_list@,
                    )
                &&& forall|j: int|
                    at <= j < old(configuration_list)@.len()
                        ==> #[trigger] final(configuration_list)@[j] == old(
                        configuration_list,
                    )@[j]
            },
        },
{
    let ghost before = configuration_list@;
    let mut j: usize = 0;
    while j < configuration_list.len()
        invariant
            j <= configuration_list@.len(),
            before == old(configuration_list)@,
            configuration_list@.len() == before.len(),
            forall|k: int|
                0 <= k < j ==> parsed_from(before[k], #[trigger] configuration_list@[k], parser_list@),
            forall|k: int| j <= k < before.len() ==> #[trigger] configuration_list@[k] == before[k],
        decreases configuration_list@.len() - j,
    {
        if configuration_list[j].maybe_parsed.is_none() {
            match configuration_list[j].parse_contents(parser_list) {
                Ok(value) => {
                    configuration_list[j].maybe_parsed = Some(value);
                },
                Err(error) => {
                    return Err((j, error));
                },
            }
        }
        j += 1;
    }
    Ok(())
}

/// The Parse stage: gives every entity that has no parsed value the value
/// that parsing its contents gives, plugin by plugin and entity by entity.
/// The first failure ends the stage; it is never skipped.
pub fn parse<P: Parser>(
    plugin_configuration_list: &mut Vec<(String, Vec<ConfigurationEntity>)>,
    parser_list: &[Registered<P>],
) -> (parsed: Result<(), Error>)
    ensures
        same_shape(old(plugin_configuration_list)@, final(plugin_configuration_list)@),
        match parsed {
            Ok(()) => all_parsed(
                old(plugin_configuration_list)@,
                final(plugin_configuration_list)@,
                parser_list@,
            ),
            Err(error) => exists|i: int, j: int|
                #[trigger] fails_at(old(plugin_configuration_list)@, i, j, parser_list@, error)
                    && stopped_at(
                    old(plugin_configuration_list)@,
                    final(plugin_configuration_list)@,
                    i,
                    j,
                    parser_list@,
                ),
        },
{
    let ghost before = plugin_configuration_list@;
    let mut i: usize = 0;
    while i < plugin_configuration_list.len()
        invariant
            i <= plugin_configuration_list@.len(),
            before == old(plugin_configuration_list)@,
            same_shape(before, plugin_configuration_list@),
            forall|a: int, b: int|
                0 <= a < i && 0 <= b < before[a].1@.len() ==> parsed_from(
                    before[a].1@[b],
                    #[trigger] plugin_configuration_list@[a].1@[b],
                    parser_list@,
                ),
            forall|a: int| i <= a < before.len() ==> #[trigger] plugin_configuration_list@[a] == before[a],
        decreases plugin_configuration_list@.len() - i,
    {
        let ghost earlier = plugin_configuration_list@;
        let outcome = parse_entities(&mut plugin_configuration_list[i].1, parser_list);
        proof {
            assert(plugin_configuration_list@.len() == earlier.len());
            assert(plugin_configuration_list@[i as int].0 == earlier[i as int].0);
            assert forall|a: int| 0 <= a < earlier.len() && a != i implies #[trigger] plugin_configuration_list@[a]
                == earlier[a] by {}
        }
        match outcome {
            Ok(()) => {},
            Err((at, source)) => {
                let error = Error::Parse {
                    plugin_name: plugin_configuration_list[i].0.clone(),
                    url: plugin_configuration_list[i].1[at].url.clone(),
                    source,
                };
                proof {
                    assert(plugin_configuration_list@[i as int].1@[at as int] == before[i as int].1@[at as int]
                        || parsed_from(
                        before[i as int].1@[at as int],
                        plugin_configuration_list@[i as int].1@[at as int],
                        parser_list@,
                    ));
                    assert(fails_at(before, i as int, at as int, parser_list@, error));
                    assert(stopped_at(
                        before,
                        plugin_configuration_list@,
                        i as int,
                        at as int,
                        parser_list@,
                    ));
                }
                return Err(error);
            },
        }
        i += 1;
    }
    Ok(())
}

} // verus!
