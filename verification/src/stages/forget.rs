//! Forgetting: dropping what was loaded once it is parsed, and what was
//! parsed once it is merged. Neither comes back without loading anew.
use crate::entity::ConfigurationEntity;
use crate::entity::EntityView;
use crate::stages::merge::merged_tree;
use crate::stages::parse::same_shape;
use crate::value::Tree;
use vstd::prelude::*;

verus! {

/// `true` when `after` is `before` with the raw contents of every entity
/// dropped.
pub open spec fn contents_dropped(
    before: Seq<(String, Vec<ConfigurationEntity>)>,
    after: Seq<(String, Vec<ConfigurationEntity>)>,
) -> bool {
    &&& same_shape(before, after)
    &&& forall|i: int, j: int|
        0 <= i < before.len() && 0 <= j < before[i].1@.len() ==> #[trigger] after[i].1@[j] == (
        ConfigurationEntity { maybe_contents: None, ..before[i].1@[j] })
}

/// `true` when `after` is `before` with the parsed value of every entity
/// dropped.
pub open spec fn parsed_dropped(
    before: Seq<(String, Vec<ConfigurationEntity>)>,
    after: Seq<(String, Vec<ConfigurationEntity>)>,
) -> bool {
    &&& same_shape(before, after)
    &&& forall|i: int, j: int|
        0 <= i < before.len() && 0 <= j < before[i].1@.len() ==> #[trigger] after[i].1@[j] == (
        ConfigurationEntity { maybe_parsed: None, ..before[i].1@[j] })
}

/// Drops the raw contents of the entities of one plugin.
fn forget_contents(configuration_list: &mut Vec<ConfigurationEntity>)
    ensures
        final(configuration_list)@.len() == old(configuration_list)@.len(),
        forall|j: int|
            0 <= j < old(configuration_list)@.len() ==> #[trigger] final(configuration_list)@[j]
                == (ConfigurationEntity { maybe_contents: None, ..old(configuration_list)@[j] }),
{
    let ghost before = configuration_list@;
    let mut j: usize = 0;
    while j < configuration_list.len()
        invariant
            j <= configuration_list@.len(),
            configuration_list@.len() == before.len(),
            forall|b: int|
                0 <= b < j ==> #[trigger] configuration_list@[b] == (ConfigurationEntity {
                    maybe_contents: None,
                    ..before[b]
                }),
            forall|b: int| j <= b < before.len() ==> #[trigger] configuration_list@[b] == before[b],
        decreases configuration_list@.len() - j,
    {
        configuration_list[j].maybe_contents = None;
        j += 1;
    }
}

/// Drops the parsed values of the entities of one plugin.
fn forget_values(configuration_list: &mut Vec<ConfigurationEntity>)
    ensures
        final(configuration_list)@.len() == old(configuration_list)@.len(),
        forall|j: int|
            0 <= j < old(configuration_list)@.len() ==> #[trigger] final(configuration_list)@[j]
                == (ConfigurationEntity { maybe_parsed: None, ..old(configuration_list)@[j] }),
{
    let ghost before = configuration_list@;
    let mut j: usize = 0;
    while j < configuration_list.len()
        invariant
            j <= configuration_list@.len(),
            configuration_list@.len() == before.len(),
            forall|b: int|
                0 <= b < j ==> #[trigger] configuration_list@[b] == (ConfigurationEntity {
                    maybe_parsed: None,
                    ..before[b]
                }),
            forall|b: int| j <= b < before.len() ==> #[trigger] configuration_list@[b] == before[b],
        decreases configuration_list@.len() - j,
    {
        configuration_list[j].maybe_parsed = None;
        j += 1;
    }
}

/// Drops the raw contents of every entity. What was parsed stays; parsing
/// again gives each entity that has no parsed value an empty table.
pub fn forget_loaded(plugin_configuration_list: &mut Vec<(String, Vec<ConfigurationEntity>)>)
    ensures
        contents_dropped(old(plugin_configuration_list)@, final(plugin_configuration_list)@),
{
    let ghost before = plugin_configuration_list@;
    let mut i: usize = 0;
    while i < plugin_configuration_list.len()
        invariant
            i <= plugin_configuration_list@.len(),
            same_shape(before, plugin_configuration_list@),
            forall|a: int, b: int|
                0 <= a < i && 0 <= b < before[a].1@.len()
                    ==> #[trigger] plugin_configuration_list@[a].1@[b] == (ConfigurationEntity {
                    maybe_contents: None,
                    ..before[a].1@[b]
                }),
            forall|a: int|
                i <= a < before.len() ==> #[trigger] plugin_configuration_list@[a] == before[a],
        decreases plugin_configuration_list@.len() - i,
    {
        let ghost earlier = plugin_configuration_list@;
        forget_contents(&mut plugin_configuration_list[i].1);
        proof {
            assert(plugin_configuration_list@[i as int].0 == earlier[i as int].0);
            assert forall|a: int| 0 <= a < earlier.len() && a != i implies (
            #[trigger] plugin_configuration_list@[a]) == earlier[a] by {}
        }
        i += 1;
    }
}

/// Drops the parsed value of every entity. Merging again gives every plugin
/// an empty table, until the sources are loaded and parsed anew.
pub fn forget_parsed(plugin_configuration_list: &mut Vec<(String, Vec<ConfigurationEntity>)>)
    ensures
        parsed_dropped(old(plugin_configuration_list)@, final(plugin_configuration_list)@),
{
    let ghost before = plugin_configuration_list@;
    let mut i: usize = 0;
    while i < plugin_configuration_list.len()
        invariant
            i <= plugin_configuration_list@.len(),
            same_shape(before, plugin_configuration_list@),
            forall|a: int, b: int|
                0 <= a < i && 0 <= b < before[a].1@.len()
                    ==> #[trigger] plugin_configuration_list@[a].1@[b] == (ConfigurationEntity {
                    maybe_parsed: None,
                    ..before[a].1@[b]
                }),
            forall|a: int|
                i <= a < before.len() ==> #[trigger] plugin_configuration_list@[a] == before[a],
        decreases plugin_configuration_list@.len() - i,
    {
        let ghost earlier = plugin_configuration_list@;
        forget_values(&mut plugin_configuration_list[i].1);
        proof {
            assert(plugin_configuration_list@[i as int].0 == earlier[i as int].0);
            assert forall|a: int| 0 <= a < earlier.len() && a != i implies (
            #[trigger] plugin_configuration_list@[a]) == earlier[a] by {}
        }
        i += 1;
    }
}

/// Without parsed values there is nothing to merge: every plugin gets an
/// empty table.
pub proof fn lemma_merge_after_forgetting(entities: Seq<EntityView>)
    requires
        forall|j: int| 0 <= j < entities.len() ==> (#[trigger] entities[j]).parsed is None,
    ensures
        merged_tree(entities) == Tree::Table(Map::<Seq<char>, Tree>::empty()),
    decreases entities.len(),
{
    if entities.len() > 0 {
        assert forall|j: int| 0 <= j < entities.drop_last().len() implies (
        #[trigger] entities.drop_last()[j]).parsed is None by {
            assert(entities.drop_last()[j] == entities[j]);
        }
        lemma_merge_after_forgetting(entities.drop_last());
    }
}

} // verus!
