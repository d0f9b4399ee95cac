//! The Merge stage: the parsed values of each plugin's entities merge in
//! order, later over earlier, and what holds of the merged configuration.
use crate::entity::ConfigurationEntity;
use crate::entity::EntityView;
use crate::error::Error;
use crate::loader::ConfigurationLoadError;
use crate::stages::load::group_index;
use crate::stages::load::grouped;
use crate::stages::load::lemma_grouped_keeps_order;
use crate::stages::load::lemma_of_plugin_holds;
use crate::stages::load::lemma_of_plugin_members;
use crate::stages::load::models;
use crate::stages::load::of_plugin;
use crate::stages::load::settled;
use crate::stages::load::state_model;
use crate::value::merge_trees;
use crate::value::Tree;
use crate::value::Value;
use vstd::prelude::*;

verus! {

/// `base` with the parsed values of `entities` merged onto it, in order. An
/// entity without a parsed value is passed over.
pub open spec fn merged_onto(base: Tree, entities: Seq<EntityView>) -> Tree
    decreases entities.len(),
{
    if entities.len() == 0 {
        base
    } else {
        let before = merged_onto(base, entities.drop_last());
        match entities.last().parsed {
            Some(tree) => merge_trees(before, tree),
            None => before,
        }
    }
}

/// The merged configuration of one plugin: the parsed values of its entities
/// merged in order onto an empty table.
pub open spec fn merged_tree(entities: Seq<EntityView>) -> Tree {
    merged_onto(Tree::Table(Map::<Seq<char>, Tree>::empty()), entities)
}

/// The merged configuration of each plugin.
pub open spec fn merged_model(groups: Seq<(Seq<char>, Seq<EntityView>)>) -> Seq<(Seq<char>, Tree)> {
    Seq::new(groups.len(), |i: int| (groups[i].0, merged_tree(groups[i].1)))
}

/// Merging does not depend on how the entities are batched: merging two
/// batches in turn gives what merging them as one list gives.
pub proof fn lemma_merged_in_batches(base: Tree, first: Seq<EntityView>, second: Seq<EntityView>)
    ensures
        merged_onto(merged_onto(base, first), second) == merged_onto(base, first + second),
    decreases second.len(),
{
    if second.len() == 0 {
        assert(first + second =~= first);
    } else {
        lemma_merged_in_batches(base, first, second.drop_last());
        assert((first + second).drop_last() =~= first + second.drop_last());
        assert((first + second).last() == second.last());
    }
}

/// The Merge stage: for each plugin, the parsed values of its entities merged
/// in order, later over earlier, onto an empty table. It never fails.
pub fn merge(plugin_configuration_list: &[(String, Vec<ConfigurationEntity>)]) -> (merged: Result<
    Vec<(String, Value)>,
    Error,
>)
    ensures
        merged is Ok,
        merged->Ok_0.deep_view() == merged_model(state_model(plugin_configuration_list@)),
{
    let ghost groups = state_model(plugin_configuration_list@);
    let mut result: Vec<(String, Value)> = Vec::new();
    let mut i: usize = 0;
    while i < plugin_configuration_list.len()
        invariant
            i <= plugin_configuration_list@.len(),
            groups == state_model(plugin_configuration_list@),
            result@.len() == i,
            forall|j: int|
                0 <= j < i ==> (#[trigger] result@[j]).0@ == groups[j].0 && result@[j].1@
                    == merged_tree(groups[j].1),
        decreases plugin_configuration_list@.len() - i,
    {
        let configuration_list = &plugin_configuration_list[i].1;
        let ghost entities = configuration_list.deep_view();
        let mut first = Value::new_map();
        let mut j: usize = 0;
        proof {
            assert(entities.take(0) =~= Seq::<EntityView>::empty());
        }
        while j < configuration_list.len()
            invariant
                j <= configuration_list@.len(),
                entities == configuration_list.deep_view(),
                first@ == merged_tree(entities.take(j as int)),
            decreases configuration_list@.len() - j,
        {
            proof {
                assert(entities.take(j + 1).drop_last() =~= entities.take(j as int));
                assert(entities.take(j + 1).last() == configuration_list@[j as int]@);
            }
            match &configuration_list[j].maybe_parsed {
                Some(parsed) => {
                    first = first.merged(parsed);
                },
                None => {},
            }
            j += 1;
        }
        proof {
            assert(entities.take(configuration_list@.len() as int) =~= entities);
            assert(groups[i as int].1 == entities);
        }
        result.push((plugin_configuration_list[i].0.clone(), first));
        i += 1;
    }
    proof {
        assert(result.deep_view() =~= merged_model(groups));
    }
    Ok(result)
}

/// Whitelist exclusivity: where every entity that was loaded belongs to a
/// plugin of the whitelist, the merged configuration holds plugins of the
/// whitelist only; and it holds each plugin that has an entity.
pub proof fn lemma_whitelist_exclusive(
    flat: Seq<(Seq<char>, EntityView)>,
    whitelist: Seq<Seq<char>>,
)
    requires
        forall|j: int| 0 <= j < flat.len() ==> whitelist.contains((#[trigger] flat[j]).0),
    ensures
        merged_model(grouped(flat)).len() == grouped(flat).len(),
        forall|i: int|
            0 <= i < merged_model(grouped(flat)).len() ==> whitelist.contains(
                (#[trigger] merged_model(grouped(flat))[i]).0,
            ),
        forall|j: int|
            0 <= j < flat.len() ==> group_index(grouped(flat), (#[trigger] flat[j]).0) >= 0,
{
    lemma_grouped_keeps_order(flat);
    let groups = grouped(flat);
    assert forall|i: int| 0 <= i < merged_model(groups).len() implies whitelist.contains(
        (#[trigger] merged_model(groups)[i]).0,
    ) by {
        assert(groups[i].1 == of_plugin(flat, groups[i].0));
        lemma_of_plugin_members(flat, groups[i].0, 0);
        let j = choose|j: int|
            0 <= j < flat.len() && #[trigger] flat[j] == (
                groups[i].0,
                of_plugin(flat, groups[i].0)[0],
            );
        assert(whitelist.contains(flat[j].0));
    }
    assert forall|j: int| 0 <= j < flat.len() implies group_index(grouped(flat), (#[trigger] flat[j]).0)
        >= 0 by {
        lemma_of_plugin_holds(flat, j);
    }
}

/// Whitelist exclusivity of the pipeline: where every loader leaves out the
/// plugins that the whitelist does not name, the merged configuration holds
/// plugins of the whitelist only.
pub proof fn lemma_whitelisted_sources(
    outcomes: Seq<Result<Vec<(String, ConfigurationEntity)>, ConfigurationLoadError>>,
    skip_soft_errors: bool,
    whitelist: Seq<Seq<char>>,
)
    requires
        settled(outcomes, skip_soft_errors) is Ok,
        forall|i: int, j: int|
            0 <= i < outcomes.len() && outcomes[i] is Ok && 0 <= j < outcomes[i]->Ok_0@.len()
                ==> whitelist.contains((#[trigger] outcomes[i]->Ok_0@[j]).0@),
    ensures
        forall|k: int|
            0 <= k < merged_model(
                grouped(models(settled(outcomes, skip_soft_errors)->Ok_0)),
            ).len() ==> whitelist.contains(
                (#[trigger] merged_model(
                    grouped(models(settled(outcomes, skip_soft_errors)->Ok_0)),
                )[k]).0,
            ),
{
    lemma_settled_listed(outcomes, skip_soft_errors, whitelist);
    lemma_whitelist_exclusive(models(settled(outcomes, skip_soft_errors)->Ok_0), whitelist);
}

/// Where every source gave plugins of the whitelist only, all that was
/// loaded belongs to plugins of the whitelist.
pub proof fn lemma_settled_listed(
    outcomes: Seq<Result<Vec<(String, ConfigurationEntity)>, ConfigurationLoadError>>,
    skip_soft_errors: bool,
    whitelist: Seq<Seq<char>>,
)
    requires
        settled(outcomes, skip_soft_errors) is Ok,
        forall|i: int, j: int|
            0 <= i < outcomes.len() && outcomes[i] is Ok && 0 <= j < outcomes[i]->Ok_0@.len()
                ==> whitelist.contains((#[trigger] outcomes[i]->Ok_0@[j]).0@),
    ensures
        forall|k: int|
            0 <= k < models(settled(outcomes, skip_soft_errors)->Ok_0).len()
                ==> whitelist.contains(
                (#[trigger] models(settled(outcomes, skip_soft_errors)->Ok_0)[k]).0,
            ),
    decreases outcomes.len(),
{
    if outcomes.len() > 0 {
        let earlier = outcomes.drop_last();
        assert forall|i: int, j: int|
            0 <= i < earlier.len() && earlier[i] is Ok && 0 <= j < earlier[i]->Ok_0@.len()
            implies whitelist.contains((#[trigger] earlier[i]->Ok_0@[j]).0@) by {
            assert(earlier[i] == outcomes[i]);
        }
        lemma_settled_listed(earlier, skip_soft_errors, whitelist);
        let before = settled(earlier, skip_soft_errors)->Ok_0;
        let flat = settled(outcomes, skip_soft_errors)->Ok_0;
        assert forall|k: int| 0 <= k < models(flat).len() implies whitelist.contains(
            (#[trigger] models(flat)[k]).0,
        ) by {
            if k < before.len() {
                assert(models(flat)[k] == models(before)[k]);
            } else {
                let last = outcomes.len() - 1;
                assert(outcomes[last] is Ok);
                assert(flat[k] == outcomes[last]->Ok_0@[k - before.len()]);
            }
        }
    }
}

/// Resolving again gives the same: the merged configuration depends on the
/// plugins' names and on the parsed values of their entities, in order, and
/// on nothing else. Two runs that load the same plugins and parse the same
/// values merge to the same configuration.
pub proof fn lemma_same_sources_same_configuration(
    first: Seq<(Seq<char>, Seq<EntityView>)>,
    second: Seq<(Seq<char>, Seq<EntityView>)>,
)
    requires
        first.len() == second.len(),
        forall|i: int|
            0 <= i < first.len() ==> (#[trigger] first[i]).0 == second[i].0 && first[i].1.len()
                == second[i].1.len(),
        forall|i: int, j: int|
            0 <= i < first.len() && 0 <= j < first[i].1.len() ==> (#[trigger] first[i].1[j]).parsed
                == second[i].1[j].parsed,
    ensures
        merged_model(first) == merged_model(second),
{
    assert forall|i: int| 0 <= i < first.len() implies merged_tree(first[i].1) == merged_tree(
        second[i].1,
    ) by {
        assert forall|j: int| 0 <= j < first[i].1.len() implies (#[trigger] first[i].1[j]).parsed
            == second[i].1[j].parsed by {}
        lemma_merged_onto_parsed_only(
            Tree::Table(Map::<Seq<char>, Tree>::empty()),
            first[i].1,
            second[i].1,
        );
    }
    assert(merged_model(first) =~= merged_model(second));
}

/// Merging reads the parsed values only.
pub proof fn lemma_merged_onto_parsed_only(base: Tree, first: Seq<EntityView>, second: Seq<EntityView>)
    requires
        first.len() == second.len(),
        forall|j: int| 0 <= j < first.len() ==> (#[trigger] first[j]).parsed == second[j].parsed,
    ensures
        merged_onto(base, first) == merged_onto(base, second),
    decreases first.len(),
{
    if first.len() > 0 {
        assert forall|j: int| 0 <= j < first.drop_last().len() implies (
        #[trigger] first.drop_last()[j]).parsed == second.drop_last()[j].parsed by {
            assert(first.drop_last()[j] == first[j]);
            assert(second.drop_last()[j] == second[j]);
        }
        lemma_merged_onto_parsed_only(base, first.drop_last(), second.drop_last());
        assert(first.last() == first[first.len() - 1]);
        assert(second.last() == second[second.len() - 1]);
    }
}

} // verus!
