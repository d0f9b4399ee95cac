//! The Load stage: each source's loader is asked in the order of the
//! sources, and the entities are gathered by plugin in that order.
use crate::entity::ConfigurationEntity;
use crate::entity::EntityView;
use crate::loader::ConfigurationLoader;
use crate::loader::ConfigurationLoadError;
use crate::registry::find_taker;
use crate::registry::first_taker;
use crate::registry::Registered;
use crate::registry::Source;
use vstd::prelude::*;

verus! {

/// The models of a list of named entities.
pub open spec fn models(flat: Seq<(String, ConfigurationEntity)>) -> Seq<(Seq<char>, EntityView)> {
    Seq::new(flat.len(), |i: int| (flat[i].0@, flat[i].1@))
}

/// The models of the entities of each plugin.
pub open spec fn state_model(state: Seq<(String, Vec<ConfigurationEntity>)>) -> Seq<
    (Seq<char>, Seq<EntityView>),
> {
    Seq::new(state.len(), |i: int| (state[i].0@, state[i].1.deep_view()))
}

/// The index of the group of the plugin `name`, or `-1`.
pub open spec fn group_index(groups: Seq<(Seq<char>, Seq<EntityView>)>, name: Seq<char>) -> int
    decreases groups.len(),
{
    if groups.len() == 0 {
        -1
    } else {
        let before = group_index(groups.drop_last(), name);
        if before >= 0 {
            before
        } else if groups.last().0 == name {
            groups.len() - 1
        } else {
            -1
        }
    }
}

/// What `group_index` finds: the least index of a group with that name.
pub proof fn lemma_group_index(groups: Seq<(Seq<char>, Seq<EntityView>)>, name: Seq<char>)
    ensures
        -1 <= group_index(groups, name) < groups.len(),
        group_index(groups, name) >= 0 ==> groups[group_index(groups, name)].0 == name,
        forall|j: int|
            0 <= j < groups.len() && (group_index(groups, name) < 0 || j < group_index(
                groups,
                name,
            )) ==> (#[trigger] groups[j]).0 != name,
    decreases groups.len(),
{
    if groups.len() > 0 {
        lemma_group_index(groups.drop_last(), name);
        assert forall|j: int|
            0 <= j < groups.len() && (group_index(groups, name) < 0 || j < group_index(
                groups,
                name,
            )) implies (#[trigger] groups[j]).0 != name by {
            if j < groups.len() - 1 {
                assert(groups.drop_last()[j] == groups[j]);
            }
        }
    }
}

/// The groups after one more entity: it joins the end of its plugin's group,
/// or starts a new group at the end.
pub open spec fn with_entity(
    groups: Seq<(Seq<char>, Seq<EntityView>)>,
    name: Seq<char>,
    entity: EntityView,
) -> Seq<(Seq<char>, Seq<EntityView>)> {
    let at = group_index(groups, name);
    if at >= 0 {
        groups.update(at, (name, groups[at].1.push(entity)))
    } else {
        groups.push((name, seq![entity]))
    }
}

/// The groups after a list of entities, each added in turn.
pub open spec fn with_entities(
    groups: Seq<(Seq<char>, Seq<EntityView>)>,
    flat: Seq<(Seq<char>, EntityView)>,
) -> Seq<(Seq<char>, Seq<EntityView>)>
    decreases flat.len(),
{
    if flat.len() == 0 {
        groups
    } else {
        with_entity(with_entities(groups, flat.drop_last()), flat.last().0, flat.last().1)
    }
}

/// The entities of a flat list grouped by plugin: the plugins in the order in
/// which each first occurs, and each plugin's entities in the order of the
/// list.
pub open spec fn grouped(flat: Seq<(Seq<char>, EntityView)>) -> Seq<(Seq<char>, Seq<EntityView>)> {
    with_entities(Seq::<(Seq<char>, Seq<EntityView>)>::empty(), flat)
}

/// The entities of one plugin in a flat list, in the order of the list.
pub open spec fn of_plugin(flat: Seq<(Seq<char>, EntityView)>, name: Seq<char>) -> Seq<EntityView>
    decreases flat.len(),
{
    if flat.len() == 0 {
        Seq::<EntityView>::empty()
    } else if flat.last().0 == name {
        of_plugin(flat.drop_last(), name).push(flat.last().1)
    } else {
        of_plugin(flat.drop_last(), name)
    }
}

/// `true` when the groups are the entities of the flat list by plugin: no
/// plugin has two groups, each group holds its plugin's entities in the
/// order of the list and is not empty, and a plugin without a group has no
/// entity in the list.
pub open spec fn well_grouped(
    groups: Seq<(Seq<char>, Seq<EntityView>)>,
    flat: Seq<(Seq<char>, EntityView)>,
) -> bool {
    &&& forall|i: int, j: int|
        0 <= i < j < groups.len() ==> (#[trigger] groups[i]).0 != (#[trigger] groups[j]).0
    &&& forall|i: int|
        0 <= i < groups.len() ==> (#[trigger] groups[i]).1 == of_plugin(flat, groups[i].0)
            && groups[i].1.len() > 0
    &&& forall|name: Seq<char>| #[trigger]
        group_index(groups, name) < 0 ==> of_plugin(flat, name).len() == 0
}

/// Groups with the same names at the same places find the same index for
/// every name.
pub proof fn lemma_group_index_same_names(
    a: Seq<(Seq<char>, Seq<EntityView>)>,
    b: Seq<(Seq<char>, Seq<EntityView>)>,
    name: Seq<char>,
)
    requires
        a.len() == b.len(),
        forall|i: int| 0 <= i < a.len() ==> (#[trigger] a[i]).0 == b[i].0,
    ensures
        group_index(a, name) == group_index(b, name),
    decreases a.len(),
{
    if a.len() > 0 {
        assert forall|i: int| 0 <= i < a.drop_last().len() implies (#[trigger] a.drop_last()[i]).0
            == b.drop_last()[i].0 by {
            assert(a.drop_last()[i] == a[i]);
            assert(b.drop_last()[i] == b[i]);
        }
        lemma_group_index_same_names(a.drop_last(), b.drop_last(), name);
    }
}

/// Grouping keeps the order of the list: it gives each plugin one group,
/// which holds the plugin's entities in the order in which the list holds
/// them.
pub proof fn lemma_grouped_keeps_order(flat: Seq<(Seq<char>, EntityView)>)
    ensures
        well_grouped(grouped(flat), flat),
    decreases flat.len(),
{
    if flat.len() > 0 {
        let before = flat.drop_last();
        let groups = grouped(before);
        let name = flat.last().0;
        let entity = flat.last().1;
        let after = with_entity(groups, name, entity);
        lemma_grouped_keeps_order(before);
        lemma_group_index(groups, name);
        let at = group_index(groups, name);
        assert forall|other: Seq<char>| #[trigger]
            group_index(after, other) < 0 implies of_plugin(flat, other).len() == 0 by {
            if at >= 0 {
                lemma_group_index_same_names(after, groups, other);
                lemma_group_index(groups, other);
            } else {
                assert(after.drop_last() =~= groups);
            }
        }
        if at >= 0 {
            assert forall|i: int| 0 <= i < after.len() implies (#[trigger] after[i]).1 == of_plugin(
                flat,
                after[i].0,
            ) && after[i].1.len() > 0 by {
                if i != at {
                    assert(after[i] == groups[i]);
                    if i < at {
                        assert(groups[i].0 != groups[at].0);
                    } else {
                        assert(groups[at].0 != groups[i].0);
                    }
                }
            }
            assert forall|i: int, j: int| 0 <= i < j < after.len() implies (#[trigger] after[i]).0 != (
            #[trigger] after[j]).0 by {
                assert(after[i].0 == groups[i].0);
                assert(after[j].0 == groups[j].0);
            }
        } else {
            assert forall|i: int| 0 <= i < after.len() implies (#[trigger] after[i]).1 == of_plugin(
                flat,
                after[i].0,
            ) && after[i].1.len() > 0 by {
                if i < groups.len() {
                    assert(after[i] == groups[i]);
                } else {
                    assert(of_plugin(before, name).len() == 0);
                    assert(after[i].1 =~= of_plugin(flat, name));
                }
            }
            assert forall|i: int, j: int| 0 <= i < j < after.len() implies (#[trigger] after[i]).0 != (
            #[trigger] after[j]).0 by {
                assert(after[i] == groups[i]);
                if j < groups.len() {
                    assert(after[j] == groups[j]);
                }
            }
        }
    }
}

/// A plugin's entities from an earlier list come before those from a later
/// one.
pub proof fn lemma_of_plugin_append(
    first: Seq<(Seq<char>, EntityView)>,
    second: Seq<(Seq<char>, EntityView)>,
    name: Seq<char>,
)
    ensures
        of_plugin(first + second, name) == of_plugin(first, name) + of_plugin(second, name),
    decreases second.len(),
{
    if second.len() == 0 {
        assert(first + second =~= first);
        assert(of_plugin(first, name) + of_plugin(second, name) =~= of_plugin(first, name));
    } else {
        lemma_of_plugin_append(first, second.drop_last(), name);
        assert((first + second).drop_last() =~= first + second.drop_last());
        assert((first + second).last() == second.last());
        if second.last().0 == name {
            assert(of_plugin(first, name) + of_plugin(second, name) =~= (of_plugin(first, name)
                + of_plugin(second.drop_last(), name)).push(second.last().1));
        }
    }
}

/// Every entity of a plugin's group is an entity that the flat list holds
/// under the plugin's name.
pub proof fn lemma_of_plugin_members(flat: Seq<(Seq<char>, EntityView)>, name: Seq<char>, k: int)
    requires
        0 <= k < of_plugin(flat, name).len(),
    ensures
        exists|j: int|
            0 <= j < flat.len() && #[trigger] flat[j] == (name, of_plugin(flat, name)[k]),
    decreases flat.len(),
{
    if flat.len() > 0 {
        let before = flat.drop_last();
        if flat.last().0 == name && k == of_plugin(before, name).len() {
            assert(flat[flat.len() - 1] == (name, of_plugin(flat, name)[k]));
        } else {
            lemma_of_plugin_members(before, name, k);
            let j = choose|j: int|
                0 <= j < before.len() && #[trigger] before[j] == (name, of_plugin(before, name)[k]);
            assert(flat[j] == before[j]);
        }
    }
}

/// An entity of the flat list is among the entities of its plugin.
pub proof fn lemma_of_plugin_holds(flat: Seq<(Seq<char>, EntityView)>, j: int)
    requires
        0 <= j < flat.len(),
    ensures
        of_plugin(flat, flat[j].0).len() > 0,
    decreases flat.len(),
{
    if j < flat.len() - 1 {
        lemma_of_plugin_holds(flat.drop_last(), j);
        assert(flat.drop_last()[j] == flat[j]);
    }
}

/// Adding two lists in turn is adding their concatenation.
pub proof fn lemma_with_entities_append(
    groups: Seq<(Seq<char>, Seq<EntityView>)>,
    first: Seq<(Seq<char>, EntityView)>,
    second: Seq<(Seq<char>, EntityView)>,
)
    ensures
        with_entities(with_entities(groups, first), second) == with_entities(
            groups,
            first + second,
        ),
    decreases second.len(),
{
    if second.len() == 0 {
        assert(first + second =~= first);
    } else {
        lemma_with_entities_append(groups, first, second.drop_last());
        assert((first + second).drop_last() =~= first + second.drop_last());
        assert((first + second).last() == second.last());
    }
}

/// The index of the plugin `name` among the plugins of `state`, if it is
/// there.
pub fn find_plugin(state: &Vec<(String, Vec<ConfigurationEntity>)>, name: &String) -> (found: Option<
    usize,
>)
    ensures
        match found {
            Some(i) => i < state@.len() && group_index(state_model(state@), name@) == i,
            None => group_index(state_model(state@), name@) < 0,
        },
{
    let ghost groups = state_model(state@);
    let mut at: usize = 0;
    while at < state.len()
        invariant
            at <= state@.len(),
            groups == state_model(state@),
            forall|j: int| 0 <= j < at ==> (#[trigger] groups[j]).0 != name@,
        decreases state@.len() - at,
    {
        if state[at].0 == *name {
            proof {
                lemma_group_index(groups, name@);
                assert(groups[at as int].0 == name@);
            }
            return Some(at);
        }
        proof {
            assert(groups[at as int].0 == state@[at as int].0@);
        }
        at += 1;
    }
    proof {
        lemma_group_index(groups, name@);
    }
    None
}

/// Adds the entities that one source gave to the entities of each plugin:
/// see [`with_entities`].
pub fn absorb(
    state: &mut Vec<(String, Vec<ConfigurationEntity>)>,
    loaded: Vec<(String, ConfigurationEntity)>,
)
    ensures
        state_model(final(state)@) == with_entities(state_model(old(state)@), models(loaded@)),
{
    let mut rest = loaded;
    let ghost all = models(loaded@);
    let ghost start = state_model(state@);
    let ghost done: Seq<(Seq<char>, EntityView)> = Seq::empty();
    while rest.len() > 0
        invariant
            done + models(rest@) == all,
            state_model(state@) == with_entities(start, done),
        decreases rest@.len(),
    {
        let ghost groups = state_model(state@);
        let ghost before = state@;
        let item = rest.remove(0);
        let (name, entity) = item;
        let ghost added = (name@, entity@);
        proof {
            assert(done.push(added) + models(rest@) =~= all);
            assert(done.push(added).drop_last() =~= done);
        }
        let found = find_plugin(state, &name);
        if let Some(at) = found {
            state[at].1.push(entity);
            proof {
                lemma_group_index(groups, name@);
                assert(groups[at as int] == (before[at as int].0@, before[at as int].1.deep_view()));
                assert(state@.len() == before.len());
                assert(state@[at as int].0 == before[at as int].0);
                assert(state@[at as int].1@ == before[at as int].1@.push(entity));
                assert(state_model(state@) =~= with_entity(groups, name@, entity@)) by {
                    assert forall|j: int| 0 <= j < state@.len() implies #[trigger] state_model(
                        state@,
                    )[j] == with_entity(groups, name@, entity@)[j] by {
                        if j == at {
                            assert(state@[j].1.deep_view() =~= before[j].1.deep_view().push(
                                entity@,
                            ));
                        } else {
                            assert(state@[j] == before[j]);
                            assert(groups[j] == (before[j].0@, before[j].1.deep_view()));
                        }
                    }
                }
            }
        } else {
            let mut list: Vec<ConfigurationEntity> = Vec::new();
            list.push(entity);
            state.push((name, list));
            proof {
                assert(list.deep_view() =~= seq![entity@]);
                assert(state_model(state@) =~= with_entity(groups, name@, entity@));
            }
        }
        proof {
            done = done.push(added);
        }
    }
    proof {
        assert(done =~= done + models(rest@));
    }
}

/// The loader that serves a source: the loader bound to it or, where none
/// is bound, the first loader registered under the source's scheme. Where no
/// loader takes the scheme, the error says so and names the scheme and the
/// source.
pub fn resolve_loader<'a, L: ConfigurationLoader>(
    source: &'a Source<L>,
    loader_list: &'a [Registered<L>],
) -> (resolved: Result<&'a L, ConfigurationLoadError>)
    ensures
        match resolved {
            Ok(loader) => match source.loader {
                Some(bound) => *loader == bound,
                None => first_taker(loader_list@, source.url@.scheme) >= 0 && *loader
                    == loader_list@[first_taker(loader_list@, source.url@.scheme)].item,
            },
            Err(error) => source.loader is None && first_taker(loader_list@, source.url@.scheme)
                < 0 && match error {
                ConfigurationLoadError::LoaderNotFound { scheme, url } => scheme@
                    == source.url@.scheme && url@ == source.url@,
                _ => false,
            },
        },
{
    match &source.loader {
        Some(bound) => Ok(bound),
        None => match find_taker(loader_list, &source.url.scheme) {
            Some(at) => Ok(&loader_list[at].item),
            None => Err(
                ConfigurationLoadError::LoaderNotFound {
                    scheme: source.url.scheme.clone(),
                    url: source.url.clone(),
                },
            ),
        },
    }
}

/// `true` when `outcome` is something that loading `source` may give: what
/// the loader bound to the source returned or, where none is bound, what the
/// first loader registered under the source's scheme returned; where no
/// loader takes the scheme, the error that says so.
pub open spec fn may_give<L: ConfigurationLoader>(
    source: Source<L>,
    loaders: Seq<Registered<L>>,
    maybe_whitelist: Option<&[String]>,
    skip_soft_errors: bool,
    outcome: Result<Vec<(String, ConfigurationEntity)>, ConfigurationLoadError>,
) -> bool {
    match source.loader {
        Some(bound) => call_ensures(
            L::load,
            (&bound, &source.url, maybe_whitelist, skip_soft_errors),
            outcome,
        ),
        None => {
            let at = first_taker(loaders, source.url@.scheme);
            if at >= 0 {
                call_ensures(
                    L::load,
                    (&loaders[at].item, &source.url, maybe_whitelist, skip_soft_errors),
                    outcome,
                )
            } else {
                match outcome {
                    Err(ConfigurationLoadError::LoaderNotFound { scheme, url }) => scheme@
                        == source.url@.scheme && url@ == source.url@,
                    _ => false,
                }
            }
        },
    }
}

/// What the Load stage makes of the outcomes of the sources, taken in order:
/// the entities of all of them in one list, or the first error that is not
/// skipped. An error is skipped where `skip_soft_errors` is set and the error
/// reports itself as soft; the source then counts as empty.
pub open spec fn settled(
    outcomes: Seq<Result<Vec<(String, ConfigurationEntity)>, ConfigurationLoadError>>,
    skip_soft_errors: bool,
) -> Result<Seq<(String, ConfigurationEntity)>, ConfigurationLoadError>
    decreases outcomes.len(),
{
    if outcomes.len() == 0 {
        Ok(Seq::<(String, ConfigurationEntity)>::empty())
    } else {
        match settled(outcomes.drop_last(), skip_soft_errors) {
            Ok(flat) => match outcomes.last() {
                Ok(list) => Ok(flat + list@),
                Err(error) => if skip_soft_errors && error.skippable() {
                    Ok(flat)
                } else {
                    Err(error)
                },
            },
            Err(error) => Err(error),
        }
    }
}

/// What the sources gave for one plugin: the plugin's entities of each
/// source that gave entities, source after source in the order of the
/// sources, and within a source in the order in which it gave them.
pub open spec fn from_sources(
    outcomes: Seq<Result<Vec<(String, ConfigurationEntity)>, ConfigurationLoadError>>,
    name: Seq<char>,
) -> Seq<EntityView>
    decreases outcomes.len(),
{
    if outcomes.len() == 0 {
        Seq::<EntityView>::empty()
    } else {
        from_sources(outcomes.drop_last(), name) + match outcomes.last() {
            Ok(list) => of_plugin(models(list@), name),
            Err(_) => Seq::<EntityView>::empty(),
        }
    }
}

/// Load keeps the order of registration within each plugin: where the
/// sources settle without an error, each plugin's group holds what the
/// sources gave for the plugin, in the order of the sources.
pub proof fn lemma_load_keeps_registration_order(
    outcomes: Seq<Result<Vec<(String, ConfigurationEntity)>, ConfigurationLoadError>>,
    skip_soft_errors: bool,
)
    requires
        settled(outcomes, skip_soft_errors) is Ok,
    ensures
        well_grouped(
            grouped(models(settled(outcomes, skip_soft_errors)->Ok_0)),
            models(settled(outcomes, skip_soft_errors)->Ok_0),
        ),
        forall|i: int|
            0 <= i < grouped(models(settled(outcomes, skip_soft_errors)->Ok_0)).len() ==> (
            #[trigger] grouped(models(settled(outcomes, skip_soft_errors)->Ok_0))[i]).1
                == from_sources(
                outcomes,
                grouped(models(settled(outcomes, skip_soft_errors)->Ok_0))[i].0,
            ),
{
    let flat = models(settled(outcomes, skip_soft_errors)->Ok_0);
    lemma_grouped_keeps_order(flat);
    assert forall|i: int| 0 <= i < grouped(flat).len() implies (#[trigger] grouped(flat)[i]).1
        == from_sources(outcomes, grouped(flat)[i].0) by {
        lemma_settled_by_plugin(outcomes, skip_soft_errors, grouped(flat)[i].0);
    }
}

/// The entities of one plugin among all that were loaded are what the
/// sources gave for the plugin.
pub proof fn lemma_settled_by_plugin(
    outcomes: Seq<Result<Vec<(String, ConfigurationEntity)>, ConfigurationLoadError>>,
    skip_soft_errors: bool,
    name: Seq<char>,
)
    requires
        settled(outcomes, skip_soft_errors) is Ok,
    ensures
        of_plugin(models(settled(outcomes, skip_soft_errors)->Ok_0), name) == from_sources(
            outcomes,
            name,
        ),
    decreases outcomes.len(),
{
    if outcomes.len() > 0 {
        let before = settled(outcomes.drop_last(), skip_soft_errors)->Ok_0;
        lemma_settled_by_plugin(outcomes.drop_last(), skip_soft_errors, name);
        match outcomes.last() {
            Ok(list) => {
                assert(models(before + list@) =~= models(before) + models(list@));
                lemma_of_plugin_append(models(before), models(list@), name);
            },
            Err(_) => {
                assert(from_sources(outcomes.drop_last(), name) + Seq::<EntityView>::empty()
                    =~= from_sources(outcomes.drop_last(), name));
            },
        }
    } else {
        assert(models(Seq::<(String, ConfigurationEntity)>::empty()) =~= Seq::<
            (Seq<char>, EntityView),
        >::empty());
    }
}

/// `true` when `outcomes` account for what the Load stage returned: there is
/// one outcome for each source that was tried, each is what its source may
/// give, no source is tried after an error that is not skipped, and the
/// result is that error or else the entities of all sources, grouped by
/// plugin.
pub open spec fn explains<L: ConfigurationLoader>(
    sources: Seq<Source<L>>,
    loaders: Seq<Registered<L>>,
    maybe_whitelist: Option<&[String]>,
    skip_soft_errors: bool,
    outcomes: Seq<Result<Vec<(String, ConfigurationEntity)>, ConfigurationLoadError>>,
    loaded: Result<Vec<(String, Vec<ConfigurationEntity>)>, ConfigurationLoadError>,
) -> bool {
    &&& outcomes.len() <= sources.len()
    &&& forall|i: int|
        0 <= i < outcomes.len() ==> may_give(
            sources[i],
            loaders,
            maybe_whitelist,
            skip_soft_errors,
            #[trigger] outcomes[i],
        )
    &&& outcomes.len() > 0 ==> settled(outcomes.drop_last(), skip_soft_errors) is Ok
    &&& match settled(outcomes, skip_soft_errors) {
        Ok(flat) => outcomes.len() == sources.len() && loaded is Ok && state_model(
            loaded->Ok_0@,
        ) == grouped(models(flat)),
        Err(error) => loaded is Err && loaded->Err_0 == error,
    }
}

/// The Load stage: asks each source's loader in the order of the sources and
/// gathers the entities of each plugin in that order. The first error that
/// is not skipped ends the stage, and the sources after it are not tried.
pub fn load<L: ConfigurationLoader>(
    source_list: &[Source<L>],
    loader_list: &[Registered<L>],
    maybe_whitelist: Option<&[String]>,
    skip_soft_errors: bool,
) -> (loaded: Result<Vec<(String, Vec<ConfigurationEntity>)>, ConfigurationLoadError>)
    ensures
        exists|outcomes: Seq<Result<Vec<(String, ConfigurationEntity)>, ConfigurationLoadError>>|
         #[trigger]
            explains(
                source_list@,
                loader_list@,
                maybe_whitelist,
                skip_soft_errors,
                outcomes,
                loaded,
            ),
        source_list@.len() == 0 ==> loaded is Ok && loaded->Ok_0@.len() == 0,
{
    let mut state: Vec<(String, Vec<ConfigurationEntity>)> = Vec::new();
    let ghost mut outcomes: Seq<
        Result<Vec<(String, ConfigurationEntity)>, ConfigurationLoadError>,
    > = Seq::empty();
    let ghost mut flat: Seq<(String, ConfigurationEntity)> = Seq::empty();
    let mut i: usize = 0;
    proof {
        assert(state_model(state@) =~= grouped(models(flat)));
    }
    while i < source_list.len()
        invariant
            i <= source_list@.len(),
            outcomes.len() == i,
            forall|j: int|
                0 <= j < i ==> may_give(
                    source_list@[j],
                    loader_list@,
                    maybe_whitelist,
                    skip_soft_errors,
                    #[trigger] outcomes[j],
                ),
            settled(outcomes, skip_soft_errors) == Ok::<
                Seq<(String, ConfigurationEntity)>,
                ConfigurationLoadError,
            >(flat),
            state_model(state@) == grouped(models(flat)),
            source_list@.len() == 0 ==> state@.len() == 0,
        decreases source_list@.len() - i,
    {
        let source = &source_list[i];
        let outcome = match resolve_loader(source, loader_list) {
            Ok(loader) => loader.load(&source.url, maybe_whitelist, skip_soft_errors),
            Err(error) => Err(error),
        };
        let ghost earlier = outcomes;
        proof {
            outcomes = outcomes.push(outcome);
            assert(outcomes.drop_last() =~= earlier);
        }
        match outcome {
            Ok(list) => {
                proof {
                    lemma_with_entities_append(
                        Seq::<(Seq<char>, Seq<EntityView>)>::empty(),
                        models(flat),
                        models(list@),
                    );
                    assert(models(flat + list@) =~= models(flat) + models(list@));
                    flat = flat + list@;
                }
                absorb(&mut state, list);
            },
            Err(error) => {
                if !(skip_soft_errors && error.is_skippable()) {
                    let loaded = Err(error);
                    proof {
                        assert(explains(
                            source_list@,
                            loader_list@,
                            maybe_whitelist,
                            skip_soft_errors,
                            outcomes,
                            loaded,
                        ));
                    }
                    return loaded;
                }
            },
        }
        i += 1;
    }
    let loaded = Ok(state);
    proof {
        if outcomes.len() > 0 {
            lemma_settled_prefix(outcomes, skip_soft_errors);
        }
        assert(explains(
            source_list@,
            loader_list@,
            maybe_whitelist,
            skip_soft_errors,
            outcomes,
            loaded,
        ));
    }
    loaded
}

/// Where the outcomes settle without an error, so do all but the last.
pub proof fn lemma_settled_prefix(
    outcomes: Seq<Result<Vec<(String, ConfigurationEntity)>, ConfigurationLoadError>>,
    skip_soft_errors: bool,
)
    requires
        outcomes.len() > 0,
        settled(outcomes, skip_soft_errors) is Ok,
    ensures
        settled(outcomes.drop_last(), skip_soft_errors) is Ok,
{
}

} // verus!
