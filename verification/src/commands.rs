//! The command surface: the operations a caller can request and the
//! typed results they produce. The variant names are the wire contract
//! an external front end depends on.

use crate::engine::{has_name, link_check, variant_in_use, LinkIssue};
use crate::idmap::{has_key, map_of, IdMap};
use crate::model::Component;
use crate::session::{
    added_component_with, added_meal_with, leaf_added_with, some_trim_empty, Session,
};
use crate::trusted::trim_of;
use vstd::prelude::*;

verus! {

/// Commands over the components of the active dataset.
pub enum ComponentCmd {
    /// Add a new component with initial variants and options.
    AddComponent { name: String, variants: Vec<String>, options: Vec<String> },
    /// Add a new option to a component.
    AddOption { component: u128, name: String },
    /// Add a new variant to a component.
    AddVariant { component: u128, name: String },
    /// Remove a variant of a component, subject to the referential-
    /// integrity rules.
    RemoveVariant { component: u128, variant: u128 },
    /// Remove an option of a component.
    RemoveOption { component: u128, option: u128 },
    /// Get all components.
    GetComponents,
}

pub enum ComponentCmdSuccess {
    AddedComponent,
    AddedOption,
    AddedVariant,
    /// `scheduled` is true when the entity was tombstoned rather than
    /// removed outright.
    RemovedVariant { scheduled: bool },
    RemovedOption { scheduled: bool },
    GotComponents { data: IdMap<Component> },
}

#[derive(Debug, PartialEq, Eq)]
pub enum ComponentCmdError {
    /// The referenced component does not exist.
    NotFound,
    /// The referenced variant or option does not exist.
    DoesNotExist,
    /// A meal still references the entity; nothing was changed.
    StillInUse,
    DatasetNotActive,
    EmptyName,
}

/// Commands over the meals of the active dataset.
pub enum MealCmd {
    /// Add a new meal referencing components and, optionally, one
    /// variant per component.
    AddMeal { name: String, short: String, components: Vec<(u128, Option<u128>)> },
}

#[derive(Debug, PartialEq, Eq)]
pub enum MealCmdSuccess {
    AddedMeal,
}

#[derive(Debug, PartialEq, Eq)]
pub enum MealCmdError {
    ComponentNotFound,
    DatasetNotActive,
    EmptyName,
    EmptyShort,
    VariantNotFound,
}

/// Commands over the session and its storage.
pub enum GlobalCmd {
    /// List the datasets present on disk.
    GetAvailableDatasets,
    /// Report whether a dataset is loaded.
    GetState,
    /// Create a new dataset for the current month, or for the next
    /// month when `next_month` is set.
    NewDataset { next_month: bool },
    /// Open the existing dataset of the given period.
    OpenDataset { year: i32, month: u32 },
    /// Durably persist the loaded dataset.
    Save,
}

/// A routed command as the dispatch layer delivers it: the operation
/// plus the callback names the front end expects to be invoked.
pub enum Cmd {
    Component { sub: ComponentCmd, callback: String, error: String },
    Global { sub: GlobalCmd, callback: String, error: String },
    Meal { sub: MealCmd, callback: String, error: String },
}

impl ComponentCmd {
    /// Run this command against the session. The result is the typed
    /// outcome the dispatch layer forwards to the front end; the exact
    /// effect on the dataset is the corresponding `Session` contract.
    pub fn execute(self, s: &mut Session) -> (r: Result<ComponentCmdSuccess, ComponentCmdError>)
        requires
            old(s).inv(),
        ensures
            final(s).inv(),
            r is Err ==> final(s)@ == old(s)@,
            (match self {
                ComponentCmd::AddComponent { name, variants, options } => {
                    &&& (r matches Err(e) ==> e == ComponentCmdError::EmptyName || e
                        == ComponentCmdError::DatasetNotActive)
                    &&& (r == Err::<ComponentCmdSuccess, ComponentCmdError>(
                        ComponentCmdError::EmptyName,
                    ) <==> (trim_of(name@).len() == 0 || some_trim_empty(variants@)
                        || some_trim_empty(options@)))
                    &&& (r is Ok <==> !(trim_of(name@).len() == 0 || some_trim_empty(variants@)
                        || some_trim_empty(options@)) && old(s).loaded())
                    &&& (r is Ok ==> r == Ok::<ComponentCmdSuccess, ComponentCmdError>(
                        ComponentCmdSuccess::AddedComponent,
                    ) && exists|id: u128|
                        #[trigger] added_component_with(
                            old(s).dataset(),
                            final(s).dataset(),
                            id,
                            trim_of(name@),
                            variants@,
                            options@,
                        ))
                },
                ComponentCmd::AddVariant { component, name } => {
                    &&& (r == Err::<ComponentCmdSuccess, ComponentCmdError>(
                        ComponentCmdError::EmptyName,
                    ) <==> trim_of(name@).len() == 0)
                    &&& (r == Err::<ComponentCmdSuccess, ComponentCmdError>(
                        ComponentCmdError::DatasetNotActive,
                    ) <==> trim_of(name@).len() > 0 && !old(s).loaded())
                    &&& (r == Err::<ComponentCmdSuccess, ComponentCmdError>(
                        ComponentCmdError::NotFound,
                    ) <==> trim_of(name@).len() > 0 && old(s).loaded() && !map_of(
                        old(s).dataset().components,
                    ).contains_key(component))
                    &&& (r is Ok <==> trim_of(name@).len() > 0 && old(s).loaded() && map_of(
                        old(s).dataset().components,
                    ).contains_key(component))
                    &&& (r is Ok ==> r == Ok::<ComponentCmdSuccess, ComponentCmdError>(
                        ComponentCmdSuccess::AddedVariant,
                    ) && {
                        let d0 = old(s).dataset();
                        let d1 = final(s).dataset();
                        let c0 = map_of(d0.components)[component];
                        let c1 = map_of(d1.components)[component];
                        if has_name(c0.variants, trim_of(name@)) {
                            final(s)@ == old(s)@
                        } else {
                            &&& exists|id: u128|
                                #[trigger] leaf_added_with(
                                    c0.variants,
                                    c1.variants,
                                    id,
                                    trim_of(name@),
                                )
                            &&& c1.name == c0.name
                            &&& c1.delete == c0.delete
                            &&& c1.options == c0.options
                            &&& map_of(d1.components) == map_of(d0.components).insert(
                                component,
                                c1,
                            )
                            &&& d1.meals == d0.meals
                            &&& d1.year == d0.year
                            &&& d1.month == d0.month
                        }
                    })
                },
                ComponentCmd::AddOption { component, name } => {
                    &&& (r == Err::<ComponentCmdSuccess, ComponentCmdError>(
                        ComponentCmdError::EmptyName,
                    ) <==> trim_of(name@).len() == 0)
                    &&& (r == Err::<ComponentCmdSuccess, ComponentCmdError>(
                        ComponentCmdError::DatasetNotActive,
                    ) <==> trim_of(name@).len() > 0 && !old(s).loaded())
                    &&& (r == Err::<ComponentCmdSuccess, ComponentCmdError>(
                        ComponentCmdError::NotFound,
                    ) <==> trim_of(name@).len() > 0 && old(s).loaded() && !map_of(
                        old(s).dataset().components,
                    ).contains_key(component))
                    &&& (r is Ok <==> trim_of(name@).len() > 0 && old(s).loaded() && map_of(
                        old(s).dataset().components,
                    ).contains_key(component))
                    &&& (r is Ok ==> r == Ok::<ComponentCmdSuccess, ComponentCmdError>(
                        ComponentCmdSuccess::AddedOption,
                    ) && {
                        let d0 = old(s).dataset();
                        let d1 = final(s).dataset();
                        let c0 = map_of(d0.components)[component];
                        let c1 = map_of(d1.components)[component];
                        if has_name(c0.options, trim_of(name@)) {
                            final(s)@ == old(s)@
                        } else {
                            &&& exists|id: u128|
                                #[trigger] leaf_added_with(
                                    c0.options,
                                    c1.options,
                                    id,
                                    trim_of(name@),
                                )
                            &&& c1.name == c0.name
                            &&& c1.delete == c0.delete
                            &&& c1.variants == c0.variants
                            &&& map_of(d1.components) == map_of(d0.components).insert(
                                component,
                                c1,
                            )
                            &&& d1.meals == d0.meals
                            &&& d1.year == d0.year
                            &&& d1.month == d0.month
                        }
                    })
                },
                ComponentCmd::RemoveVariant { component, variant } => {
                    &&& (r == Err::<ComponentCmdSuccess, ComponentCmdError>(
                        ComponentCmdError::DatasetNotActive,
                    ) <==> !old(s).loaded())
                    &&& (r == Err::<ComponentCmdSuccess, ComponentCmdError>(
                        ComponentCmdError::NotFound,
                    ) <==> old(s).loaded() && !map_of(old(s).dataset().components).contains_key(
                        component,
                    ))
                    &&& (r == Err::<ComponentCmdSuccess, ComponentCmdError>(
                        ComponentCmdError::DoesNotExist,
                    ) <==> old(s).loaded() && map_of(old(s).dataset().components).contains_key(
                        component,
                    ) && !has_key(
                        map_of(old(s).dataset().components)[component].variants,
                        variant,
                    ))
                    &&& (r == Err::<ComponentCmdSuccess, ComponentCmdError>(
                        ComponentCmdError::StillInUse,
                    ) <==> old(s).loaded() && map_of(old(s).dataset().components).contains_key(
                        component,
                    ) && has_key(
                        map_of(old(s).dataset().components)[component].variants,
                        variant,
                    ) && variant_in_use(old(s).dataset(), component, variant))
                    &&& (r == Ok::<ComponentCmdSuccess, ComponentCmdError>(
                        ComponentCmdSuccess::RemovedVariant { scheduled: true },
                    ) ==> final(s)@ == old(s)@ && map_of(
                        map_of(old(s).dataset().components)[component].variants,
                    )[variant].delete)
                    &&& (r == Ok::<ComponentCmdSuccess, ComponentCmdError>(
                        ComponentCmdSuccess::RemovedVariant { scheduled: false },
                    ) ==> {
                        let c0 = map_of(old(s).dataset().components)[component];
                        let c1 = map_of(final(s).dataset().components)[component];
                        &&& !map_of(c0.variants)[variant].delete
                        &&& !variant_in_use(old(s).dataset(), component, variant)
                        &&& map_of(c1.variants) == map_of(c0.variants).remove(variant)
                        &&& c1.options == c0.options
                        &&& map_of(final(s).dataset().components) == map_of(
                            old(s).dataset().components,
                        ).insert(component, c1)
                        &&& final(s).dataset().meals == old(s).dataset().meals
                    })
                    &&& (r is Ok <==> old(s).loaded() && map_of(
                        old(s).dataset().components,
                    ).contains_key(component) && has_key(
                        map_of(old(s).dataset().components)[component].variants,
                        variant,
                    ) && !variant_in_use(old(s).dataset(), component, variant))
                    &&& (r is Ok ==> (r == Ok::<
                        ComponentCmdSuccess,
                        ComponentCmdError,
                    >(ComponentCmdSuccess::RemovedVariant {
                        scheduled: map_of(
                            map_of(old(s).dataset().components)[component].variants,
                        )[variant].delete,
                    })))
                },
                ComponentCmd::RemoveOption { component, option } => {
                    &&& (r == Err::<ComponentCmdSuccess, ComponentCmdError>(
                        ComponentCmdError::DatasetNotActive,
                    ) <==> !old(s).loaded())
                    &&& (r == Err::<ComponentCmdSuccess, ComponentCmdError>(
                        ComponentCmdError::NotFound,
                    ) <==> old(s).loaded() && !map_of(old(s).dataset().components).contains_key(
                        component,
                    ))
                    &&& (r == Err::<ComponentCmdSuccess, ComponentCmdError>(
                        ComponentCmdError::DoesNotExist,
                    ) <==> old(s).loaded() && map_of(old(s).dataset().components).contains_key(
                        component,
                    ) && !has_key(
                        map_of(old(s).dataset().components)[component].options,
                        option,
                    ))
                    &&& r != Err::<ComponentCmdSuccess, ComponentCmdError>(
                        ComponentCmdError::StillInUse,
                    )
                    &&& (r == Ok::<ComponentCmdSuccess, ComponentCmdError>(
                        ComponentCmdSuccess::RemovedOption { scheduled: true },
                    ) ==> final(s)@ == old(s)@ && map_of(
                        map_of(old(s).dataset().components)[component].options,
                    )[option].delete)
                    &&& (r == Ok::<ComponentCmdSuccess, ComponentCmdError>(
                        ComponentCmdSuccess::RemovedOption { scheduled: false },
                    ) ==> {
                        let c0 = map_of(old(s).dataset().components)[component];
                        let c1 = map_of(final(s).dataset().components)[component];
                        &&& !map_of(c0.options)[option].delete
                        &&& map_of(c1.options) == map_of(c0.options).remove(option)
                        &&& c1.variants == c0.variants
                        &&& map_of(final(s).dataset().components) == map_of(
                            old(s).dataset().components,
                        ).insert(component, c1)
                        &&& final(s).dataset().meals == old(s).dataset().meals
                    })
                    &&& (r is Ok <==> old(s).loaded() && map_of(
                        old(s).dataset().components,
                    ).contains_key(component) && has_key(
                        map_of(old(s).dataset().components)[component].options,
                        option,
                    ))
                    &&& (r is Ok ==> (r == Ok::<ComponentCmdSuccess, ComponentCmdError>(
                        ComponentCmdSuccess::RemovedOption {
                            scheduled: map_of(
                                map_of(old(s).dataset().components)[component].options,
                            )[option].delete,
                        },
                    )))
                },
                ComponentCmd::GetComponents => {
                    &&& (r is Err <==> !old(s).loaded())
                    &&& (r is Err ==> r == Err::<ComponentCmdSuccess, ComponentCmdError>(
                        ComponentCmdError::DatasetNotActive,
                    ))
                    &&& (r is Ok ==> (r matches Ok(ComponentCmdSuccess::GotComponents { data })
                        && data@ == old(s).dataset().components) && final(s)@ == old(s)@)
                },
            }),
    {
        match self {
            ComponentCmd::AddComponent { name, variants, options } => {
                match s.add_component(&name, &variants, &options) {
                    Ok(()) => Ok(ComponentCmdSuccess::AddedComponent),
                    Err(e) => Err(e),
                }
            },
            ComponentCmd::AddVariant { component, name } => {
                match s.add_variant(component, &name) {
                    Ok(()) => Ok(ComponentCmdSuccess::AddedVariant),
                    Err(e) => Err(e),
                }
            },
            ComponentCmd::AddOption { component, name } => {
                match s.add_option(component, &name) {
                    Ok(()) => Ok(ComponentCmdSuccess::AddedOption),
                    Err(e) => Err(e),
                }
            },
            ComponentCmd::RemoveVariant { component, variant } => {
                match s.remove_variant(component, variant) {
                    Ok(scheduled) => Ok(ComponentCmdSuccess::RemovedVariant { scheduled }),
                    Err(e) => Err(e),
                }
            },
            ComponentCmd::RemoveOption { component, option } => {
                match s.remove_option(component, option) {
                    Ok(scheduled) => Ok(ComponentCmdSuccess::RemovedOption { scheduled }),
                    Err(e) => Err(e),
                }
            },
            ComponentCmd::GetComponents => {
                match s.get_components() {
                    Ok(data) => Ok(ComponentCmdSuccess::GotComponents { data }),
                    Err(e) => Err(e),
                }
            },
        }
    }
}

impl MealCmd {
    /// Run this command against the session.
    pub fn execute(self, s: &mut Session) -> (r: Result<MealCmdSuccess, MealCmdError>)
        requires
            old(s).inv(),
        ensures
            final(s).inv(),
            r is Err ==> final(s)@ == old(s)@,
            (match self {
                MealCmd::AddMeal { name, short, components } => {
                    &&& (r == Err::<MealCmdSuccess, MealCmdError>(MealCmdError::EmptyName)
                        <==> trim_of(name@).len() == 0)
                    &&& (r == Err::<MealCmdSuccess, MealCmdError>(MealCmdError::EmptyShort)
                        <==> trim_of(name@).len() > 0 && trim_of(short@).len() == 0)
                    &&& (r == Err::<MealCmdSuccess, MealCmdError>(MealCmdError::DatasetNotActive)
                        <==> trim_of(name@).len() > 0 && trim_of(short@).len() > 0 && !old(
                        s,
                    ).loaded())
                    &&& (r == Err::<MealCmdSuccess, MealCmdError>(
                        MealCmdError::ComponentNotFound,
                    ) <==> trim_of(name@).len() > 0 && trim_of(short@).len() > 0 && old(
                        s,
                    ).loaded() && link_check(old(s).dataset().components, components@) == Some(
                        LinkIssue::MissingComponent,
                    ))
                    &&& (r == Err::<MealCmdSuccess, MealCmdError>(MealCmdError::VariantNotFound)
                        <==> trim_of(name@).len() > 0 && trim_of(short@).len() > 0 && old(
                        s,
                    ).loaded() && link_check(old(s).dataset().components, components@) == Some(
                        LinkIssue::MissingVariant,
                    ))
                    &&& (r is Ok <==> trim_of(name@).len() > 0 && trim_of(short@).len() > 0
                        && old(s).loaded() && link_check(
                        old(s).dataset().components,
                        components@,
                    ) is None)
                    &&& (r is Ok ==> r == Ok::<MealCmdSuccess, MealCmdError>(
                        MealCmdSuccess::AddedMeal,
                    ) && exists|id: u128|
                        #[trigger] added_meal_with(
                            old(s).dataset(),
                            final(s).dataset(),
                            id,
                            trim_of(name@),
                            trim_of(short@),
                            components@,
                        ))
                },
            }),
    {
        match self {
            MealCmd::AddMeal { name, short, components } => {
                match s.add_meal(&name, &short, &components) {
                    Ok(()) => Ok(MealCmdSuccess::AddedMeal),
                    Err(e) => Err(e),
                }
            },
        }
    }
}

} // verus!
