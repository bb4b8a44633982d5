//! Mutations of a dataset: adding components, leaf entities and meals,
//! and the referential-integrity rules that gate removing a leaf.
//!
//! Every operation takes the identifier it will assign as an argument,
//! so its effect is exact for every identifier value; choosing a fresh
//! identifier is the caller's concern.

use crate::idmap::{has_key, keys_distinct, map_of, IdMap};
use crate::model::{
    live_entries, lemma_live_entries_distinct, Component, ComponentV, Data, DataV, LeafV,
    links_map, Meal, MealComponentV, MealV, OptionEntry, Variant,
};
use vstd::prelude::*;

verus! {

/// Some entry of a leaf map carries the (already trimmed) name `n`.
pub open spec fn has_name(s: Seq<(u128, LeafV)>, n: Seq<char>) -> bool {
    exists|i: int| 0 <= i < s.len() && s[i].1.name == n
}

/// Appending a leaf entry adds exactly its name to the name set.
pub proof fn lemma_has_name_push(s: Seq<(u128, LeafV)>, id: u128, leaf: LeafV)
    ensures
        forall|n: Seq<char>|
            #[trigger] has_name(s.push((id, leaf)), n) <==> (has_name(s, n) || leaf.name == n),
{
    let t = s.push((id, leaf));
    assert forall|n: Seq<char>| #[trigger] has_name(t, n) implies (has_name(s, n) || leaf.name
        == n) by {
        let i = choose|i: int| 0 <= i < t.len() && t[i].1.name == n;
        if i < s.len() {
            assert(s[i].1.name == n);
        }
    }
    assert forall|n: Seq<char>| (has_name(s, n) || leaf.name == n) implies #[trigger] has_name(
        t,
        n,
    ) by {
        if has_name(s, n) {
            let i = choose|i: int| 0 <= i < s.len() && s[i].1.name == n;
            assert(t[i].1.name == n);
        } else {
            assert(t[s.len() as int].1.name == n);
        }
    }
}

/// Meal `m` links component `cid` to variant `vid`.
pub open spec fn meal_uses(m: MealV, cid: u128, vid: u128) -> bool {
    exists|j: int|
        0 <= j < m.components.len() && m.components[j].0 == cid && m.components[j].1.variant
            == Some(vid)
}

/// Some meal of the dataset links component `cid` to variant `vid`.
pub open spec fn variant_in_use(d: DataV, cid: u128, vid: u128) -> bool {
    exists|i: int| 0 <= i < d.meals.len() && meal_uses((#[trigger] d.meals[i]).1, cid, vid)
}

/// The first problem a list of requested meal links runs into, if any:
/// a link to a component that does not exist, or to a variant that does
/// not belong to the linked component.
pub ghost enum LinkIssue {
    MissingComponent,
    MissingVariant,
}

pub open spec fn link_check(
    cs: Seq<(u128, ComponentV)>,
    links: Seq<(u128, Option<u128>)>,
) -> Option<LinkIssue>
    decreases links.len(),
{
    if links.len() == 0 {
        None
    } else if !map_of(cs).contains_key(links[0].0) {
        Some(LinkIssue::MissingComponent)
    } else if links[0].1 matches Some(vid) && !has_key(map_of(cs)[links[0].0].variants, vid) {
        Some(LinkIssue::MissingVariant)
    } else {
        link_check(cs, links.drop_first())
    }
}

/// A component after the deferred-purge pass: tombstoned leaves dropped.
pub open spec fn purged_component(c: ComponentV) -> ComponentV {
    ComponentV {
        name: c.name,
        delete: c.delete,
        variants: live_entries(c.variants),
        options: live_entries(c.options),
    }
}

/// Outcome of adding a leaf entity to a component.
#[derive(Debug, PartialEq, Eq)]
pub enum AddLeafOutcome {
    /// The component does not exist.
    NoComponent,
    /// A leaf of the same (trimmed) name already exists; the dataset is
    /// unchanged and the addition counts as a success.
    Existing,
    /// The leaf was inserted.
    Added,
}

/// Outcome of adding a meal.
#[derive(Debug, PartialEq, Eq)]
pub enum AddMealOutcome {
    ComponentMissing,
    VariantMissing,
    Added,
}

/// Outcome of removing a leaf entity.
#[derive(Debug, PartialEq, Eq)]
pub enum RemoveOutcome {
    /// The component does not exist.
    NoComponent,
    /// The component has no leaf with this identifier.
    NoLeaf,
    /// A meal still links the component to this variant; nothing changed.
    InUse,
    /// The leaf was tombstoned and stays in the map until the next purge.
    Scheduled,
    /// The leaf was removed outright.
    Detached,
}

pub proof fn lemma_map_of_entry<T>(s: Seq<(u128, T)>, k: u128)
    requires
        keys_distinct(s),
        map_of(s).contains_key(k),
    ensures
        exists|i: int| 0 <= i < s.len() && s[i].0 == k && s[i].1 == map_of(s)[k],
{
    crate::idmap::lemma_map_of_has_key(s, k);
    let i = choose|i: int| 0 <= i < s.len() && s[i].0 == k;
    crate::idmap::lemma_map_of_index(s, i);
}

/// A predicate true of every value of `s0` and of `v` is true of every
/// value of `s1` when `s1` represents `map_of(s0).insert(id, v)`.
proof fn lemma_entries_pred_after_insert<T>(
    s0: Seq<(u128, T)>,
    s1: Seq<(u128, T)>,
    id: u128,
    v: T,
    p: spec_fn(T) -> bool,
)
    requires
        keys_distinct(s0),
        keys_distinct(s1),
        map_of(s1) == map_of(s0).insert(id, v),
        forall|i: int| 0 <= i < s0.len() ==> p((#[trigger] s0[i]).1),
        p(v),
    ensures
        forall|i: int| 0 <= i < s1.len() ==> p((#[trigger] s1[i]).1),
{
    assert forall|i: int| 0 <= i < s1.len() implies p((#[trigger] s1[i]).1) by {
        crate::idmap::lemma_map_of_index(s1, i);
        let k = s1[i].0;
        if k == id {
            assert(s1[i].1 == v);
        } else {
            assert(map_of(s0).contains_key(k));
            assert(s1[i].1 == map_of(s0)[k]);
            lemma_map_of_entry(s0, k);
        }
    }
}

impl Data {
    /// Insert a component under `id`, replacing any component that
    /// carried `id`.
    pub fn add_component_with_id(
        &mut self,
        id: u128,
        name: String,
        variants: IdMap<Variant>,
        options: IdMap<OptionEntry>,
    )
        requires
            old(self).wf(),
            variants.wf(),
            options.wf(),
        ensures
            final(self).wf(),
            map_of(final(self)@.components) == map_of(old(self)@.components).insert(
                id,
                ComponentV { name: name@, delete: false, variants: variants@, options: options@ },
            ),
            final(self)@.meals == old(self)@.meals,
            final(self)@.year == old(self)@.year,
            final(self)@.month == old(self)@.month,
    {
        let ghost cv = ComponentV {
            name: name@,
            delete: false,
            variants: variants@,
            options: options@,
        };
        let ghost s0 = self@.components;
        self.components.insert(id, Component::new(name, variants, options));
        proof {
            lemma_entries_pred_after_insert(
                s0,
                self@.components,
                id,
                cv,
                |c: ComponentV| c.wf(),
            );
        }
    }

    /// Add a variant named `name` (already trimmed) to a component,
    /// unless one of that name exists already.
    pub fn add_variant_with_id(&mut self, component: u128, id: u128, name: String) -> (r:
        AddLeafOutcome)
        requires
            old(self).wf(),
        ensures
            final(self).wf(),
            final(self)@.meals == old(self)@.meals,
            final(self)@.year == old(self)@.year,
            final(self)@.month == old(self)@.month,
            r == AddLeafOutcome::NoComponent <==> !map_of(old(self)@.components).contains_key(
                component,
            ),
            r == AddLeafOutcome::NoComponent ==> final(self)@ == old(self)@,
            (r == AddLeafOutcome::Existing <==> map_of(old(self)@.components).contains_key(
                component,
            ) && has_name(map_of(old(self)@.components)[component].variants, name@)),
            r == AddLeafOutcome::Existing ==> final(self)@ == old(self)@,
            r == AddLeafOutcome::Added ==> {
                let c0 = map_of(old(self)@.components)[component];
                let c1 = map_of(final(self)@.components)[component];
                &&& map_of(old(self)@.components).contains_key(component)
                &&& !has_name(c0.variants, name@)
                &&& c1.name == c0.name
                &&& c1.delete == c0.delete
                &&& c1.options == c0.options
                &&& keys_distinct(c1.variants)
                &&& map_of(c1.variants) == map_of(c0.variants).insert(
                    id,
                    LeafV { name: name@, delete: false },
                )
                &&& map_of(final(self)@.components) == map_of(old(self)@.components).insert(
                    component,
                    c1,
                )
            },
    {
        let ci = match self.components.index_of(component) {
            Some(ci) => ci,
            None => {
                proof {
                    crate::idmap::lemma_map_of_has_key(self@.components, component);
                }
                return AddLeafOutcome::NoComponent;
            },
        };
        proof {
            crate::idmap::lemma_map_of_has_key(self@.components, component);
            crate::idmap::lemma_map_of_index(self@.components, ci as int);
        }
        let ghost c0 = map_of(self@.components)[component];
        // Idempotent by name: a leaf with the same trimmed name already
        // present means silent success.
        let nv = self.components.entries[ci].val.variants.entries.len();
        for j in 0..nv
            invariant
                self@ == old(self)@,
                self.wf(),
                ci < self.components.entries.len(),
                map_of(self@.components).contains_key(component),
                c0 == map_of(self@.components)[component],
                nv == self.components.entries[ci as int].val.variants.entries.len(),
                self.components.entries[ci as int].val.variants@ == c0.variants,
                forall|k: int| 0 <= k < j ==> c0.variants[k].1.name != name@,
        {
            proof {
                assert(c0.variants[j as int] == self.components.entries[ci as int].val.variants
                    .entries[j as int]@);
            }
            if self.components.entries[ci].val.variants.entries[j].val.name == name {
                assert(c0.variants[j as int].1.name == name@);
                assert(has_name(c0.variants, name@));
                return AddLeafOutcome::Existing;
            }
        }
        assert(!has_name(c0.variants, name@));
        let ghost s0 = self@.components;
        let mut entry = self.components.entries.remove(ci);
        entry.val.variants.insert(id, Variant::new(name));
        let ghost c1 = entry.val@;
        self.components.entries.insert(ci, entry);
        proof {
            assert(self@.components =~= s0.update(ci as int, (component, c1)));
            crate::idmap::lemma_map_of_update(s0, ci as int, c1);
            lemma_entries_pred_after_insert(
                s0,
                self@.components,
                component,
                c1,
                |c: ComponentV| c.wf(),
            );
        }
        AddLeafOutcome::Added
    }

    /// Add an option named `name` (already trimmed) to a component,
    /// unless one of that name exists already.
    pub fn add_option_with_id(&mut self, component: u128, id: u128, name: String) -> (r:
        AddLeafOutcome)
        requires
            old(self).wf(),
        ensures
            final(self).wf(),
            final(self)@.meals == old(self)@.meals,
            final(self)@.year == old(self)@.year,
            final(self)@.month == old(self)@.month,
            r == AddLeafOutcome::NoComponent <==> !map_of(old(self)@.components).contains_key(
                component,
            ),
            r == AddLeafOutcome::NoComponent ==> final(self)@ == old(self)@,
            (r == AddLeafOutcome::Existing <==> map_of(old(self)@.components).contains_key(
                component,
            ) && has_name(map_of(old(self)@.components)[component].options, name@)),
            r == AddLeafOutcome::Existing ==> final(self)@ == old(self)@,
            r == AddLeafOutcome::Added ==> {
                let c0 = map_of(old(self)@.components)[component];
                let c1 = map_of(final(self)@.components)[component];
                &&& map_of(old(self)@.components).contains_key(component)
                &&& !has_name(c0.options, name@)
                &&& c1.name == c0.name
                &&& c1.delete == c0.delete
                &&& c1.variants == c0.variants
                &&& keys_distinct(c1.options)
                &&& map_of(c1.options) == map_of(c0.options).insert(
                    id,
                    LeafV { name: name@, delete: false },
                )
                &&& map_of(final(self)@.components) == map_of(old(self)@.components).insert(
                    component,
                    c1,
                )
            },
    {
        let ci = match self.components.index_of(component) {
            Some(ci) => ci,
            None => {
                proof {
                    crate::idmap::lemma_map_of_has_key(self@.components, component);
                }
                return AddLeafOutcome::NoComponent;
            },
        };
        proof {
            crate::idmap::lemma_map_of_has_key(self@.components, component);
            crate::idmap::lemma_map_of_index(self@.components, ci as int);
        }
        let ghost c0 = map_of(self@.components)[component];
        let no = self.components.entries[ci].val.options.entries.len();
        for j in 0..no
            invariant
                self@ == old(self)@,
                self.wf(),
                ci < self.components.entries.len(),
                map_of(self@.components).contains_key(component),
                c0 == map_of(self@.components)[component],
                no == self.components.entries[ci as int].val.options.entries.len(),
                self.components.entries[ci as int].val.options@ == c0.options,
                forall|k: int| 0 <= k < j ==> c0.options[k].1.name != name@,
        {
            proof {
                assert(c0.options[j as int] == self.components.entries[ci as int].val.options
                    .entries[j as int]@);
            }
            if self.components.entries[ci].val.options.entries[j].val.name == name {
                assert(c0.options[j as int].1.name == name@);
                assert(has_name(c0.options, name@));
                return AddLeafOutcome::Existing;
            }
        }
        assert(!has_name(c0.options, name@));
        let ghost s0 = self@.components;
        let mut entry = self.components.entries.remove(ci);
        entry.val.options.insert(id, OptionEntry::new(name));
        let ghost c1 = entry.val@;
        self.components.entries.insert(ci, entry);
        proof {
            assert(self@.components =~= s0.update(ci as int, (component, c1)));
            crate::idmap::lemma_map_of_update(s0, ci as int, c1);
            lemma_entries_pred_after_insert(
                s0,
                self@.components,
                component,
                c1,
                |c: ComponentV| c.wf(),
            );
        }
        AddLeafOutcome::Added
    }

    /// Add a meal under `id` after validating every requested link;
    /// a failed validation leaves the dataset untouched.
    pub fn add_meal_with_id(
        &mut self,
        id: u128,
        name: String,
        short: String,
        links: &Vec<(u128, Option<u128>)>,
    ) -> (r: AddMealOutcome)
        requires
            old(self).wf(),
        ensures
            final(self).wf(),
            final(self)@.components == old(self)@.components,
            final(self)@.year == old(self)@.year,
            final(self)@.month == old(self)@.month,
            (r == AddMealOutcome::ComponentMissing <==> link_check(old(self)@.components, links@)
                == Some(LinkIssue::MissingComponent)),
            (r == AddMealOutcome::VariantMissing <==> link_check(old(self)@.components, links@)
                == Some(LinkIssue::MissingVariant)),
            r != AddMealOutcome::Added ==> final(self)@ == old(self)@,
            r == AddMealOutcome::Added ==> {
                let m1 = map_of(final(self)@.meals)[id];
                &&& link_check(old(self)@.components, links@) is None
                &&& m1.name == name@
                &&& m1.short == short@
                &&& m1.delete == false
                &&& m1.wf()
                &&& map_of(m1.components) == links_map(links@)
                &&& map_of(final(self)@.meals) == map_of(old(self)@.meals).insert(id, m1)
            },
    {
        let n = links.len();
        proof {
            assert(links@.skip(0) =~= links@);
        }
        for i in 0..n
            invariant
                n == links@.len(),
                self@ == old(self)@,
                self.wf(),
                link_check(self@.components, links@) == link_check(
                    self@.components,
                    links@.skip(i as int),
                ),
        {
            let (cid, var) = &links[i];
            proof {
                assert(links@.skip(i as int)[0] == links@[i as int]);
                assert(links@.skip(i as int).drop_first() =~= links@.skip(i + 1));
            }
            match self.components.get(*cid) {
                None => {
                    return AddMealOutcome::ComponentMissing;
                },
                Some(c) => {
                    if let Some(vid) = var {
                        proof {
                            crate::idmap::lemma_map_of_has_key(
                                map_of(self@.components)[*cid].variants,
                                *vid,
                            );
                        }
                        if !c.variants.contains_key(*vid) {
                            return AddMealOutcome::VariantMissing;
                        }
                    }
                },
            }
        }
        proof {
            assert(links@.skip(n as int) =~= Seq::<(u128, Option<u128>)>::empty());
        }
        let meal = Meal::new(name, short, links);
        let ghost mv = meal@;
        let ghost s0 = self@.meals;
        self.meals.insert(id, meal);
        proof {
            lemma_entries_pred_after_insert(s0, self@.meals, id, mv, |m: MealV| m.wf());
        }
        AddMealOutcome::Added
    }

    /// Remove a variant of a component, honouring the referential-
    /// integrity rules: a variant some meal still links to is kept
    /// untouched; an unused but tombstoned variant stays until the next
    /// purge; an unused, untombstoned variant is removed outright.
    pub fn remove_variant(&mut self, component: u128, variant: u128) -> (r: RemoveOutcome)
        requires
            old(self).wf(),
        ensures
            final(self).wf(),
            final(self)@.meals == old(self)@.meals,
            final(self)@.year == old(self)@.year,
            final(self)@.month == old(self)@.month,
            r == RemoveOutcome::NoComponent <==> !map_of(old(self)@.components).contains_key(
                component,
            ),
            (r == RemoveOutcome::NoLeaf <==> map_of(old(self)@.components).contains_key(component)
                && !has_key(map_of(old(self)@.components)[component].variants, variant)),
            (r == RemoveOutcome::InUse <==> map_of(old(self)@.components).contains_key(component)
                && has_key(map_of(old(self)@.components)[component].variants, variant)
                && variant_in_use(old(self)@, component, variant)),
            (r == RemoveOutcome::Scheduled <==> map_of(old(self)@.components).contains_key(
                component,
            ) && has_key(map_of(old(self)@.components)[component].variants, variant)
                && !variant_in_use(old(self)@, component, variant) && map_of(
                map_of(old(self)@.components)[component].variants,
            )[variant].delete),
            r != RemoveOutcome::Detached ==> final(self)@ == old(self)@,
            r == RemoveOutcome::Detached ==> {
                let c0 = map_of(old(self)@.components)[component];
                let c1 = map_of(final(self)@.components)[component];
                &&& map_of(old(self)@.components).contains_key(component)
                &&& has_key(c0.variants, variant)
                &&& !variant_in_use(old(self)@, component, variant)
                &&& !map_of(c0.variants)[variant].delete
                &&& c1.name == c0.name
                &&& c1.delete == c0.delete
                &&& c1.options == c0.options
                &&& keys_distinct(c1.variants)
                &&& map_of(c1.variants) == map_of(c0.variants).remove(variant)
                &&& map_of(final(self)@.components) == map_of(old(self)@.components).insert(
                    component,
                    c1,
                )
            },
    {
        let ci = match self.components.index_of(component) {
            Some(ci) => ci,
            None => {
                proof {
                    crate::idmap::lemma_map_of_has_key(self@.components, component);
                }
                return RemoveOutcome::NoComponent;
            },
        };
        proof {
            crate::idmap::lemma_map_of_has_key(self@.components, component);
            crate::idmap::lemma_map_of_index(self@.components, ci as int);
        }
        let ghost c0 = map_of(self@.components)[component];
        let vi = match self.components.entries[ci].val.variants.index_of(variant) {
            Some(vi) => vi,
            None => {
                return RemoveOutcome::NoLeaf;
            },
        };
        proof {
            crate::idmap::lemma_map_of_index(c0.variants, vi as int);
        }
        if self.variant_used_by_meal(component, variant) {
            return RemoveOutcome::InUse;
        }
        if self.components.entries[ci].val.variants.entries[vi].val.delete {
            // Passively retained: the tombstone keeps the entry in the
            // map until the next dataset-creation purge.
            return RemoveOutcome::Scheduled;
        }
        let ghost s0 = self@.components;
        let mut entry = self.components.entries.remove(ci);
        entry.val.variants.remove(variant);
        let ghost c1 = entry.val@;
        self.components.entries.insert(ci, entry);
        proof {
            assert(self@.components =~= s0.update(ci as int, (component, c1)));
            crate::idmap::lemma_map_of_update(s0, ci as int, c1);
            lemma_entries_pred_after_insert(
                s0,
                self@.components,
                component,
                c1,
                |c: ComponentV| c.wf(),
            );
        }
        RemoveOutcome::Detached
    }

    /// Remove an option of a component. Meals never link to options, so
    /// an option is never actively in use; only the tombstone flag can
    /// keep it in the map.
    pub fn remove_option(&mut self, component: u128, option: u128) -> (r: RemoveOutcome)
        requires
            old(self).wf(),
        ensures
            final(self).wf(),
            final(self)@.meals == old(self)@.meals,
            final(self)@.year == old(self)@.year,
            final(self)@.month == old(self)@.month,
            r != RemoveOutcome::InUse,
            r == RemoveOutcome::NoComponent <==> !map_of(old(self)@.components).contains_key(
                component,
            ),
            (r == RemoveOutcome::NoLeaf <==> map_of(old(self)@.components).contains_key(component)
                && !has_key(map_of(old(self)@.components)[component].options, option)),
            (r == RemoveOutcome::Scheduled <==> map_of(old(self)@.components).contains_key(
                component,
            ) && has_key(map_of(old(self)@.components)[component].options, option) && map_of(
                map_of(old(self)@.components)[component].options,
            )[option].delete),
            r != RemoveOutcome::Detached ==> final(self)@ == old(self)@,
            r == RemoveOutcome::Detached ==> {
                let c0 = map_of(old(self)@.components)[component];
                let c1 = map_of(final(self)@.components)[component];
                &&& map_of(old(self)@.components).contains_key(component)
                &&& has_key(c0.options, option)
                &&& !map_of(c0.options)[option].delete
                &&& c1.name == c0.name
                &&& c1.delete == c0.delete
                &&& c1.variants == c0.variants
                &&& keys_distinct(c1.options)
                &&& map_of(c1.options) == map_of(c0.options).remove(option)
                &&& map_of(final(self)@.components) == map_of(old(self)@.components).insert(
                    component,
                    c1,
                )
            },
    {
        let ci = match self.components.index_of(component) {
            Some(ci) => ci,
            None => {
                proof {
                    crate::idmap::lemma_map_of_has_key(self@.components, component);
                }
                return RemoveOutcome::NoComponent;
            },
        };
        proof {
            crate::idmap::lemma_map_of_has_key(self@.components, component);
            crate::idmap::lemma_map_of_index(self@.components, ci as int);
        }
        let ghost c0 = map_of(self@.components)[component];
        let oi = match self.components.entries[ci].val.options.index_of(option) {
            Some(oi) => oi,
            None => {
                return RemoveOutcome::NoLeaf;
            },
        };
        proof {
            crate::idmap::lemma_map_of_index(c0.options, oi as int);
        }
        if self.components.entries[ci].val.options.entries[oi].val.delete {
            return RemoveOutcome::Scheduled;
        }
        let ghost s0 = self@.components;
        let mut entry = self.components.entries.remove(ci);
        entry.val.options.remove(option);
        let ghost c1 = entry.val@;
        self.components.entries.insert(ci, entry);
        proof {
            assert(self@.components =~= s0.update(ci as int, (component, c1)));
            crate::idmap::lemma_map_of_update(s0, ci as int, c1);
            lemma_entries_pred_after_insert(
                s0,
                self@.components,
                component,
                c1,
                |c: ComponentV| c.wf(),
            );
        }
        RemoveOutcome::Detached
    }

    /// Whether any meal links `component` to `variant`.
    pub fn variant_used_by_meal(&self, component: u128, variant: u128) -> (r: bool)
        ensures
            r == variant_in_use(self@, component, variant),
    {
        let nm = self.meals.entries.len();
        for i in 0..nm
            invariant
                nm == self.meals.entries.len(),
                forall|k: int| 0 <= k < i ==> !meal_uses(self@.meals[k].1, component, variant),
        {
            let links = &self.meals.entries[i].val.components;
            let nl = links.entries.len();
            for j in 0..nl
                invariant
                    i < self.meals.entries.len(),
                    nm == self.meals.entries.len(),
                    nl == self@.meals[i as int].1.components.len(),
                    links == &self.meals.entries[i as int].val.components,
                    forall|k: int| 0 <= k < i ==> !meal_uses(self@.meals[k].1, component, variant),
                    forall|l: int|
                        0 <= l < j ==> !(self@.meals[i as int].1.components[l].0 == component
                            && self@.meals[i as int].1.components[l].1.variant == Some(variant)),
            {
                let e = &links.entries[j];
                proof {
                    assert(self@.meals[i as int].1.components[j as int] == links.entries[
                        j as int
                    ]@);
                }
                if e.id == component {
                    if let Some(v) = &e.val.variant {
                        if *v == variant {
                            assert(self@.meals[i as int].1.components[j as int].0 == component
                                && self@.meals[i as int].1.components[j as int].1.variant == Some(
                                variant,
                            ));
                            assert(meal_uses(self@.meals[i as int].1, component, variant));
                            return true;
                        }
                    }
                }
            }
            assert(!meal_uses(self@.meals[i as int].1, component, variant));
        }
        false
    }

    /// The deferred-purge pass: drop every tombstoned variant and option
    /// of every component. Run when a dataset period is closed out by
    /// the creation of its successor, at which point scheduled removals
    /// become permanent.
    pub fn purge_deleted(&mut self)
        requires
            old(self).wf(),
        ensures
            final(self).wf(),
            final(self)@.meals == old(self)@.meals,
            final(self)@.year == old(self)@.year,
            final(self)@.month == old(self)@.month,
            final(self)@.components.len() == old(self)@.components.len(),
            forall|i: int|
                0 <= i < old(self)@.components.len() ==> (#[trigger] final(self)@.components[i])
                    == (old(self)@.components[i].0, purged_component(old(self)@.components[i].1)),
    {
        let ghost s0 = self@.components;
        let n = self.components.entries.len();
        for ci in 0..n
            invariant
                n == self.components.entries.len(),
                n == s0.len(),
                self@.meals == old(self)@.meals,
                self@.year == old(self)@.year,
                self@.month == old(self)@.month,
                self@.wf(),
                forall|k: int|
                    ci <= k < n ==> (#[trigger] self@.components[k]) == s0[k],
                forall|k: int|
                    0 <= k < ci ==> (#[trigger] self@.components[k]) == (
                        s0[k].0,
                        purged_component(s0[k].1),
                    ),
        {
            let ghost before = self@.components;
            let mut entry = self.components.entries.remove(ci);
            let ghost cv0 = entry.val@;

            let mut variants: Vec<crate::idmap::Entry<Variant>> = Vec::new();
            let nv = entry.val.variants.entries.len();
            for j in 0..nv
                invariant
                    nv == entry.val.variants.entries.len(),
                    entry.val.variants@ == cv0.variants,
                    variants@.map_values(|e: crate::idmap::Entry<Variant>| e@) =~= live_entries(
                        cv0.variants.take(j as int),
                    ),
            {
                proof {
                    assert(cv0.variants.take(j + 1).drop_last() =~= cv0.variants.take(j as int));
                    assert(cv0.variants.take(j + 1).last() == cv0.variants[j as int]);
                }
                let e = &entry.val.variants.entries[j];
                if !e.val.delete {
                    variants.push(crate::idmap::Entry { id: e.id, val: e.val.duplicate() });
                }
            }
            proof {
                assert(cv0.variants.take(nv as int) =~= cv0.variants);
            }

            let mut options: Vec<crate::idmap::Entry<OptionEntry>> = Vec::new();
            let no = entry.val.options.entries.len();
            for j in 0..no
                invariant
                    no == entry.val.options.entries.len(),
                    entry.val.options@ == cv0.options,
                    options@.map_values(|e: crate::idmap::Entry<OptionEntry>| e@) =~= live_entries(
                        cv0.options.take(j as int),
                    ),
            {
                proof {
                    assert(cv0.options.take(j + 1).drop_last() =~= cv0.options.take(j as int));
                    assert(cv0.options.take(j + 1).last() == cv0.options[j as int]);
                }
                let e = &entry.val.options.entries[j];
                if !e.val.delete {
                    options.push(crate::idmap::Entry { id: e.id, val: e.val.duplicate() });
                }
            }
            proof {
                assert(cv0.options.take(no as int) =~= cv0.options);
            }

            entry.val.variants = IdMap { entries: variants };
            entry.val.options = IdMap { entries: options };
            let ghost cv1 = entry.val@;
            self.components.entries.insert(ci, entry);
            proof {
                assert(cv1 == purged_component(cv0));
                assert(self@.components =~= before.update(ci as int, (before[ci as int].0, cv1)));
                assert(keys_distinct(self@.components)) by {
                    assert(forall|k: int|
                        0 <= k < self@.components.len() ==> (#[trigger] self@.components[k]).0
                            == before[k].0);
                }
                lemma_live_entries_distinct(cv0.variants);
                lemma_live_entries_distinct(cv0.options);
            }
        }
    }
}

} // verus!
