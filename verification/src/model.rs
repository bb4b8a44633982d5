//! The entity model: a dataset for one month holds components, their
//! leaf entities (variants and options), and meals that reference them.

use crate::idmap::{has_key, keys_distinct, map_of, Entry, IdMap};
use vstd::prelude::*;

verus! {

/// Mathematical content of a variant or option: both are leaf entities
/// of a component with the same structure.
pub ghost struct LeafV {
    pub name: Seq<char>,
    pub delete: bool,
}

/// A single variant of a component.
pub struct Variant {
    pub name: String,
    pub delete: bool,
}

impl View for Variant {
    type V = LeafV;

    open spec fn view(&self) -> LeafV {
        LeafV { name: self.name@, delete: self.delete }
    }
}

impl Variant {
    pub fn new(name: String) -> (r: Self)
        ensures
            r@ == (LeafV { name: name@, delete: false }),
    {
        Variant { name, delete: false }
    }

    pub fn duplicate(&self) -> (r: Self)
        ensures
            r@ == self@,
    {
        Variant { name: self.name.clone(), delete: self.delete }
    }
}

/// A single option of a component.
pub struct OptionEntry {
    pub name: String,
    pub delete: bool,
}

impl View for OptionEntry {
    type V = LeafV;

    open spec fn view(&self) -> LeafV {
        LeafV { name: self.name@, delete: self.delete }
    }
}

impl OptionEntry {
    pub fn new(name: String) -> (r: Self)
        ensures
            r@ == (LeafV { name: name@, delete: false }),
    {
        OptionEntry { name, delete: false }
    }

    pub fn duplicate(&self) -> (r: Self)
        ensures
            r@ == self@,
    {
        OptionEntry { name: self.name.clone(), delete: self.delete }
    }
}

/// Mathematical content of a component.
pub ghost struct ComponentV {
    pub name: Seq<char>,
    pub delete: bool,
    pub variants: Seq<(u128, LeafV)>,
    pub options: Seq<(u128, LeafV)>,
}

impl ComponentV {
    /// Identifiers are distinct within each leaf map.
    pub open spec fn wf(self) -> bool {
        keys_distinct(self.variants) && keys_distinct(self.options)
    }
}

/// A category of meal content, owning its variants and options.
pub struct Component {
    pub name: String,
    pub delete: bool,
    pub variants: IdMap<Variant>,
    pub options: IdMap<OptionEntry>,
}

impl View for Component {
    type V = ComponentV;

    open spec fn view(&self) -> ComponentV {
        ComponentV {
            name: self.name@,
            delete: self.delete,
            variants: self.variants@,
            options: self.options@,
        }
    }
}

impl Component {
    pub fn new(name: String, variants: IdMap<Variant>, options: IdMap<OptionEntry>) -> (r: Self)
        ensures
            r@ == (ComponentV {
                name: name@,
                delete: false,
                variants: variants@,
                options: options@,
            }),
    {
        Component { name, delete: false, variants, options }
    }

    pub fn duplicate(&self) -> (r: Self)
        ensures
            r@ == self@,
    {
        let mut variants: Vec<Entry<Variant>> = Vec::new();
        let nv = self.variants.entries.len();
        for i in 0..nv
            invariant
                nv == self.variants.entries.len(),
                variants@.map_values(|e: Entry<Variant>| e@) =~= self.variants@.take(i as int),
        {
            let e = &self.variants.entries[i];
            variants.push(Entry { id: e.id, val: e.val.duplicate() });
            proof {
                assert(self.variants@.take(i + 1).drop_last() =~= self.variants@.take(i as int));
            }
        }
        let mut options: Vec<Entry<OptionEntry>> = Vec::new();
        let no = self.options.entries.len();
        for i in 0..no
            invariant
                no == self.options.entries.len(),
                options@.map_values(|e: Entry<OptionEntry>| e@) =~= self.options@.take(i as int),
        {
            let e = &self.options.entries[i];
            options.push(Entry { id: e.id, val: e.val.duplicate() });
            proof {
                assert(self.options@.take(i + 1).drop_last() =~= self.options@.take(i as int));
            }
        }
        let r = Component {
            name: self.name.clone(),
            delete: self.delete,
            variants: IdMap { entries: variants },
            options: IdMap { entries: options },
        };
        proof {
            assert(self.variants@.take(nv as int) =~= self.variants@);
            assert(self.options@.take(no as int) =~= self.options@);
        }
        r
    }
}

/// Mathematical content of one meal-to-component link.
pub ghost struct MealComponentV {
    pub variant: Option<u128>,
    pub delete: bool,
}

/// Records that a meal uses a component and, optionally, which of the
/// component's variants was chosen.
pub struct MealComponent {
    pub variant: Option<u128>,
    pub delete: bool,
}

impl View for MealComponent {
    type V = MealComponentV;

    open spec fn view(&self) -> MealComponentV {
        MealComponentV { variant: self.variant, delete: self.delete }
    }
}

impl MealComponent {
    pub fn new(variant: Option<u128>) -> (r: Self)
        ensures
            r@ == (MealComponentV { variant, delete: false }),
    {
        MealComponent { variant, delete: false }
    }

}

/// Mathematical content of a meal.
pub ghost struct MealV {
    pub name: Seq<char>,
    pub short: Seq<char>,
    pub delete: bool,
    pub components: Seq<(u128, MealComponentV)>,
}

impl MealV {
    pub open spec fn wf(self) -> bool {
        keys_distinct(self.components)
    }
}

/// The mapping that a list of requested component links represents:
/// a later request for the same component wins.
pub open spec fn links_map(links: Seq<(u128, Option<u128>)>) -> Map<u128, MealComponentV>
    decreases links.len(),
{
    if links.len() == 0 {
        Map::empty()
    } else {
        links_map(links.drop_last()).insert(
            links.last().0,
            MealComponentV { variant: links.last().1, delete: false },
        )
    }
}

/// A concrete menu item referencing components by identifier.
pub struct Meal {
    pub name: String,
    pub short: String,
    pub delete: bool,
    pub components: IdMap<MealComponent>,
}

impl View for Meal {
    type V = MealV;

    open spec fn view(&self) -> MealV {
        MealV {
            name: self.name@,
            short: self.short@,
            delete: self.delete,
            components: self.components@,
        }
    }
}

impl Meal {
    /// Build a meal from requested component links; a later link for the
    /// same component replaces an earlier one.
    pub fn new(name: String, short: String, components: &Vec<(u128, Option<u128>)>) -> (r: Self)
        ensures
            r@.name == name@,
            r@.short == short@,
            r@.delete == false,
            r@.wf(),
            map_of(r@.components) == links_map(components@),
    {
        let mut links: IdMap<MealComponent> = IdMap::new();
        let n = components.len();
        for i in 0..n
            invariant
                n == components@.len(),
                links.wf(),
                links.as_map() == links_map(components@.take(i as int)),
        {
            let (cid, var) = components[i];
            links.insert(cid, MealComponent::new(var));
            proof {
                assert(components@.take(i + 1).drop_last() =~= components@.take(i as int));
                assert(components@.take(i + 1).last() == components@[i as int]);
            }
        }
        proof {
            assert(components@.take(n as int) =~= components@);
        }
        Meal { name, short, delete: false, components: links }
    }
}

/// Mathematical content of a dataset.
pub ghost struct DataV {
    pub year: i32,
    pub month: u32,
    pub components: Seq<(u128, ComponentV)>,
    pub meals: Seq<(u128, MealV)>,
}

impl DataV {
    /// Identifiers are distinct at every level.
    pub open spec fn wf(self) -> bool {
        &&& keys_distinct(self.components)
        &&& keys_distinct(self.meals)
        &&& forall|i: int| 0 <= i < self.components.len() ==> (#[trigger] self.components[i]).1.wf()
        &&& forall|i: int| 0 <= i < self.meals.len() ==> (#[trigger] self.meals[i]).1.wf()
    }
}

/// All application data for one month.
pub struct Data {
    pub year: i32,
    pub month: u32,
    pub components: IdMap<Component>,
    pub meals: IdMap<Meal>,
}

impl View for Data {
    type V = DataV;

    open spec fn view(&self) -> DataV {
        DataV {
            year: self.year,
            month: self.month,
            components: self.components@,
            meals: self.meals@,
        }
    }
}

impl Data {
    pub open spec fn wf(&self) -> bool {
        self@.wf()
    }

    /// An empty dataset for the given period.
    pub fn new(year: i32, month: u32) -> (r: Self)
        ensures
            r@ == (DataV {
                year,
                month,
                components: Seq::<(u128, ComponentV)>::empty(),
                meals: Seq::<(u128, MealV)>::empty(),
            }),
            r.wf(),
    {
        Data { year, month, components: IdMap::new(), meals: IdMap::new() }
    }

    pub fn duplicate_components(&self) -> (r: IdMap<Component>)
        ensures
            r@ == self@.components,
    {
        let mut out: Vec<Entry<Component>> = Vec::new();
        let n = self.components.entries.len();
        for i in 0..n
            invariant
                n == self.components.entries.len(),
                out@.map_values(|e: Entry<Component>| e@) =~= self@.components.take(i as int),
        {
            let e = &self.components.entries[i];
            out.push(Entry { id: e.id, val: e.val.duplicate() });
            proof {
                assert(self@.components.take(i + 1).drop_last() =~= self@.components.take(
                    i as int,
                ));
            }
        }
        proof {
            assert(self@.components.take(n as int) =~= self@.components);
        }
        IdMap { entries: out }
    }
}

/// The entries of a leaf map that are not tombstoned.
pub open spec fn live_entries(s: Seq<(u128, LeafV)>) -> Seq<(u128, LeafV)>
    decreases s.len(),
{
    if s.len() == 0 {
        Seq::empty()
    } else {
        live_entries(s.drop_last()) + if s.last().1.delete {
            Seq::<(u128, LeafV)>::empty()
        } else {
            seq![s.last()]
        }
    }
}

/// Every key of the live entries is a key of the unfiltered map.
pub proof fn lemma_live_entries_keys(s: Seq<(u128, LeafV)>, id: u128)
    requires
        has_key(live_entries(s), id),
    ensures
        has_key(s, id),
    decreases s.len(),
{
    if s.len() == 0 {
    } else {
        let l = live_entries(s);
        let i = choose|i: int| 0 <= i < l.len() && l[i].0 == id;
        if !s.last().1.delete && i == l.len() - 1 {
            assert(s[s.len() - 1].0 == id);
        } else {
            assert(live_entries(s.drop_last())[i] == l[i]);
            lemma_live_entries_keys(s.drop_last(), id);
            let j = choose|j: int|
                0 <= j < s.drop_last().len() && s.drop_last()[j].0 == id;
            assert(s[j].0 == id);
        }
    }
}

/// Filtering tombstoned entries out keeps the identifiers distinct.
pub proof fn lemma_live_entries_distinct(s: Seq<(u128, LeafV)>)
    requires
        keys_distinct(s),
    ensures
        keys_distinct(live_entries(s)),
    decreases s.len(),
{
    if s.len() == 0 {
    } else {
        assert(keys_distinct(s.drop_last()));
        lemma_live_entries_distinct(s.drop_last());
        if !s.last().1.delete {
            let l0 = live_entries(s.drop_last());
            let l = live_entries(s);
            assert(l =~= l0.push(s.last()));
            assert(keys_distinct(l)) by {
                assert(forall|k: int| 0 <= k < l0.len() ==> l[k] == l0[k]);
                assert(!has_key(l0, s.last().0)) by {
                    if has_key(l0, s.last().0) {
                        lemma_live_entries_keys(s.drop_last(), s.last().0);
                        let j = choose|j: int|
                            0 <= j < s.drop_last().len() && s.drop_last()[j].0 == s.last().0;
                        assert(s[j].0 == s.last().0);
                    }
                }
            }
        }
    }
}

} // verus!
