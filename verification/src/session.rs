//! The dataset session: at most one dataset is loaded per process, and
//! every entity operation goes through it.
//!
//! Operations that need the file system are split in two: a `prepare_*`
//! step that decides — without mutating the session — whether the
//! request may proceed, and an `install_*` step that the caller invokes
//! once the storage side (opening, locking, reading) has succeeded.
//! The storage work itself lives outside this crate.

use crate::codec_data::{decode, enc_data, encodable, encode, spec_decode};
use crate::commands::{ComponentCmdError, MealCmdError};
use crate::engine::{
    has_name, link_check, variant_in_use, AddLeafOutcome, AddMealOutcome, LinkIssue,
    RemoveOutcome,
};
use crate::idmap::{has_key, keys_distinct, map_of, IdMap};
use crate::model::{Component, ComponentV, Data, DataV, LeafV, links_map, MealV, OptionEntry,
    Variant};
use crate::registry::file_exists;
use crate::trusted::{current_date, fresh_id, trim_of, trim_str};
use vstd::prelude::*;

verus! {

/// Errors of the session-level operations.
#[derive(Debug, PartialEq, Eq)]
pub enum GlobalCmdError {
    /// A dataset file for this period already exists.
    DatasetExists,
    /// A dataset is already loaded.
    DatasetIsActive,
    /// No dataset is loaded.
    DatasetNotActive,
    /// The storage side could not read or write a file.
    IoError,
    /// The storage side could not lock the dataset's files.
    LockError,
    /// The requested dataset does not exist.
    NoDataset,
    /// The file's content is not a dataset encoding.
    DecodeError,
}

/// The reported session state.
#[derive(Debug, PartialEq, Eq)]
pub enum State {
    /// No dataset is loaded; the user has yet to select one.
    Select,
    /// The dataset of this period is loaded.
    Loaded { year: i32, month: u32 },
}

/// A key that no entry of `m` carries: a random identifier when it is
/// unused (the overwhelmingly common case), else the first unused value
/// of `0..=m.len()`, of which there must be one.
pub fn unused_key<V: View>(m: &IdMap<V>) -> (r: u128)
    requires
        m.wf(),
    ensures
        !m.as_map().contains_key(r),
{
    let id = fresh_id();
    if !m.contains_key(id) {
        return id;
    }
    let n = m.len() as u128;
    let mut c: u128 = 0;
    while c <= n
        invariant
            m.wf(),
            n == m@.len(),
            n <= usize::MAX as u128,
            c <= n + 1,
            forall|x: u128| x < c ==> m.as_map().contains_key(x),
        decreases n + 1 - c,
    {
        if !m.contains_key(c) {
            return c;
        }
        assert(c < u128::MAX);
        c = c + 1;
    }
    proof {
        crate::idmap::lemma_unused_key_exists(m@);
        let x = choose|x: u128| x as nat <= m@.len() && !has_key(m@, x);
        crate::idmap::lemma_map_of_has_key(m@, x);
        assert(m.as_map().contains_key(x));
    }
    0
}

/// Some name of the list trims to the empty string.
pub open spec fn some_trim_empty(names: Seq<String>) -> bool {
    exists|i: int| 0 <= i < names.len() && trim_of((#[trigger] names[i])@).len() == 0
}

/// The leaf map holds exactly the trimmed names of the list, each name
/// once, each entry untombstoned.
pub open spec fn leafset_matches(m: Seq<(u128, LeafV)>, names: Seq<String>) -> bool {
    &&& forall|n: Seq<char>|
        #[trigger] has_name(m, n) ==> exists|i: int|
            0 <= i < names.len() && trim_of((#[trigger] names[i])@) == n
    &&& forall|i: int|
        0 <= i < names.len() ==> has_name(m, trim_of((#[trigger] names[i])@))
    &&& forall|j: int| 0 <= j < m.len() ==> (#[trigger] m[j]).1.delete == false
    &&& forall|j: int, k: int|
        0 <= j < k < m.len() ==> (#[trigger] m[j]).1.name != (#[trigger] m[k]).1.name
}

/// A component added under `id`: fresh identifier, trimmed name, leaf
/// maps built from the requested name lists, everything else unchanged.
pub open spec fn added_component_with(
    d0: DataV,
    d1: DataV,
    id: u128,
    nm: Seq<char>,
    vns: Seq<String>,
    ons: Seq<String>,
) -> bool {
    &&& !map_of(d0.components).contains_key(id)
    &&& map_of(d1.components).contains_key(id)
    &&& map_of(d1.components) == map_of(d0.components).insert(id, map_of(d1.components)[id])
    &&& map_of(d1.components)[id].name == nm
    &&& map_of(d1.components)[id].delete == false
    &&& map_of(d1.components)[id].wf()
    &&& leafset_matches(map_of(d1.components)[id].variants, vns)
    &&& leafset_matches(map_of(d1.components)[id].options, ons)
    &&& d1.meals == d0.meals
    &&& d1.year == d0.year
    &&& d1.month == d0.month
}

/// A leaf added under `id` to the leaf map `s0`, giving `s1`.
pub open spec fn leaf_added_with(
    s0: Seq<(u128, LeafV)>,
    s1: Seq<(u128, LeafV)>,
    id: u128,
    nm: Seq<char>,
) -> bool {
    &&& !map_of(s0).contains_key(id)
    &&& keys_distinct(s1)
    &&& map_of(s1) == map_of(s0).insert(id, LeafV { name: nm, delete: false })
}

/// A meal added under `id`: fresh identifier, trimmed names, link map
/// built from the requested links, components untouched.
pub open spec fn added_meal_with(
    d0: DataV,
    d1: DataV,
    id: u128,
    nm: Seq<char>,
    sh: Seq<char>,
    links: Seq<(u128, Option<u128>)>,
) -> bool {
    &&& !map_of(d0.meals).contains_key(id)
    &&& map_of(d1.meals).contains_key(id)
    &&& map_of(d1.meals) == map_of(d0.meals).insert(id, map_of(d1.meals)[id])
    &&& map_of(d1.meals)[id].name == nm
    &&& map_of(d1.meals)[id].short == sh
    &&& map_of(d1.meals)[id].delete == false
    &&& map_of(d1.meals)[id].wf()
    &&& map_of(map_of(d1.meals)[id].components) == links_map(links)
    &&& d1.components == d0.components
    &&& d1.year == d0.year
    &&& d1.month == d0.month
}

/// The session: no dataset, or one loaded dataset.
pub struct Session {
    pub data: Option<Data>,
}

impl View for Session {
    type V = Option<DataV>;

    open spec fn view(&self) -> Option<DataV> {
        match self.data {
            Some(ref d) => Some(d@),
            None => None,
        }
    }
}

impl Session {
    /// A loaded dataset is well formed.
    pub open spec fn inv(&self) -> bool {
        self@ matches Some(d) ==> d.wf()
    }

    pub open spec fn loaded(&self) -> bool {
        self@ is Some
    }

    /// The loaded dataset (meaningful only when loaded).
    pub open spec fn dataset(&self) -> DataV {
        self@->Some_0
    }

    /// A fresh session with nothing loaded.
    pub fn new() -> (r: Self)
        ensures
            !r.loaded(),
            r.inv(),
    {
        Session { data: None }
    }

    /// Report the session state.
    pub fn get_state(&self) -> (r: State)
        ensures
            !self.loaded() ==> r == State::Select,
            self.loaded() ==> r == (State::Loaded {
                year: self.dataset().year,
                month: self.dataset().month,
            }),
    {
        match &self.data {
            None => State::Select,
            Some(d) => State::Loaded { year: d.year, month: d.month },
        }
    }

    /// Release the loaded dataset, if any. The caller releases the file
    /// locks it holds for it.
    pub fn close(&mut self)
        ensures
            !final(self).loaded(),
            final(self).inv(),
    {
        self.data = None;
    }

    /// The corrected period roll-over: the period after `(year, month)`
    /// when `next_month` is set, else `(year, month)` itself.
    pub fn resolve_period(year: i32, month: u32, next_month: bool) -> (r: (i32, u32))
        requires
            1 <= month <= 12,
            year < i32::MAX,
        ensures
            !next_month ==> r == (year, month),
            next_month && month < 12 ==> r == (year, (month + 1) as u32),
            next_month && month == 12 ==> r == ((year + 1) as i32, 1u32),
    {
        if !next_month {
            (year, month)
        } else if month == 12 {
            (year + 1, 1)
        } else {
            (year, month + 1)
        }
    }

    /// Decide whether a new dataset may be created, and for which
    /// period. A loaded session refuses regardless of the requested
    /// period; a period whose file already exists refuses; otherwise
    /// the caller may lock the period's files and call `install_new`.
    pub fn prepare_new(&self, base_dir: &str, next_month: bool) -> (r: Result<
        (i32, u32),
        GlobalCmdError,
    >)
        ensures
            (r == Err::<(i32, u32), GlobalCmdError>(GlobalCmdError::DatasetIsActive)
                <==> self.loaded()),
            r is Err ==> (r == Err::<(i32, u32), GlobalCmdError>(GlobalCmdError::DatasetIsActive)
                || r == Err::<(i32, u32), GlobalCmdError>(GlobalCmdError::DatasetExists)),
            !self.loaded() && r is Err ==> r == Err::<(i32, u32), GlobalCmdError>(
                GlobalCmdError::DatasetExists,
            ),
            r matches Ok(p) ==> !self.loaded() && 1 <= p.1 <= 12,
    {
        if self.data.is_some() {
            return Err(GlobalCmdError::DatasetIsActive);
        }
        let (ty, tm) = current_date();
        let (year, month) = Self::resolve_period(ty, tm, next_month);
        if file_exists(base_dir, year, month) {
            return Err(GlobalCmdError::DatasetExists);
        }
        Ok((year, month))
    }

    /// Install a freshly created, empty dataset for the given period.
    /// A loaded session refuses regardless of the requested period.
    pub fn install_new(&mut self, year: i32, month: u32) -> (r: Result<(), GlobalCmdError>)
        requires
            old(self).inv(),
        ensures
            final(self).inv(),
            old(self).loaded() ==> r == Err::<(), GlobalCmdError>(GlobalCmdError::DatasetIsActive)
                && final(self)@ == old(self)@,
            !old(self).loaded() ==> r == Ok::<(), GlobalCmdError>(()) && final(self).loaded()
                && final(self).dataset() == (DataV {
                year,
                month,
                components: Seq::<(u128, ComponentV)>::empty(),
                meals: Seq::<(u128, MealV)>::empty(),
            }),
    {
        if self.data.is_some() {
            return Err(GlobalCmdError::DatasetIsActive);
        }
        self.data = Some(Data::new(year, month));
        Ok(())
    }

    /// Decide whether the dataset of `(year, month)` may be opened. A
    /// month outside 1..=12 yields `NoDataset` before any file is
    /// consulted; a loaded session refuses; a missing file yields
    /// `NoDataset`. On success the caller locks the period's files,
    /// reads the primary file and calls `install_open`.
    pub fn prepare_open(&self, base_dir: &str, year: i32, month: u32) -> (r: Result<
        (),
        GlobalCmdError,
    >)
        ensures
            month < 1 || month > 12 ==> r == Err::<(), GlobalCmdError>(GlobalCmdError::NoDataset),
            ((1 <= month <= 12 && self.loaded()) <==> r == Err::<(), GlobalCmdError>(
                GlobalCmdError::DatasetIsActive,
            )),
            r is Err ==> (r == Err::<(), GlobalCmdError>(GlobalCmdError::NoDataset) || r == Err::<
                (),
                GlobalCmdError,
            >(GlobalCmdError::DatasetIsActive)),
            1 <= month <= 12 && !self.loaded() && r is Err ==> r == Err::<(), GlobalCmdError>(
                GlobalCmdError::NoDataset,
            ),
            r is Ok ==> 1 <= month <= 12 && !self.loaded(),
    {
        if month < 1 || month > 12 {
            return Err(GlobalCmdError::NoDataset);
        }
        if self.data.is_some() {
            return Err(GlobalCmdError::DatasetIsActive);
        }
        if !file_exists(base_dir, year, month) {
            return Err(GlobalCmdError::NoDataset);
        }
        Ok(())
    }

    /// All components of the loaded dataset, tombstoned entries
    /// included (a tombstone is visible through its `delete` flag).
    pub fn get_components(&self) -> (r: Result<IdMap<Component>, ComponentCmdError>)
        requires
            self.inv(),
        ensures
            !self.loaded() ==> r == Err::<IdMap<Component>, ComponentCmdError>(
                ComponentCmdError::DatasetNotActive,
            ),
            self.loaded() ==> (r matches Ok(m) && m@ == self.dataset().components && m.wf()),
    {
        match &self.data {
            None => Err(ComponentCmdError::DatasetNotActive),
            Some(d) => Ok(d.duplicate_components()),
        }
    }

    /// Run the deferred-purge pass on the loaded dataset: every
    /// tombstoned variant and option is dropped for good. Run at the
    /// boundary where a new dataset period supersedes the loaded one.
    pub fn purge_loaded(&mut self) -> (r: Result<(), GlobalCmdError>)
        requires
            old(self).inv(),
        ensures
            final(self).inv(),
            !old(self).loaded() ==> r == Err::<(), GlobalCmdError>(
                GlobalCmdError::DatasetNotActive,
            ) && final(self)@ == old(self)@,
            old(self).loaded() ==> r == Ok::<(), GlobalCmdError>(()) && final(self).loaded() && {
                let d0 = old(self).dataset();
                let d1 = final(self).dataset();
                &&& d1.meals == d0.meals
                &&& d1.year == d0.year
                &&& d1.month == d0.month
                &&& d1.components.len() == d0.components.len()
                &&& forall|i: int|
                    0 <= i < d0.components.len() ==> (#[trigger] d1.components[i]) == (
                    d0.components[i].0,
                    crate::engine::purged_component(d0.components[i].1),
                    )
            },
    {
        match &mut self.data {
            None => Err(GlobalCmdError::DatasetNotActive),
            Some(d) => {
                d.purge_deleted();
                Ok(())
            },
        }
    }

    /// The loaded dataset rendered in its canonical encoding, ready for
    /// the storage side to write with the durable save protocol.
    pub fn save_payload(&self) -> (r: Result<Vec<char>, GlobalCmdError>)
        requires
            self.inv(),
        ensures
            !self.loaded() ==> r == Err::<Vec<char>, GlobalCmdError>(
                GlobalCmdError::DatasetNotActive,
            ),
            self.loaded() ==> (r matches Ok(v) && v@ == enc_data(self.dataset()) && encodable(
                self.dataset(),
            )),
    {
        match &self.data {
            None => Err(GlobalCmdError::DatasetNotActive),
            Some(d) => {
                proof {
                    crate::codec_data::lemma_data_encodable(d);
                }
                Ok(encode(d))
            },
        }
    }

    /// Install the dataset decoded from the primary file's content.
    /// A loaded session refuses; content that is not a dataset encoding
    /// is rejected and the session stays unloaded. On success the
    /// reported flag says whether the dataset's own period disagrees
    /// with the period implied by the file's location.
    pub fn install_open(&mut self, year: i32, month: u32, content: &Vec<char>) -> (r: Result<
        bool,
        GlobalCmdError,
    >)
        requires
            old(self).inv(),
        ensures
            final(self).inv(),
            old(self).loaded() ==> r == Err::<bool, GlobalCmdError>(
                GlobalCmdError::DatasetIsActive,
            ) && final(self)@ == old(self)@,
            !old(self).loaded() && spec_decode(content@) is None ==> r == Err::<
                bool,
                GlobalCmdError,
            >(GlobalCmdError::DecodeError) && final(self)@ == old(self)@,
            !old(self).loaded() ==> (spec_decode(content@) matches Some(dv) ==> (r matches Ok(mm)
                && final(self).loaded() && final(self).dataset() == dv && mm == (dv.year != year
                || dv.month != month))),
    {
        if self.data.is_some() {
            return Err(GlobalCmdError::DatasetIsActive);
        }
        match decode(content) {
            None => Err(GlobalCmdError::DecodeError),
            Some(d) => {
                let mismatch = d.year != year || d.month != month;
                self.data = Some(d);
                Ok(mismatch)
            },
        }
    }

    /// Add a component. Every supplied name is trimmed; an empty
    /// trimmed name rejects the whole request before anything changes.
    pub fn add_component(
        &mut self,
        name: &String,
        variant_names: &Vec<String>,
        option_names: &Vec<String>,
    ) -> (r: Result<(), ComponentCmdError>)
        requires
            old(self).inv(),
        ensures
            final(self).inv(),
            (r == Err::<(), ComponentCmdError>(ComponentCmdError::EmptyName) <==> (trim_of(
                name@,
            ).len() == 0 || some_trim_empty(variant_names@) || some_trim_empty(option_names@))),
            (r == Err::<(), ComponentCmdError>(ComponentCmdError::DatasetNotActive) <==> !(
            trim_of(name@).len() == 0 || some_trim_empty(variant_names@) || some_trim_empty(
                option_names@,
            )) && !old(self).loaded()),
            r is Err ==> final(self)@ == old(self)@,
            (r is Ok <==> !(trim_of(name@).len() == 0 || some_trim_empty(variant_names@)
                || some_trim_empty(option_names@)) && old(self).loaded()),
            r is Ok ==> final(self).loaded() && exists|id: u128|
                #[trigger] added_component_with(
                    old(self).dataset(),
                    final(self).dataset(),
                    id,
                    trim_of(name@),
                    variant_names@,
                    option_names@,
                ),
    {
        let t = trim_str(name.as_str());
        if t.as_str().is_empty() {
            return Err(ComponentCmdError::EmptyName);
        }
        let variants = match build_variants(variant_names) {
            Ok(v) => v,
            Err(e) => {
                return Err(e);
            },
        };
        let options = match build_options(option_names) {
            Ok(o) => o,
            Err(e) => {
                return Err(e);
            },
        };
        match &mut self.data {
            None => Err(ComponentCmdError::DatasetNotActive),
            Some(d) => {
                let id = unused_key(&d.components);
                d.add_component_with_id(id, t, variants, options);
                proof {
                    assert(added_component_with(
                        old(self).dataset(),
                        final(self).dataset(),
                        id,
                        trim_of(name@),
                        variant_names@,
                        option_names@,
                    ));
                }
                Ok(())
            },
        }
    }

    /// Add a variant to a component; a variant of the same trimmed
    /// name already present makes the request a silent success.
    pub fn add_variant(&mut self, component: u128, name: &String) -> (r: Result<
        (),
        ComponentCmdError,
    >)
        requires
            old(self).inv(),
        ensures
            final(self).inv(),
            (r == Err::<(), ComponentCmdError>(ComponentCmdError::EmptyName) <==> trim_of(
                name@,
            ).len() == 0),
            (r == Err::<(), ComponentCmdError>(ComponentCmdError::DatasetNotActive) <==> trim_of(
                name@,
            ).len() > 0 && !old(self).loaded()),
            (r == Err::<(), ComponentCmdError>(ComponentCmdError::NotFound) <==> trim_of(
                name@,
            ).len() > 0 && old(self).loaded() && !map_of(
                old(self).dataset().components,
            ).contains_key(component)),
            r is Err ==> final(self)@ == old(self)@,
            (r is Ok <==> trim_of(name@).len() > 0 && old(self).loaded() && map_of(
                old(self).dataset().components,
            ).contains_key(component)),
            r is Ok ==> final(self).loaded() && {
                let d0 = old(self).dataset();
                let d1 = final(self).dataset();
                let c0 = map_of(d0.components)[component];
                let c1 = map_of(d1.components)[component];
                if has_name(c0.variants, trim_of(name@)) {
                    final(self)@ == old(self)@
                } else {
                    &&& exists|id: u128|
                        #[trigger] leaf_added_with(c0.variants, c1.variants, id, trim_of(name@))
                    &&& c1.name == c0.name
                    &&& c1.delete == c0.delete
                    &&& c1.options == c0.options
                    &&& map_of(d1.components) == map_of(d0.components).insert(component, c1)
                    &&& d1.meals == d0.meals
                    &&& d1.year == d0.year
                    &&& d1.month == d0.month
                }
            },
    {
        let t = trim_str(name.as_str());
        if t.as_str().is_empty() {
            return Err(ComponentCmdError::EmptyName);
        }
        match &mut self.data {
            None => Err(ComponentCmdError::DatasetNotActive),
            Some(d) => {
                let id = match d.components.get(component) {
                    None => {
                        proof {
                            crate::idmap::lemma_map_of_has_key(d@.components, component);
                        }
                        return Err(ComponentCmdError::NotFound);
                    },
                    Some(c) => {
                        proof {
                            crate::engine::lemma_map_of_entry(d@.components, component);
                        }
                        unused_key(&c.variants)
                    },
                };
                let ghost c0 = map_of(d@.components)[component];
                match d.add_variant_with_id(component, id, t) {
                    AddLeafOutcome::NoComponent => {
                        proof {
                            assert(false);
                        }
                        Err(ComponentCmdError::NotFound)
                    },
                    AddLeafOutcome::Existing => Ok(()),
                    AddLeafOutcome::Added => {
                        proof {
                            let c1 = map_of(final(self).dataset().components)[component];
                            assert(leaf_added_with(c0.variants, c1.variants, id, trim_of(name@)));
                        }
                        Ok(())
                    },
                }
            },
        }
    }

    /// Add an option to a component; an option of the same trimmed
    /// name already present makes the request a silent success.
    pub fn add_option(&mut self, component: u128, name: &String) -> (r: Result<
        (),
        ComponentCmdError,
    >)
        requires
            old(self).inv(),
        ensures
            final(self).inv(),
            (r == Err::<(), ComponentCmdError>(ComponentCmdError::EmptyName) <==> trim_of(
                name@,
            ).len() == 0),
            (r == Err::<(), ComponentCmdError>(ComponentCmdError::DatasetNotActive) <==> trim_of(
                name@,
            ).len() > 0 && !old(self).loaded()),
            (r == Err::<(), ComponentCmdError>(ComponentCmdError::NotFound) <==> trim_of(
                name@,
            ).len() > 0 && old(self).loaded() && !map_of(
                old(self).dataset().components,
            ).contains_key(component)),
            r is Err ==> final(self)@ == old(self)@,
            (r is Ok <==> trim_of(name@).len() > 0 && old(self).loaded() && map_of(
                old(self).dataset().components,
            ).contains_key(component)),
            r is Ok ==> final(self).loaded() && {
                let d0 = old(self).dataset();
                let d1 = final(self).dataset();
                let c0 = map_of(d0.components)[component];
                let c1 = map_of(d1.components)[component];
                if has_name(c0.options, trim_of(name@)) {
                    final(self)@ == old(self)@
                } else {
                    &&& exists|id: u128|
                        #[trigger] leaf_added_with(c0.options, c1.options, id, trim_of(name@))
                    &&& c1.name == c0.name
                    &&& c1.delete == c0.delete
                    &&& c1.variants == c0.variants
                    &&& map_of(d1.components) == map_of(d0.components).insert(component, c1)
                    &&& d1.meals == d0.meals
                    &&& d1.year == d0.year
                    &&& d1.month == d0.month
                }
            },
    {
        let t = trim_str(name.as_str());
        if t.as_str().is_empty() {
            return Err(ComponentCmdError::EmptyName);
        }
        match &mut self.data {
            None => Err(ComponentCmdError::DatasetNotActive),
            Some(d) => {
                let id = match d.components.get(component) {
                    None => {
                        proof {
                            crate::idmap::lemma_map_of_has_key(d@.components, component);
                        }
                        return Err(ComponentCmdError::NotFound);
                    },
                    Some(c) => {
                        proof {
                            crate::engine::lemma_map_of_entry(d@.components, component);
                        }
                        unused_key(&c.options)
                    },
                };
                let ghost c0 = map_of(d@.components)[component];
                match d.add_option_with_id(component, id, t) {
                    AddLeafOutcome::NoComponent => {
                        proof {
                            assert(false);
                        }
                        Err(ComponentCmdError::NotFound)
                    },
                    AddLeafOutcome::Existing => Ok(()),
                    AddLeafOutcome::Added => {
                        proof {
                            let c1 = map_of(final(self).dataset().components)[component];
                            assert(leaf_added_with(c0.options, c1.options, id, trim_of(name@)));
                        }
                        Ok(())
                    },
                }
            },
        }
    }

    /// Add a meal. Name and short code are trimmed and must be
    /// non-empty; every link must name an existing component and, when
    /// a variant is given, a variant of that component. Any failure
    /// leaves the dataset untouched.
    pub fn add_meal(
        &mut self,
        name: &String,
        short: &String,
        links: &Vec<(u128, Option<u128>)>,
    ) -> (r: Result<(), MealCmdError>)
        requires
            old(self).inv(),
        ensures
            final(self).inv(),
            (r == Err::<(), MealCmdError>(MealCmdError::EmptyName) <==> trim_of(name@).len()
                == 0),
            (r == Err::<(), MealCmdError>(MealCmdError::EmptyShort) <==> trim_of(name@).len() > 0
                && trim_of(short@).len() == 0),
            (r == Err::<(), MealCmdError>(MealCmdError::DatasetNotActive) <==> trim_of(
                name@,
            ).len() > 0 && trim_of(short@).len() > 0 && !old(self).loaded()),
            (r == Err::<(), MealCmdError>(MealCmdError::ComponentNotFound) <==> trim_of(
                name@,
            ).len() > 0 && trim_of(short@).len() > 0 && old(self).loaded() && link_check(
                old(self).dataset().components,
                links@,
            ) == Some(LinkIssue::MissingComponent)),
            (r == Err::<(), MealCmdError>(MealCmdError::VariantNotFound) <==> trim_of(
                name@,
            ).len() > 0 && trim_of(short@).len() > 0 && old(self).loaded() && link_check(
                old(self).dataset().components,
                links@,
            ) == Some(LinkIssue::MissingVariant)),
            r is Err ==> final(self)@ == old(self)@,
            (r is Ok <==> trim_of(name@).len() > 0 && trim_of(short@).len() > 0 && old(
                self,
            ).loaded() && link_check(old(self).dataset().components, links@) is None),
            r is Ok ==> final(self).loaded() && exists|id: u128|
                #[trigger] added_meal_with(
                    old(self).dataset(),
                    final(self).dataset(),
                    id,
                    trim_of(name@),
                    trim_of(short@),
                    links@,
                ),
    {
        let t = trim_str(name.as_str());
        if t.as_str().is_empty() {
            return Err(MealCmdError::EmptyName);
        }
        let s = trim_str(short.as_str());
        if s.as_str().is_empty() {
            return Err(MealCmdError::EmptyShort);
        }
        match &mut self.data {
            None => Err(MealCmdError::DatasetNotActive),
            Some(d) => {
                let id = unused_key(&d.meals);
                match d.add_meal_with_id(id, t, s, links) {
                    AddMealOutcome::ComponentMissing => Err(MealCmdError::ComponentNotFound),
                    AddMealOutcome::VariantMissing => Err(MealCmdError::VariantNotFound),
                    AddMealOutcome::Added => {
                        proof {
                            assert(added_meal_with(
                                old(self).dataset(),
                                final(self).dataset(),
                                id,
                                trim_of(name@),
                                trim_of(short@),
                                links@,
                            ));
                        }
                        Ok(())
                    },
                }
            },
        }
    }

    /// Remove a variant of a component, honouring the referential-
    /// integrity rules. `Ok(scheduled)` reports whether the variant was
    /// tombstoned (`true`) or removed outright (`false`).
    pub fn remove_variant(&mut self, component: u128, variant: u128) -> (r: Result<
        bool,
        ComponentCmdError,
    >)
        requires
            old(self).inv(),
        ensures
            final(self).inv(),
            (r == Err::<bool, ComponentCmdError>(ComponentCmdError::DatasetNotActive) <==> !old(
                self,
            ).loaded()),
            (r == Err::<bool, ComponentCmdError>(ComponentCmdError::NotFound) <==> old(
                self,
            ).loaded() && !map_of(old(self).dataset().components).contains_key(component)),
            (r == Err::<bool, ComponentCmdError>(ComponentCmdError::DoesNotExist) <==> old(
                self,
            ).loaded() && map_of(old(self).dataset().components).contains_key(component)
                && !has_key(map_of(old(self).dataset().components)[component].variants, variant)),
            (r == Err::<bool, ComponentCmdError>(ComponentCmdError::StillInUse) <==> old(
                self,
            ).loaded() && map_of(old(self).dataset().components).contains_key(component)
                && has_key(map_of(old(self).dataset().components)[component].variants, variant)
                && variant_in_use(old(self).dataset(), component, variant)),
            r is Err ==> final(self)@ == old(self)@,
            (r is Ok <==> old(self).loaded() && map_of(
                old(self).dataset().components,
            ).contains_key(component) && has_key(
                map_of(old(self).dataset().components)[component].variants,
                variant,
            ) && !variant_in_use(old(self).dataset(), component, variant)),
            (r == Ok::<bool, ComponentCmdError>(true) <==> old(self).loaded() && map_of(
                old(self).dataset().components,
            ).contains_key(component) && has_key(
                map_of(old(self).dataset().components)[component].variants,
                variant,
            ) && !variant_in_use(old(self).dataset(), component, variant) && map_of(
                map_of(old(self).dataset().components)[component].variants,
            )[variant].delete),
            r == Ok::<bool, ComponentCmdError>(true) ==> final(self)@ == old(self)@,
            r == Ok::<bool, ComponentCmdError>(false) ==> final(self).loaded() && {
                let d0 = old(self).dataset();
                let d1 = final(self).dataset();
                let c0 = map_of(d0.components)[component];
                let c1 = map_of(d1.components)[component];
                &&& map_of(d0.components).contains_key(component)
                &&& has_key(c0.variants, variant)
                &&& !variant_in_use(d0, component, variant)
                &&& !map_of(c0.variants)[variant].delete
                &&& c1.name == c0.name
                &&& c1.delete == c0.delete
                &&& c1.options == c0.options
                &&& keys_distinct(c1.variants)
                &&& map_of(c1.variants) == map_of(c0.variants).remove(variant)
                &&& map_of(d1.components) == map_of(d0.components).insert(component, c1)
                &&& d1.meals == d0.meals
                &&& d1.year == d0.year
                &&& d1.month == d0.month
            },
    {
        match &mut self.data {
            None => Err(ComponentCmdError::DatasetNotActive),
            Some(d) => {
                match d.remove_variant(component, variant) {
                    RemoveOutcome::NoComponent => Err(ComponentCmdError::NotFound),
                    RemoveOutcome::NoLeaf => Err(ComponentCmdError::DoesNotExist),
                    RemoveOutcome::InUse => Err(ComponentCmdError::StillInUse),
                    RemoveOutcome::Scheduled => Ok(true),
                    RemoveOutcome::Detached => Ok(false),
                }
            },
        }
    }

    /// Remove an option of a component. Meals never link to options,
    /// so `StillInUse` cannot occur here.
    pub fn remove_option(&mut self, component: u128, option: u128) -> (r: Result<
        bool,
        ComponentCmdError,
    >)
        requires
            old(self).inv(),
        ensures
            final(self).inv(),
            r != Err::<bool, ComponentCmdError>(ComponentCmdError::StillInUse),
            (r == Err::<bool, ComponentCmdError>(ComponentCmdError::DatasetNotActive) <==> !old(
                self,
            ).loaded()),
            (r == Err::<bool, ComponentCmdError>(ComponentCmdError::NotFound) <==> old(
                self,
            ).loaded() && !map_of(old(self).dataset().components).contains_key(component)),
            (r == Err::<bool, ComponentCmdError>(ComponentCmdError::DoesNotExist) <==> old(
                self,
            ).loaded() && map_of(old(self).dataset().components).contains_key(component)
                && !has_key(map_of(old(self).dataset().components)[component].options, option)),
            r is Err ==> final(self)@ == old(self)@,
            (r is Ok <==> old(self).loaded() && map_of(
                old(self).dataset().components,
            ).contains_key(component) && has_key(
                map_of(old(self).dataset().components)[component].options,
                option,
            )),
            (r == Ok::<bool, ComponentCmdError>(true) <==> old(self).loaded() && map_of(
                old(self).dataset().components,
            ).contains_key(component) && has_key(
                map_of(old(self).dataset().components)[component].options,
                option,
            ) && map_of(map_of(old(self).dataset().components)[component].options)[option].delete),
            r == Ok::<bool, ComponentCmdError>(true) ==> final(self)@ == old(self)@,
            r == Ok::<bool, ComponentCmdError>(false) ==> final(self).loaded() && {
                let d0 = old(self).dataset();
                let d1 = final(self).dataset();
                let c0 = map_of(d0.components)[component];
                let c1 = map_of(d1.components)[component];
                &&& map_of(d0.components).contains_key(component)
                &&& has_key(c0.options, option)
                &&& !map_of(c0.options)[option].delete
                &&& c1.name == c0.name
                &&& c1.delete == c0.delete
                &&& c1.variants == c0.variants
                &&& keys_distinct(c1.options)
                &&& map_of(c1.options) == map_of(c0.options).remove(option)
                &&& map_of(d1.components) == map_of(d0.components).insert(component, c1)
                &&& d1.meals == d0.meals
                &&& d1.year == d0.year
                &&& d1.month == d0.month
            },
    {
        match &mut self.data {
            None => Err(ComponentCmdError::DatasetNotActive),
            Some(d) => {
                match d.remove_option(component, option) {
                    RemoveOutcome::NoComponent => Err(ComponentCmdError::NotFound),
                    RemoveOutcome::NoLeaf => Err(ComponentCmdError::DoesNotExist),
                    RemoveOutcome::InUse => {
                        proof {
                            assert(false);
                        }
                        Err(ComponentCmdError::DoesNotExist)
                    },
                    RemoveOutcome::Scheduled => Ok(true),
                    RemoveOutcome::Detached => Ok(false),
                }
            },
        }
    }
}

/// Whether a variant of this trimmed name is present.
fn variant_name_present(m: &IdMap<Variant>, name: &String) -> (r: bool)
    ensures
        r == has_name(m@, name@),
{
    let n = m.entries.len();
    for j in 0..n
        invariant
            n == m@.len(),
            forall|k: int| 0 <= k < j ==> (#[trigger] m@[k]).1.name != name@,
    {
        proof {
            assert(m@[j as int] == m.entries[j as int]@);
        }
        if m.entries[j].val.name == *name {
            assert(m@[j as int].1.name == name@);
            return true;
        }
    }
    false
}

/// Whether an option of this trimmed name is present.
fn option_name_present(m: &IdMap<OptionEntry>, name: &String) -> (r: bool)
    ensures
        r == has_name(m@, name@),
{
    let n = m.entries.len();
    for j in 0..n
        invariant
            n == m@.len(),
            forall|k: int| 0 <= k < j ==> (#[trigger] m@[k]).1.name != name@,
    {
        proof {
            assert(m@[j as int] == m.entries[j as int]@);
        }
        if m.entries[j].val.name == *name {
            assert(m@[j as int].1.name == name@);
            return true;
        }
    }
    false
}

/// Build the variant map of a new component from the requested names:
/// trimmed, empty names rejected, duplicates within the list collapsed.
fn build_variants(names: &Vec<String>) -> (r: Result<IdMap<Variant>, ComponentCmdError>)
    ensures
        match r {
            Ok(m) => m.wf() && !some_trim_empty(names@) && leafset_matches(m@, names@),
            Err(e) => e == ComponentCmdError::EmptyName && some_trim_empty(names@),
        },
{
    let mut m: IdMap<Variant> = IdMap::new();
    let n = names.len();
    for i in 0..n
        invariant
            n == names@.len(),
            m.wf(),
            forall|k: int| 0 <= k < i ==> trim_of((#[trigger] names@[k])@).len() > 0,
            forall|nm: Seq<char>|
                #[trigger] has_name(m@, nm) ==> exists|k: int|
                    0 <= k < i && trim_of((#[trigger] names@[k])@) == nm,
            forall|k: int| 0 <= k < i ==> has_name(m@, trim_of((#[trigger] names@[k])@)),
            forall|j: int| 0 <= j < m@.len() ==> (#[trigger] m@[j]).1.delete == false,
            forall|j: int, k: int|
                0 <= j < k < m@.len() ==> (#[trigger] m@[j]).1.name != (#[trigger] m@[k]).1.name,
    {
        let t = trim_str(names[i].as_str());
        if t.as_str().is_empty() {
            assert(trim_of(names@[i as int]@).len() == 0);
            return Err(ComponentCmdError::EmptyName);
        }
        if !variant_name_present(&m, &t) {
            let id = unused_key(&m);
            let ghost s0 = m@;
            m.insert(id, Variant::new(t));
            proof {
                crate::engine::lemma_has_name_push(
                    s0,
                    id,
                    LeafV { name: trim_of(names@[i as int]@), delete: false },
                );
                assert(m@ == s0.push((id, LeafV { name: trim_of(names@[i as int]@), delete: false })));
                assert forall|j: int, k: int| 0 <= j < k < m@.len() implies (
                #[trigger] m@[j]).1.name != (#[trigger] m@[k]).1.name by {
                    if k == m@.len() - 1 {
                        assert(s0[j].1.name != trim_of(names@[i as int]@));
                    } else {
                        assert(m@[j] == s0[j] && m@[k] == s0[k]);
                    }
                }
            }
        }
    }
    Ok(m)
}

/// Build the option map of a new component from the requested names:
/// trimmed, empty names rejected, duplicates within the list collapsed.
fn build_options(names: &Vec<String>) -> (r: Result<IdMap<OptionEntry>, ComponentCmdError>)
    ensures
        match r {
            Ok(m) => m.wf() && !some_trim_empty(names@) && leafset_matches(m@, names@),
            Err(e) => e == ComponentCmdError::EmptyName && some_trim_empty(names@),
        },
{
    let mut m: IdMap<OptionEntry> = IdMap::new();
    let n = names.len();
    for i in 0..n
        invariant
            n == names@.len(),
            m.wf(),
            forall|k: int| 0 <= k < i ==> trim_of((#[trigger] names@[k])@).len() > 0,
            forall|nm: Seq<char>|
                #[trigger] has_name(m@, nm) ==> exists|k: int|
                    0 <= k < i && trim_of((#[trigger] names@[k])@) == nm,
            forall|k: int| 0 <= k < i ==> has_name(m@, trim_of((#[trigger] names@[k])@)),
            forall|j: int| 0 <= j < m@.len() ==> (#[trigger] m@[j]).1.delete == false,
            forall|j: int, k: int|
                0 <= j < k < m@.len() ==> (#[trigger] m@[j]).1.name != (#[trigger] m@[k]).1.name,
    {
        let t = trim_str(names[i].as_str());
        if t.as_str().is_empty() {
            assert(trim_of(names@[i as int]@).len() == 0);
            return Err(ComponentCmdError::EmptyName);
        }
        if !option_name_present(&m, &t) {
            let id = unused_key(&m);
            let ghost s0 = m@;
            m.insert(id, OptionEntry::new(t));
            proof {
                crate::engine::lemma_has_name_push(
                    s0,
                    id,
                    LeafV { name: trim_of(names@[i as int]@), delete: false },
                );
                assert(m@ == s0.push((id, LeafV { name: trim_of(names@[i as int]@), delete: false })));
                assert forall|j: int, k: int| 0 <= j < k < m@.len() implies (
                #[trigger] m@[j]).1.name != (#[trigger] m@[k]).1.name by {
                    if k == m@.len() - 1 {
                        assert(s0[j].1.name != trim_of(names@[i as int]@));
                    } else {
                        assert(m@[j] == s0[j] && m@[k] == s0[k]);
                    }
                }
            }
        }
    }
    Ok(m)
}

} // verus!
