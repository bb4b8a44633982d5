//! Encoding and parsing of whole datasets on top of the token layer.
//!
//! [`enc_data`] is the canonical rendering of a dataset; [`spec_decode`]
//! is the meaning of an input text. [`lemma_decode_encode`] shows that
//! decoding a rendering gives the dataset back, and the executable
//! [`encode`] and [`decode`] are proved to compute exactly these
//! functions.

use crate::codec::{
    bool_token, enc_magic, int_token, num_token, spec_parse_bool, spec_parse_i32,
    spec_parse_str, spec_parse_u128, str_token, parse_bool, parse_i32, parse_str, parse_u128,
    emit_bool, emit_i32, emit_str, emit_u128, lemma_parse_num_token, lemma_parse_i32_token,
    lemma_parse_bool_token, lemma_parse_str_token, lemma_split,
};
use crate::idmap::{keys_distinct, Entry, IdMap};
use crate::model::{
    Component, ComponentV, Data, DataV, LeafV, Meal, MealComponent, MealComponentV, MealV,
    OptionEntry, Variant,
};
use crate::trusted::chars_to_string;
use vstd::prelude::*;

verus! {

// ------------------------------------------------------------------
// canonical encodings
// ------------------------------------------------------------------

/// One leaf entity: identifier, name, tombstone flag.
pub open spec fn enc_leaf(e: (u128, LeafV)) -> Seq<char> {
    num_token(e.0 as nat) + str_token(e.1.name) + bool_token(e.1.delete)
}

pub open spec fn enc_leaf_items(s: Seq<(u128, LeafV)>) -> Seq<char>
    decreases s.len(),
{
    if s.len() == 0 {
        Seq::empty()
    } else {
        enc_leaf(s[0]) + enc_leaf_items(s.drop_first())
    }
}

/// A leaf map: its size, then its entries.
pub open spec fn enc_leaf_list(s: Seq<(u128, LeafV)>) -> Seq<char> {
    num_token(s.len()) + enc_leaf_items(s)
}

/// One meal link: component identifier, optional variant, flag.
pub open spec fn enc_link(e: (u128, MealComponentV)) -> Seq<char> {
    num_token(e.0 as nat) + (match e.1.variant {
        Some(v) => bool_token(true) + num_token(v as nat),
        None => bool_token(false),
    }) + bool_token(e.1.delete)
}

pub open spec fn enc_link_items(s: Seq<(u128, MealComponentV)>) -> Seq<char>
    decreases s.len(),
{
    if s.len() == 0 {
        Seq::empty()
    } else {
        enc_link(s[0]) + enc_link_items(s.drop_first())
    }
}

pub open spec fn enc_link_list(s: Seq<(u128, MealComponentV)>) -> Seq<char> {
    num_token(s.len()) + enc_link_items(s)
}

/// One component: identifier, name, flag, variants, options.
pub open spec fn enc_component(e: (u128, ComponentV)) -> Seq<char> {
    num_token(e.0 as nat) + str_token(e.1.name) + bool_token(e.1.delete) + enc_leaf_list(
        e.1.variants,
    ) + enc_leaf_list(e.1.options)
}

pub open spec fn enc_component_items(s: Seq<(u128, ComponentV)>) -> Seq<char>
    decreases s.len(),
{
    if s.len() == 0 {
        Seq::empty()
    } else {
        enc_component(s[0]) + enc_component_items(s.drop_first())
    }
}

pub open spec fn enc_component_list(s: Seq<(u128, ComponentV)>) -> Seq<char> {
    num_token(s.len()) + enc_component_items(s)
}

/// One meal: identifier, name, short code, flag, links.
pub open spec fn enc_meal(e: (u128, MealV)) -> Seq<char> {
    num_token(e.0 as nat) + str_token(e.1.name) + str_token(e.1.short) + bool_token(e.1.delete)
        + enc_link_list(e.1.components)
}

pub open spec fn enc_meal_items(s: Seq<(u128, MealV)>) -> Seq<char>
    decreases s.len(),
{
    if s.len() == 0 {
        Seq::empty()
    } else {
        enc_meal(s[0]) + enc_meal_items(s.drop_first())
    }
}

pub open spec fn enc_meal_list(s: Seq<(u128, MealV)>) -> Seq<char> {
    num_token(s.len()) + enc_meal_items(s)
}

/// The whole dataset: marker line, period, components, meals.
pub open spec fn enc_data(d: DataV) -> Seq<char> {
    enc_magic() + int_token(d.year as int) + num_token(d.month as nat) + enc_component_list(
        d.components,
    ) + enc_meal_list(d.meals)
}

/// Every collection of the dataset is small enough for its size to be
/// read back as one number. Any dataset held in memory satisfies this.
pub open spec fn encodable(d: DataV) -> bool {
    &&& d.components.len() <= u128::MAX
    &&& d.meals.len() <= u128::MAX
    &&& forall|i: int|
        0 <= i < d.components.len() ==> (#[trigger] d.components[i]).1.variants.len()
            <= u128::MAX && d.components[i].1.options.len() <= u128::MAX
    &&& forall|i: int|
        0 <= i < d.meals.len() ==> (#[trigger] d.meals[i]).1.components.len() <= u128::MAX
}

// ------------------------------------------------------------------
// the meaning of an input text
// ------------------------------------------------------------------

pub open spec fn sp_leaf(s: Seq<char>, pos: int) -> Option<((u128, LeafV), int)> {
    match spec_parse_u128(s, pos) {
        Some((id, p1)) => match spec_parse_str(s, p1) {
            Some((nm, p2)) => match spec_parse_bool(s, p2) {
                Some((dl, p3)) => Some(((id, LeafV { name: nm, delete: dl }), p3)),
                None => None,
            },
            None => None,
        },
        None => None,
    }
}

pub open spec fn sp_leaf_items(s: Seq<char>, pos: int, n: nat) -> Option<(
    Seq<(u128, LeafV)>,
    int,
)>
    decreases n,
{
    if n == 0 {
        Some((Seq::empty(), pos))
    } else {
        match sp_leaf(s, pos) {
            Some((e, p)) => match sp_leaf_items(s, p, (n - 1) as nat) {
                Some((rest, p2)) => Some((seq![e] + rest, p2)),
                None => None,
            },
            None => None,
        }
    }
}

pub open spec fn sp_leaf_list(s: Seq<char>, pos: int) -> Option<(Seq<(u128, LeafV)>, int)> {
    match spec_parse_u128(s, pos) {
        Some((n, p)) => sp_leaf_items(s, p, n as nat),
        None => None,
    }
}

pub open spec fn sp_link(s: Seq<char>, pos: int) -> Option<((u128, MealComponentV), int)> {
    match spec_parse_u128(s, pos) {
        Some((id, p1)) => match spec_parse_bool(s, p1) {
            Some((has, p2)) => if has {
                match spec_parse_u128(s, p2) {
                    Some((v, p3)) => match spec_parse_bool(s, p3) {
                        Some((dl, p4)) => Some((
                            (id, MealComponentV { variant: Some(v), delete: dl }),
                            p4,
                        )),
                        None => None,
                    },
                    None => None,
                }
            } else {
                match spec_parse_bool(s, p2) {
                    Some((dl, p3)) => Some((
                        (id, MealComponentV { variant: None, delete: dl }),
                        p3,
                    )),
                    None => None,
                }
            },
            None => None,
        },
        None => None,
    }
}

pub open spec fn sp_link_items(s: Seq<char>, pos: int, n: nat) -> Option<(
    Seq<(u128, MealComponentV)>,
    int,
)>
    decreases n,
{
    if n == 0 {
        Some((Seq::empty(), pos))
    } else {
        match sp_link(s, pos) {
            Some((e, p)) => match sp_link_items(s, p, (n - 1) as nat) {
                Some((rest, p2)) => Some((seq![e] + rest, p2)),
                None => None,
            },
            None => None,
        }
    }
}

pub open spec fn sp_link_list(s: Seq<char>, pos: int) -> Option<(
    Seq<(u128, MealComponentV)>,
    int,
)> {
    match spec_parse_u128(s, pos) {
        Some((n, p)) => sp_link_items(s, p, n as nat),
        None => None,
    }
}

pub open spec fn sp_component(s: Seq<char>, pos: int) -> Option<((u128, ComponentV), int)> {
    match spec_parse_u128(s, pos) {
        Some((id, p1)) => match spec_parse_str(s, p1) {
            Some((nm, p2)) => match spec_parse_bool(s, p2) {
                Some((dl, p3)) => match sp_leaf_list(s, p3) {
                    Some((vs, p4)) => match sp_leaf_list(s, p4) {
                        Some((os, p5)) => Some((
                            (
                                id,
                                ComponentV { name: nm, delete: dl, variants: vs, options: os },
                            ),
                            p5,
                        )),
                        None => None,
                    },
                    None => None,
                },
                None => None,
            },
            None => None,
        },
        None => None,
    }
}

pub open spec fn sp_component_items(s: Seq<char>, pos: int, n: nat) -> Option<(
    Seq<(u128, ComponentV)>,
    int,
)>
    decreases n,
{
    if n == 0 {
        Some((Seq::empty(), pos))
    } else {
        match sp_component(s, pos) {
            Some((e, p)) => match sp_component_items(s, p, (n - 1) as nat) {
                Some((rest, p2)) => Some((seq![e] + rest, p2)),
                None => None,
            },
            None => None,
        }
    }
}

pub open spec fn sp_component_list(s: Seq<char>, pos: int) -> Option<(
    Seq<(u128, ComponentV)>,
    int,
)> {
    match spec_parse_u128(s, pos) {
        Some((n, p)) => sp_component_items(s, p, n as nat),
        None => None,
    }
}

pub open spec fn sp_meal(s: Seq<char>, pos: int) -> Option<((u128, MealV), int)> {
    match spec_parse_u128(s, pos) {
        Some((id, p1)) => match spec_parse_str(s, p1) {
            Some((nm, p2)) => match spec_parse_str(s, p2) {
                Some((sh, p3)) => match spec_parse_bool(s, p3) {
                    Some((dl, p4)) => match sp_link_list(s, p4) {
                        Some((ls, p5)) => Some((
                            (id, MealV { name: nm, short: sh, delete: dl, components: ls }),
                            p5,
                        )),
                        None => None,
                    },
                    None => None,
                },
                None => None,
            },
            None => None,
        },
        None => None,
    }
}

pub open spec fn sp_meal_items(s: Seq<char>, pos: int, n: nat) -> Option<(
    Seq<(u128, MealV)>,
    int,
)>
    decreases n,
{
    if n == 0 {
        Some((Seq::empty(), pos))
    } else {
        match sp_meal(s, pos) {
            Some((e, p)) => match sp_meal_items(s, p, (n - 1) as nat) {
                Some((rest, p2)) => Some((seq![e] + rest, p2)),
                None => None,
            },
            None => None,
        }
    }
}

pub open spec fn sp_meal_list(s: Seq<char>, pos: int) -> Option<(Seq<(u128, MealV)>, int)> {
    match spec_parse_u128(s, pos) {
        Some((n, p)) => sp_meal_items(s, p, n as nat),
        None => None,
    }
}

pub open spec fn sp_data(s: Seq<char>, pos: int) -> Option<(DataV, int)> {
    if 0 <= pos && pos + enc_magic().len() <= s.len() && s.subrange(
        pos,
        pos + enc_magic().len() as int,
    ) == enc_magic() {
        match spec_parse_i32(s, pos + enc_magic().len() as int) {
            Some((y, p1)) => match spec_parse_u128(s, p1) {
                Some((m, p2)) => if m <= u32::MAX as u128 {
                    match sp_component_list(s, p2) {
                        Some((cs, p3)) => match sp_meal_list(s, p3) {
                            Some((ms, p4)) => Some((
                                DataV {
                                    year: y,
                                    month: m as u32,
                                    components: cs,
                                    meals: ms,
                                },
                                p4,
                            )),
                            None => None,
                        },
                        None => None,
                    }
                } else {
                    None
                },
                None => None,
            },
            None => None,
        }
    } else {
        None
    }
}

/// The meaning of a whole input: a dataset whose encoding spans the
/// entire text and whose identifiers are distinct at every level.
pub open spec fn spec_decode(s: Seq<char>) -> Option<DataV> {
    match sp_data(s, 0) {
        Some((d, p)) => if p == s.len() && d.wf() {
            Some(d)
        } else {
            None
        },
        None => None,
    }
}

// ------------------------------------------------------------------
// round trip: parsing a canonical encoding yields the dataset back
// ------------------------------------------------------------------

proof fn lemma_sp_leaf_of_enc(s: Seq<char>, pos: int, e: (u128, LeafV))
    requires
        0 <= pos,
        pos + enc_leaf(e).len() <= s.len(),
        s.subrange(pos, pos + enc_leaf(e).len() as int) == enc_leaf(e),
    ensures
        sp_leaf(s, pos) == Some((e, pos + enc_leaf(e).len())),
{
    let t1 = num_token(e.0 as nat);
    let t2 = str_token(e.1.name);
    let t3 = bool_token(e.1.delete);
    assert(enc_leaf(e) == t1 + (t2 + t3)) by {
        assert(enc_leaf(e) =~= t1 + (t2 + t3));
    }
    lemma_split(s, pos, t1, t2 + t3);
    lemma_parse_num_token(s, pos, e.0 as nat);
    let p1 = pos + t1.len() as int;
    lemma_split(s, p1, t2, t3);
    lemma_parse_str_token(s, p1, e.1.name);
    let p2 = p1 + t2.len() as int;
    lemma_parse_bool_token(s, p2, e.1.delete);
}

proof fn lemma_sp_leaf_items_of_enc(s: Seq<char>, pos: int, items: Seq<(u128, LeafV)>)
    requires
        0 <= pos,
        pos + enc_leaf_items(items).len() <= s.len(),
        s.subrange(pos, pos + enc_leaf_items(items).len() as int) == enc_leaf_items(items),
    ensures
        sp_leaf_items(s, pos, items.len()) == Some((items, pos + enc_leaf_items(items).len())),
    decreases items.len(),
{
    if items.len() == 0 {
        assert(sp_leaf_items(s, pos, 0) == Some((Seq::<(u128, LeafV)>::empty(), pos)));
        assert(items =~= Seq::<(u128, LeafV)>::empty());
    } else {
        let h = enc_leaf(items[0]);
        let t = enc_leaf_items(items.drop_first());
        assert(enc_leaf_items(items) == h + t);
        lemma_split(s, pos, h, t);
        lemma_sp_leaf_of_enc(s, pos, items[0]);
        let p1 = pos + h.len() as int;
        lemma_sp_leaf_items_of_enc(s, p1, items.drop_first());
        assert(seq![items[0]] + items.drop_first() =~= items);
    }
}

proof fn lemma_sp_leaf_list_of_enc(s: Seq<char>, pos: int, items: Seq<(u128, LeafV)>)
    requires
        items.len() <= u128::MAX,
        0 <= pos,
        pos + enc_leaf_list(items).len() <= s.len(),
        s.subrange(pos, pos + enc_leaf_list(items).len() as int) == enc_leaf_list(items),
    ensures
        sp_leaf_list(s, pos) == Some((items, pos + enc_leaf_list(items).len())),
{
    let t1 = num_token(items.len());
    let t2 = enc_leaf_items(items);
    assert(enc_leaf_list(items) == t1 + t2);
    lemma_split(s, pos, t1, t2);
    lemma_parse_num_token(s, pos, items.len());
    lemma_sp_leaf_items_of_enc(s, pos + t1.len() as int, items);
}

proof fn lemma_sp_link_of_enc(s: Seq<char>, pos: int, e: (u128, MealComponentV))
    requires
        0 <= pos,
        pos + enc_link(e).len() <= s.len(),
        s.subrange(pos, pos + enc_link(e).len() as int) == enc_link(e),
    ensures
        sp_link(s, pos) == Some((e, pos + enc_link(e).len())),
{
    let t1 = num_token(e.0 as nat);
    match e.1.variant {
        Some(v) => {
            let t2 = bool_token(true);
            let t3 = num_token(v as nat);
            let t4 = bool_token(e.1.delete);
            assert(enc_link(e) == t1 + (t2 + (t3 + t4))) by {
                assert(enc_link(e) =~= t1 + (t2 + (t3 + t4)));
            }
            lemma_split(s, pos, t1, t2 + (t3 + t4));
            lemma_parse_num_token(s, pos, e.0 as nat);
            let p1 = pos + t1.len() as int;
            lemma_split(s, p1, t2, t3 + t4);
            lemma_parse_bool_token(s, p1, true);
            let p2 = p1 + 2;
            lemma_split(s, p2, t3, t4);
            lemma_parse_num_token(s, p2, v as nat);
            let p3 = p2 + t3.len() as int;
            lemma_parse_bool_token(s, p3, e.1.delete);
        },
        None => {
            let t2 = bool_token(false);
            let t3 = bool_token(e.1.delete);
            assert(enc_link(e) == t1 + (t2 + t3)) by {
                assert(enc_link(e) =~= t1 + (t2 + t3));
            }
            lemma_split(s, pos, t1, t2 + t3);
            lemma_parse_num_token(s, pos, e.0 as nat);
            let p1 = pos + t1.len() as int;
            lemma_split(s, p1, t2, t3);
            lemma_parse_bool_token(s, p1, false);
            lemma_parse_bool_token(s, p1 + 2, e.1.delete);
        },
    }
}

proof fn lemma_sp_link_items_of_enc(s: Seq<char>, pos: int, items: Seq<(u128, MealComponentV)>)
    requires
        0 <= pos,
        pos + enc_link_items(items).len() <= s.len(),
        s.subrange(pos, pos + enc_link_items(items).len() as int) == enc_link_items(items),
    ensures
        sp_link_items(s, pos, items.len()) == Some((items, pos + enc_link_items(items).len())),
    decreases items.len(),
{
    if items.len() == 0 {
        assert(items =~= Seq::<(u128, MealComponentV)>::empty());
    } else {
        let h = enc_link(items[0]);
        let t = enc_link_items(items.drop_first());
        assert(enc_link_items(items) == h + t);
        lemma_split(s, pos, h, t);
        lemma_sp_link_of_enc(s, pos, items[0]);
        lemma_sp_link_items_of_enc(s, pos + h.len() as int, items.drop_first());
        assert(seq![items[0]] + items.drop_first() =~= items);
    }
}

proof fn lemma_sp_link_list_of_enc(s: Seq<char>, pos: int, items: Seq<(u128, MealComponentV)>)
    requires
        items.len() <= u128::MAX,
        0 <= pos,
        pos + enc_link_list(items).len() <= s.len(),
        s.subrange(pos, pos + enc_link_list(items).len() as int) == enc_link_list(items),
    ensures
        sp_link_list(s, pos) == Some((items, pos + enc_link_list(items).len())),
{
    let t1 = num_token(items.len());
    let t2 = enc_link_items(items);
    assert(enc_link_list(items) == t1 + t2);
    lemma_split(s, pos, t1, t2);
    lemma_parse_num_token(s, pos, items.len());
    lemma_sp_link_items_of_enc(s, pos + t1.len() as int, items);
}

proof fn lemma_sp_component_of_enc(s: Seq<char>, pos: int, e: (u128, ComponentV))
    requires
        e.1.variants.len() <= u128::MAX,
        e.1.options.len() <= u128::MAX,
        0 <= pos,
        pos + enc_component(e).len() <= s.len(),
        s.subrange(pos, pos + enc_component(e).len() as int) == enc_component(e),
    ensures
        sp_component(s, pos) == Some((e, pos + enc_component(e).len())),
{
    let t1 = num_token(e.0 as nat);
    let t2 = str_token(e.1.name);
    let t3 = bool_token(e.1.delete);
    let t4 = enc_leaf_list(e.1.variants);
    let t5 = enc_leaf_list(e.1.options);
    assert(enc_component(e) == t1 + (t2 + (t3 + (t4 + t5)))) by {
        assert(enc_component(e) =~= t1 + (t2 + (t3 + (t4 + t5))));
    }
    lemma_split(s, pos, t1, t2 + (t3 + (t4 + t5)));
    lemma_parse_num_token(s, pos, e.0 as nat);
    let p1 = pos + t1.len() as int;
    lemma_split(s, p1, t2, t3 + (t4 + t5));
    lemma_parse_str_token(s, p1, e.1.name);
    let p2 = p1 + t2.len() as int;
    lemma_split(s, p2, t3, t4 + t5);
    lemma_parse_bool_token(s, p2, e.1.delete);
    let p3 = p2 + 2;
    lemma_split(s, p3, t4, t5);
    lemma_sp_leaf_list_of_enc(s, p3, e.1.variants);
    let p4 = p3 + t4.len() as int;
    lemma_sp_leaf_list_of_enc(s, p4, e.1.options);
}

proof fn lemma_sp_component_items_of_enc(s: Seq<char>, pos: int, items: Seq<(u128, ComponentV)>)
    requires
        forall|i: int|
            0 <= i < items.len() ==> (#[trigger] items[i]).1.variants.len() <= u128::MAX
                && items[i].1.options.len() <= u128::MAX,
        0 <= pos,
        pos + enc_component_items(items).len() <= s.len(),
        s.subrange(pos, pos + enc_component_items(items).len() as int) == enc_component_items(
            items,
        ),
    ensures
        sp_component_items(s, pos, items.len()) == Some((
            items,
            pos + enc_component_items(items).len(),
        )),
    decreases items.len(),
{
    if items.len() == 0 {
        assert(items =~= Seq::<(u128, ComponentV)>::empty());
    } else {
        let h = enc_component(items[0]);
        let t = enc_component_items(items.drop_first());
        assert(enc_component_items(items) == h + t);
        lemma_split(s, pos, h, t);
        lemma_sp_component_of_enc(s, pos, items[0]);
        lemma_sp_component_items_of_enc(s, pos + h.len() as int, items.drop_first());
        assert(seq![items[0]] + items.drop_first() =~= items);
    }
}

proof fn lemma_sp_component_list_of_enc(s: Seq<char>, pos: int, items: Seq<(u128, ComponentV)>)
    requires
        items.len() <= u128::MAX,
        forall|i: int|
            0 <= i < items.len() ==> (#[trigger] items[i]).1.variants.len() <= u128::MAX
                && items[i].1.options.len() <= u128::MAX,
        0 <= pos,
        pos + enc_component_list(items).len() <= s.len(),
        s.subrange(pos, pos + enc_component_list(items).len() as int) == enc_component_list(
            items,
        ),
    ensures
        sp_component_list(s, pos) == Some((items, pos + enc_component_list(items).len())),
{
    let t1 = num_token(items.len());
    let t2 = enc_component_items(items);
    assert(enc_component_list(items) == t1 + t2);
    lemma_split(s, pos, t1, t2);
    lemma_parse_num_token(s, pos, items.len());
    lemma_sp_component_items_of_enc(s, pos + t1.len() as int, items);
}

proof fn lemma_sp_meal_of_enc(s: Seq<char>, pos: int, e: (u128, MealV))
    requires
        e.1.components.len() <= u128::MAX,
        0 <= pos,
        pos + enc_meal(e).len() <= s.len(),
        s.subrange(pos, pos + enc_meal(e).len() as int) == enc_meal(e),
    ensures
        sp_meal(s, pos) == Some((e, pos + enc_meal(e).len())),
{
    let t1 = num_token(e.0 as nat);
    let t2 = str_token(e.1.name);
    let t3 = str_token(e.1.short);
    let t4 = bool_token(e.1.delete);
    let t5 = enc_link_list(e.1.components);
    assert(enc_meal(e) == t1 + (t2 + (t3 + (t4 + t5)))) by {
        assert(enc_meal(e) =~= t1 + (t2 + (t3 + (t4 + t5))));
    }
    lemma_split(s, pos, t1, t2 + (t3 + (t4 + t5)));
    lemma_parse_num_token(s, pos, e.0 as nat);
    let p1 = pos + t1.len() as int;
    lemma_split(s, p1, t2, t3 + (t4 + t5));
    lemma_parse_str_token(s, p1, e.1.name);
    let p2 = p1 + t2.len() as int;
    lemma_split(s, p2, t3, t4 + t5);
    lemma_parse_str_token(s, p2, e.1.short);
    let p3 = p2 + t3.len() as int;
    lemma_split(s, p3, t4, t5);
    lemma_parse_bool_token(s, p3, e.1.delete);
    let p4 = p3 + 2;
    lemma_sp_link_list_of_enc(s, p4, e.1.components);
}

proof fn lemma_sp_meal_items_of_enc(s: Seq<char>, pos: int, items: Seq<(u128, MealV)>)
    requires
        forall|i: int|
            0 <= i < items.len() ==> (#[trigger] items[i]).1.components.len() <= u128::MAX,
        0 <= pos,
        pos + enc_meal_items(items).len() <= s.len(),
        s.subrange(pos, pos + enc_meal_items(items).len() as int) == enc_meal_items(items),
    ensures
        sp_meal_items(s, pos, items.len()) == Some((items, pos + enc_meal_items(items).len())),
    decreases items.len(),
{
    if items.len() == 0 {
        assert(items =~= Seq::<(u128, MealV)>::empty());
    } else {
        let h = enc_meal(items[0]);
        let t = enc_meal_items(items.drop_first());
        assert(enc_meal_items(items) == h + t);
        lemma_split(s, pos, h, t);
        lemma_sp_meal_of_enc(s, pos, items[0]);
        lemma_sp_meal_items_of_enc(s, pos + h.len() as int, items.drop_first());
        assert(seq![items[0]] + items.drop_first() =~= items);
    }
}

proof fn lemma_sp_meal_list_of_enc(s: Seq<char>, pos: int, items: Seq<(u128, MealV)>)
    requires
        items.len() <= u128::MAX,
        forall|i: int|
            0 <= i < items.len() ==> (#[trigger] items[i]).1.components.len() <= u128::MAX,
        0 <= pos,
        pos + enc_meal_list(items).len() <= s.len(),
        s.subrange(pos, pos + enc_meal_list(items).len() as int) == enc_meal_list(items),
    ensures
        sp_meal_list(s, pos) == Some((items, pos + enc_meal_list(items).len())),
{
    let t1 = num_token(items.len());
    let t2 = enc_meal_items(items);
    assert(enc_meal_list(items) == t1 + t2);
    lemma_split(s, pos, t1, t2);
    lemma_parse_num_token(s, pos, items.len());
    lemma_sp_meal_items_of_enc(s, pos + t1.len() as int, items);
}

/// The round trip of persistence: the canonical encoding of any
/// well-formed dataset decodes to that dataset, so a dataset that is
/// saved and reopened comes back equal.
#[verifier::rlimit(60)]
pub proof fn lemma_decode_encode(d: DataV)
    requires
        d.wf(),
        encodable(d),
    ensures
        spec_decode(enc_data(d)) == Some(d),
{
    let s = enc_data(d);
    let t1 = enc_magic();
    let t2 = int_token(d.year as int);
    let t3 = num_token(d.month as nat);
    let t4 = enc_component_list(d.components);
    let t5 = enc_meal_list(d.meals);
    assert(s == t1 + (t2 + (t3 + (t4 + t5)))) by {
        assert(s =~= t1 + (t2 + (t3 + (t4 + t5))));
    }
    assert(s.subrange(0, s.len() as int) =~= s);
    lemma_split(s, 0, t1, t2 + (t3 + (t4 + t5)));
    let p1 = t1.len() as int;
    lemma_split(s, p1, t2, t3 + (t4 + t5));
    lemma_parse_i32_token(s, p1, d.year);
    let p2 = p1 + t2.len() as int;
    lemma_split(s, p2, t3, t4 + t5);
    lemma_parse_num_token(s, p2, d.month as nat);
    let p3 = p2 + t3.len() as int;
    lemma_split(s, p3, t4, t5);
    lemma_sp_component_list_of_enc(s, p3, d.components);
    let p4 = p3 + t4.len() as int;
    lemma_sp_meal_list_of_enc(s, p4, d.meals);
    assert(sp_data(s, 0) == Some((d, s.len() as int)));
}

/// Creating a dataset for any period, saving it, and opening the saved
/// payload yields an equal dataset: the period with empty component
/// and meal maps round-trips through the encoding.
pub proof fn lemma_new_save_open(year: i32, month: u32)
    ensures
        ({
            let d = DataV {
                year,
                month,
                components: Seq::<(u128, ComponentV)>::empty(),
                meals: Seq::<(u128, MealV)>::empty(),
            };
            spec_decode(enc_data(d)) == Some(d)
        }),
{
    let d = DataV {
        year,
        month,
        components: Seq::<(u128, ComponentV)>::empty(),
        meals: Seq::<(u128, MealV)>::empty(),
    };
    assert(d.wf());
    assert(encodable(d));
    lemma_decode_encode(d);
}

// ------------------------------------------------------------------
// executable encoder
// ------------------------------------------------------------------

proof fn lemma_enc_leaf_items_snoc(s: Seq<(u128, LeafV)>, i: int)
    requires
        0 <= i < s.len(),
    ensures
        enc_leaf_items(s.take(i + 1)) == enc_leaf_items(s.take(i)) + enc_leaf(s[i]),
    decreases i,
{
    if i == 0 {
        assert(s.take(1).drop_first() =~= s.take(0));
        assert(s.take(1)[0] == s[0]);
        assert(enc_leaf_items(s.take(1)) =~= enc_leaf_items(s.take(0)) + enc_leaf(s[0]));
    } else {
        let s2 = s.drop_first();
        lemma_enc_leaf_items_snoc(s2, i - 1);
        assert(s.take(i + 1).drop_first() =~= s2.take(i));
        assert(s.take(i).drop_first() =~= s2.take(i - 1));
        assert(s.take(i + 1)[0] == s[0]);
        assert(s.take(i)[0] == s[0]);
        assert(s2[i - 1] == s[i]);
        assert(enc_leaf_items(s.take(i + 1)) =~= enc_leaf_items(s.take(i)) + enc_leaf(s[i]));
    }
}

proof fn lemma_enc_link_items_snoc(s: Seq<(u128, MealComponentV)>, i: int)
    requires
        0 <= i < s.len(),
    ensures
        enc_link_items(s.take(i + 1)) == enc_link_items(s.take(i)) + enc_link(s[i]),
    decreases i,
{
    if i == 0 {
        assert(s.take(1).drop_first() =~= s.take(0));
        assert(s.take(1)[0] == s[0]);
        assert(enc_link_items(s.take(1)) =~= enc_link_items(s.take(0)) + enc_link(s[0]));
    } else {
        let s2 = s.drop_first();
        lemma_enc_link_items_snoc(s2, i - 1);
        assert(s.take(i + 1).drop_first() =~= s2.take(i));
        assert(s.take(i).drop_first() =~= s2.take(i - 1));
        assert(s.take(i + 1)[0] == s[0]);
        assert(s.take(i)[0] == s[0]);
        assert(s2[i - 1] == s[i]);
        assert(enc_link_items(s.take(i + 1)) =~= enc_link_items(s.take(i)) + enc_link(s[i]));
    }
}

proof fn lemma_enc_component_items_snoc(s: Seq<(u128, ComponentV)>, i: int)
    requires
        0 <= i < s.len(),
    ensures
        enc_component_items(s.take(i + 1)) == enc_component_items(s.take(i)) + enc_component(
            s[i],
        ),
    decreases i,
{
    if i == 0 {
        assert(s.take(1).drop_first() =~= s.take(0));
        assert(s.take(1)[0] == s[0]);
        assert(enc_component_items(s.take(1)) =~= enc_component_items(s.take(0))
            + enc_component(s[0]));
    } else {
        let s2 = s.drop_first();
        lemma_enc_component_items_snoc(s2, i - 1);
        assert(s.take(i + 1).drop_first() =~= s2.take(i));
        assert(s.take(i).drop_first() =~= s2.take(i - 1));
        assert(s.take(i + 1)[0] == s[0]);
        assert(s.take(i)[0] == s[0]);
        assert(s2[i - 1] == s[i]);
        assert(enc_component_items(s.take(i + 1)) =~= enc_component_items(s.take(i))
            + enc_component(s[i]));
    }
}

proof fn lemma_enc_meal_items_snoc(s: Seq<(u128, MealV)>, i: int)
    requires
        0 <= i < s.len(),
    ensures
        enc_meal_items(s.take(i + 1)) == enc_meal_items(s.take(i)) + enc_meal(s[i]),
    decreases i,
{
    if i == 0 {
        assert(s.take(1).drop_first() =~= s.take(0));
        assert(s.take(1)[0] == s[0]);
        assert(enc_meal_items(s.take(1)) =~= enc_meal_items(s.take(0)) + enc_meal(s[0]));
    } else {
        let s2 = s.drop_first();
        lemma_enc_meal_items_snoc(s2, i - 1);
        assert(s.take(i + 1).drop_first() =~= s2.take(i));
        assert(s.take(i).drop_first() =~= s2.take(i - 1));
        assert(s.take(i + 1)[0] == s[0]);
        assert(s.take(i)[0] == s[0]);
        assert(s2[i - 1] == s[i]);
        assert(enc_meal_items(s.take(i + 1)) =~= enc_meal_items(s.take(i)) + enc_meal(s[i]));
    }
}

fn emit_leaf(id: u128, name: &String, delete: bool, out: &mut Vec<char>)
    ensures
        final(out)@ == old(out)@ + enc_leaf((id, LeafV { name: name@, delete })),
{
    emit_u128(id, out);
    emit_str(name.as_str(), out);
    emit_bool(delete, out);
    proof {
        assert(final(out)@ =~= old(out)@ + enc_leaf((id, LeafV { name: name@, delete })));
    }
}

fn emit_variants(m: &IdMap<Variant>, out: &mut Vec<char>)
    ensures
        final(out)@ == old(out)@ + enc_leaf_list(m@),
{
    let n = m.entries.len();
    emit_u128(n as u128, out);
    let ghost base = out@;
    for i in 0..n
        invariant
            n == m@.len(),
            out@ == base + enc_leaf_items(m@.take(i as int)),
    {
        let e = &m.entries[i];
        proof {
            assert(m@[i as int] == m.entries[i as int]@);
        }
        emit_leaf(e.id, &e.val.name, e.val.delete, out);
        proof {
            lemma_enc_leaf_items_snoc(m@, i as int);
            assert(out@ =~= base + enc_leaf_items(m@.take(i + 1)));
        }
    }
    proof {
        assert(m@.take(n as int) =~= m@);
        assert(final(out)@ =~= old(out)@ + enc_leaf_list(m@));
    }
}

fn emit_options(m: &IdMap<OptionEntry>, out: &mut Vec<char>)
    ensures
        final(out)@ == old(out)@ + enc_leaf_list(m@),
{
    let n = m.entries.len();
    emit_u128(n as u128, out);
    let ghost base = out@;
    for i in 0..n
        invariant
            n == m@.len(),
            out@ == base + enc_leaf_items(m@.take(i as int)),
    {
        let e = &m.entries[i];
        proof {
            assert(m@[i as int] == m.entries[i as int]@);
        }
        emit_leaf(e.id, &e.val.name, e.val.delete, out);
        proof {
            lemma_enc_leaf_items_snoc(m@, i as int);
            assert(out@ =~= base + enc_leaf_items(m@.take(i + 1)));
        }
    }
    proof {
        assert(m@.take(n as int) =~= m@);
        assert(final(out)@ =~= old(out)@ + enc_leaf_list(m@));
    }
}

fn emit_links(m: &IdMap<MealComponent>, out: &mut Vec<char>)
    ensures
        final(out)@ == old(out)@ + enc_link_list(m@),
{
    let n = m.entries.len();
    emit_u128(n as u128, out);
    let ghost base = out@;
    for i in 0..n
        invariant
            n == m@.len(),
            out@ == base + enc_link_items(m@.take(i as int)),
    {
        let e = &m.entries[i];
        proof {
            assert(m@[i as int] == m.entries[i as int]@);
        }
        let ghost mid = out@;
        emit_u128(e.id, out);
        match &e.val.variant {
            Some(v) => {
                emit_bool(true, out);
                emit_u128(*v, out);
            },
            None => {
                emit_bool(false, out);
            },
        }
        emit_bool(e.val.delete, out);
        proof {
            assert(out@ =~= mid + enc_link(m@[i as int]));
            lemma_enc_link_items_snoc(m@, i as int);
            assert(out@ =~= base + enc_link_items(m@.take(i + 1)));
        }
    }
    proof {
        assert(m@.take(n as int) =~= m@);
        assert(final(out)@ =~= old(out)@ + enc_link_list(m@));
    }
}

fn emit_component(e: &Entry<Component>, out: &mut Vec<char>)
    ensures
        final(out)@ == old(out)@ + enc_component(e@),
{
    emit_u128(e.id, out);
    emit_str(e.val.name.as_str(), out);
    emit_bool(e.val.delete, out);
    emit_variants(&e.val.variants, out);
    emit_options(&e.val.options, out);
    proof {
        assert(final(out)@ =~= old(out)@ + enc_component(e@));
    }
}

fn emit_meal(e: &Entry<Meal>, out: &mut Vec<char>)
    ensures
        final(out)@ == old(out)@ + enc_meal(e@),
{
    emit_u128(e.id, out);
    emit_str(e.val.name.as_str(), out);
    emit_str(e.val.short.as_str(), out);
    emit_bool(e.val.delete, out);
    emit_links(&e.val.components, out);
    proof {
        assert(final(out)@ =~= old(out)@ + enc_meal(e@));
    }
}

/// Render a dataset in its canonical encoding.
pub fn encode(d: &Data) -> (r: Vec<char>)
    ensures
        r@ == enc_data(d@),
{
    let mut out: Vec<char> = Vec::new();
    out.push('m');
    out.push('o');
    out.push('w');
    out.push('1');
    out.push('\n');
    proof {
        assert(out@ =~= enc_magic());
    }
    emit_i32(d.year, &mut out);
    emit_u128(d.month as u128, &mut out);
    let ghost base = out@;
    let n = d.components.entries.len();
    emit_u128(n as u128, &mut out);
    let ghost base2 = out@;
    for i in 0..n
        invariant
            n == d@.components.len(),
            out@ == base2 + enc_component_items(d@.components.take(i as int)),
    {
        proof {
            assert(d@.components[i as int] == d.components.entries[i as int]@);
        }
        emit_component(&d.components.entries[i], &mut out);
        proof {
            lemma_enc_component_items_snoc(d@.components, i as int);
            assert(out@ =~= base2 + enc_component_items(d@.components.take(i + 1)));
        }
    }
    proof {
        assert(d@.components.take(n as int) =~= d@.components);
        assert(out@ =~= base + enc_component_list(d@.components));
    }
    let nm = d.meals.entries.len();
    emit_u128(nm as u128, &mut out);
    let ghost base4 = out@;
    for i in 0..nm
        invariant
            nm == d@.meals.len(),
            out@ == base4 + enc_meal_items(d@.meals.take(i as int)),
    {
        proof {
            assert(d@.meals[i as int] == d.meals.entries[i as int]@);
        }
        emit_meal(&d.meals.entries[i], &mut out);
        proof {
            lemma_enc_meal_items_snoc(d@.meals, i as int);
            assert(out@ =~= base4 + enc_meal_items(d@.meals.take(i + 1)));
        }
    }
    proof {
        assert(d@.meals.take(nm as int) =~= d@.meals);
        assert(out@ =~= enc_data(d@));
    }
    out
}

// ------------------------------------------------------------------
// executable parser
// ------------------------------------------------------------------

fn p_leaf(s: &Vec<char>, pos: usize) -> (r: Option<(u128, String, bool, usize)>)
    requires
        pos <= s@.len(),
    ensures
        match r {
            Some((id, nm, dl, p)) => sp_leaf(s@, pos as int) == Some((
                (id, LeafV { name: nm@, delete: dl }),
                p as int,
            )) && pos < p <= s@.len(),
            None => sp_leaf(s@, pos as int) is None,
        },
{
    let (id, p1) = match parse_u128(s, pos) {
        None => {
            return None;
        },
        Some(x) => x,
    };
    let (nm, p2) = match parse_str(s, p1) {
        None => {
            return None;
        },
        Some(x) => x,
    };
    let (dl, p3) = match parse_bool(s, p2) {
        None => {
            return None;
        },
        Some(x) => x,
    };
    let name = chars_to_string(&nm);
    Some((id, name, dl, p3))
}

fn p_variants(s: &Vec<char>, pos: usize) -> (r: Option<(IdMap<Variant>, usize)>)
    requires
        pos <= s@.len(),
    ensures
        match r {
            Some((m, p)) => sp_leaf_list(s@, pos as int) == Some((m@, p as int)) && pos < p
                <= s@.len(),
            None => sp_leaf_list(s@, pos as int) is None,
        },
{
    let (n, p0) = match parse_u128(s, pos) {
        None => {
            return None;
        },
        Some(x) => x,
    };
    let mut entries: Vec<Entry<Variant>> = Vec::new();
    let mut cur = p0;
    let mut i: u128 = 0;
    while i < n
        invariant
            i <= n,
            pos < cur <= s@.len(),
            spec_parse_u128(s@, pos as int) == Some((n, p0 as int)),
            (match sp_leaf_items(s@, cur as int, (n - i) as nat) {
                Some((rest, p2)) => sp_leaf_items(s@, p0 as int, n as nat) == Some((
                    entries@.map_values(|e: Entry<Variant>| e@) + rest,
                    p2,
                )),
                None => sp_leaf_items(s@, p0 as int, n as nat) is None,
            }),
        decreases n - i,
    {
        let ghost acc0 = entries@.map_values(|e: Entry<Variant>| e@);
        match p_leaf(s, cur) {
            None => {
                proof {
                    assert(sp_leaf_items(s@, cur as int, (n - i) as nat) is None);
                }
                return None;
            },
            Some((id, nm, dl, p)) => {
                let ghost ev = (id, LeafV { name: nm@, delete: dl });
                entries.push(Entry { id, val: Variant { name: nm, delete: dl } });
                proof {
                    let acc1 = entries@.map_values(|e: Entry<Variant>| e@);
                    assert(acc1 =~= acc0.push(ev));
                    match sp_leaf_items(s@, p as int, (n - i - 1) as nat) {
                        Some((rest, p2)) => {
                            assert(sp_leaf_items(s@, cur as int, (n - i) as nat) == Some((
                                seq![ev] + rest,
                                p2,
                            )));
                            assert(acc0 + (seq![ev] + rest) =~= acc1 + rest);
                        },
                        None => {
                            assert(sp_leaf_items(s@, cur as int, (n - i) as nat) is None);
                        },
                    }
                }
                cur = p;
                i = i + 1;
            },
        }
    }
    proof {
        assert(sp_leaf_items(s@, cur as int, 0) == Some((
            Seq::<(u128, LeafV)>::empty(),
            cur as int,
        )));
        let acc = entries@.map_values(|e: Entry<Variant>| e@);
        assert(acc + Seq::<(u128, LeafV)>::empty() =~= acc);
    }
    Some((IdMap { entries }, cur))
}

fn p_options(s: &Vec<char>, pos: usize) -> (r: Option<(IdMap<OptionEntry>, usize)>)
    requires
        pos <= s@.len(),
    ensures
        match r {
            Some((m, p)) => sp_leaf_list(s@, pos as int) == Some((m@, p as int)) && pos < p
                <= s@.len(),
            None => sp_leaf_list(s@, pos as int) is None,
        },
{
    let (n, p0) = match parse_u128(s, pos) {
        None => {
            return None;
        },
        Some(x) => x,
    };
    let mut entries: Vec<Entry<OptionEntry>> = Vec::new();
    let mut cur = p0;
    let mut i: u128 = 0;
    while i < n
        invariant
            i <= n,
            pos < cur <= s@.len(),
            spec_parse_u128(s@, pos as int) == Some((n, p0 as int)),
            (match sp_leaf_items(s@, cur as int, (n - i) as nat) {
                Some((rest, p2)) => sp_leaf_items(s@, p0 as int, n as nat) == Some((
                    entries@.map_values(|e: Entry<OptionEntry>| e@) + rest,
                    p2,
                )),
                None => sp_leaf_items(s@, p0 as int, n as nat) is None,
            }),
        decreases n - i,
    {
        let ghost acc0 = entries@.map_values(|e: Entry<OptionEntry>| e@);
        match p_leaf(s, cur) {
            None => {
                proof {
                    assert(sp_leaf_items(s@, cur as int, (n - i) as nat) is None);
                }
                return None;
            },
            Some((id, nm, dl, p)) => {
                let ghost ev = (id, LeafV { name: nm@, delete: dl });
                entries.push(Entry { id, val: OptionEntry { name: nm, delete: dl } });
                proof {
                    let acc1 = entries@.map_values(|e: Entry<OptionEntry>| e@);
                    assert(acc1 =~= acc0.push(ev));
                    match sp_leaf_items(s@, p as int, (n - i - 1) as nat) {
                        Some((rest, p2)) => {
                            assert(sp_leaf_items(s@, cur as int, (n - i) as nat) == Some((
                                seq![ev] + rest,
                                p2,
                            )));
                            assert(acc0 + (seq![ev] + rest) =~= acc1 + rest);
                        },
                        None => {
                            assert(sp_leaf_items(s@, cur as int, (n - i) as nat) is None);
                        },
                    }
                }
                cur = p;
                i = i + 1;
            },
        }
    }
    proof {
        assert(sp_leaf_items(s@, cur as int, 0) == Some((
            Seq::<(u128, LeafV)>::empty(),
            cur as int,
        )));
        let acc = entries@.map_values(|e: Entry<OptionEntry>| e@);
        assert(acc + Seq::<(u128, LeafV)>::empty() =~= acc);
    }
    Some((IdMap { entries }, cur))
}

fn p_links(s: &Vec<char>, pos: usize) -> (r: Option<(IdMap<MealComponent>, usize)>)
    requires
        pos <= s@.len(),
    ensures
        match r {
            Some((m, p)) => sp_link_list(s@, pos as int) == Some((m@, p as int)) && pos < p
                <= s@.len(),
            None => sp_link_list(s@, pos as int) is None,
        },
{
    let (n, p0) = match parse_u128(s, pos) {
        None => {
            return None;
        },
        Some(x) => x,
    };
    let mut entries: Vec<Entry<MealComponent>> = Vec::new();
    let mut cur = p0;
    let mut i: u128 = 0;
    while i < n
        invariant
            i <= n,
            pos < cur <= s@.len(),
            spec_parse_u128(s@, pos as int) == Some((n, p0 as int)),
            (match sp_link_items(s@, cur as int, (n - i) as nat) {
                Some((rest, p2)) => sp_link_items(s@, p0 as int, n as nat) == Some((
                    entries@.map_values(|e: Entry<MealComponent>| e@) + rest,
                    p2,
                )),
                None => sp_link_items(s@, p0 as int, n as nat) is None,
            }),
        decreases n - i,
    {
        let ghost acc0 = entries@.map_values(|e: Entry<MealComponent>| e@);
        let (id, p1) = match parse_u128(s, cur) {
            None => {
                proof {
                    assert(sp_link_items(s@, cur as int, (n - i) as nat) is None);
                }
                return None;
            },
            Some(x) => x,
        };
        let (has, p2) = match parse_bool(s, p1) {
            None => {
                proof {
                    assert(sp_link_items(s@, cur as int, (n - i) as nat) is None);
                }
                return None;
            },
            Some(x) => x,
        };
        let (variant, p3) = if has {
            let (v, pa) = match parse_u128(s, p2) {
                None => {
                    proof {
                        assert(sp_link_items(s@, cur as int, (n - i) as nat) is None);
                    }
                    return None;
                },
                Some(x) => x,
            };
            (Some(v), pa)
        } else {
            (None, p2)
        };
        let (dl, p4) = match parse_bool(s, p3) {
            None => {
                proof {
                    assert(sp_link_items(s@, cur as int, (n - i) as nat) is None);
                }
                return None;
            },
            Some(x) => x,
        };
        let ghost lv = MealComponentV {
            variant: match variant {
                Some(v) => Some(v),
                None => None,
            },
            delete: dl,
        };
        let ghost ev = (id, lv);
        proof {
            assert(sp_link(s@, cur as int) == Some((ev, p4 as int)));
        }
        entries.push(Entry { id, val: MealComponent { variant, delete: dl } });
        proof {
            let acc1 = entries@.map_values(|e: Entry<MealComponent>| e@);
            assert(acc1 =~= acc0.push(ev));
            match sp_link_items(s@, p4 as int, (n - i - 1) as nat) {
                Some((rest, pz)) => {
                    assert(sp_link_items(s@, cur as int, (n - i) as nat) == Some((
                        seq![ev] + rest,
                        pz,
                    )));
                    assert(acc0 + (seq![ev] + rest) =~= acc1 + rest);
                },
                None => {
                    assert(sp_link_items(s@, cur as int, (n - i) as nat) is None);
                },
            }
        }
        cur = p4;
        i = i + 1;
    }
    proof {
        assert(sp_link_items(s@, cur as int, 0) == Some((
            Seq::<(u128, MealComponentV)>::empty(),
            cur as int,
        )));
        let acc = entries@.map_values(|e: Entry<MealComponent>| e@);
        assert(acc + Seq::<(u128, MealComponentV)>::empty() =~= acc);
    }
    Some((IdMap { entries }, cur))
}

fn p_component(s: &Vec<char>, pos: usize) -> (r: Option<(Entry<Component>, usize)>)
    requires
        pos <= s@.len(),
    ensures
        match r {
            Some((e, p)) => sp_component(s@, pos as int) == Some((e@, p as int)) && pos < p
                <= s@.len(),
            None => sp_component(s@, pos as int) is None,
        },
{
    let (id, p1) = match parse_u128(s, pos) {
        None => {
            return None;
        },
        Some(x) => x,
    };
    let (nm, p2) = match parse_str(s, p1) {
        None => {
            return None;
        },
        Some(x) => x,
    };
    let (dl, p3) = match parse_bool(s, p2) {
        None => {
            return None;
        },
        Some(x) => x,
    };
    let (variants, p4) = match p_variants(s, p3) {
        None => {
            return None;
        },
        Some(x) => x,
    };
    let (options, p5) = match p_options(s, p4) {
        None => {
            return None;
        },
        Some(x) => x,
    };
    let name = chars_to_string(&nm);
    Some((Entry { id, val: Component { name, delete: dl, variants, options } }, p5))
}

fn p_components(s: &Vec<char>, pos: usize) -> (r: Option<(IdMap<Component>, usize)>)
    requires
        pos <= s@.len(),
    ensures
        match r {
            Some((m, p)) => sp_component_list(s@, pos as int) == Some((m@, p as int)) && pos < p
                <= s@.len(),
            None => sp_component_list(s@, pos as int) is None,
        },
{
    let (n, p0) = match parse_u128(s, pos) {
        None => {
            return None;
        },
        Some(x) => x,
    };
    let mut entries: Vec<Entry<Component>> = Vec::new();
    let mut cur = p0;
    let mut i: u128 = 0;
    while i < n
        invariant
            i <= n,
            pos < cur <= s@.len(),
            spec_parse_u128(s@, pos as int) == Some((n, p0 as int)),
            (match sp_component_items(s@, cur as int, (n - i) as nat) {
                Some((rest, p2)) => sp_component_items(s@, p0 as int, n as nat) == Some((
                    entries@.map_values(|e: Entry<Component>| e@) + rest,
                    p2,
                )),
                None => sp_component_items(s@, p0 as int, n as nat) is None,
            }),
        decreases n - i,
    {
        let ghost acc0 = entries@.map_values(|e: Entry<Component>| e@);
        match p_component(s, cur) {
            None => {
                proof {
                    assert(sp_component_items(s@, cur as int, (n - i) as nat) is None);
                }
                return None;
            },
            Some((e, p)) => {
                let ghost ev = e@;
                entries.push(e);
                proof {
                    let acc1 = entries@.map_values(|e2: Entry<Component>| e2@);
                    assert(acc1 =~= acc0.push(ev));
                    match sp_component_items(s@, p as int, (n - i - 1) as nat) {
                        Some((rest, p2)) => {
                            assert(sp_component_items(s@, cur as int, (n - i) as nat) == Some((
                                seq![ev] + rest,
                                p2,
                            )));
                            assert(acc0 + (seq![ev] + rest) =~= acc1 + rest);
                        },
                        None => {
                            assert(sp_component_items(s@, cur as int, (n - i) as nat) is None);
                        },
                    }
                }
                cur = p;
                i = i + 1;
            },
        }
    }
    proof {
        assert(sp_component_items(s@, cur as int, 0) == Some((
            Seq::<(u128, ComponentV)>::empty(),
            cur as int,
        )));
        let acc = entries@.map_values(|e: Entry<Component>| e@);
        assert(acc + Seq::<(u128, ComponentV)>::empty() =~= acc);
    }
    Some((IdMap { entries }, cur))
}

fn p_meal(s: &Vec<char>, pos: usize) -> (r: Option<(Entry<Meal>, usize)>)
    requires
        pos <= s@.len(),
    ensures
        match r {
            Some((e, p)) => sp_meal(s@, pos as int) == Some((e@, p as int)) && pos < p
                <= s@.len(),
            None => sp_meal(s@, pos as int) is None,
        },
{
    let (id, p1) = match parse_u128(s, pos) {
        None => {
            return None;
        },
        Some(x) => x,
    };
    let (nm, p2) = match parse_str(s, p1) {
        None => {
            return None;
        },
        Some(x) => x,
    };
    let (sh, p3) = match parse_str(s, p2) {
        None => {
            return None;
        },
        Some(x) => x,
    };
    let (dl, p4) = match parse_bool(s, p3) {
        None => {
            return None;
        },
        Some(x) => x,
    };
    let (links, p5) = match p_links(s, p4) {
        None => {
            return None;
        },
        Some(x) => x,
    };
    let name = chars_to_string(&nm);
    let short = chars_to_string(&sh);
    Some((Entry { id, val: Meal { name, short, delete: dl, components: links } }, p5))
}

fn p_meals(s: &Vec<char>, pos: usize) -> (r: Option<(IdMap<Meal>, usize)>)
    requires
        pos <= s@.len(),
    ensures
        match r {
            Some((m, p)) => sp_meal_list(s@, pos as int) == Some((m@, p as int)) && pos < p
                <= s@.len(),
            None => sp_meal_list(s@, pos as int) is None,
        },
{
    let (n, p0) = match parse_u128(s, pos) {
        None => {
            return None;
        },
        Some(x) => x,
    };
    let mut entries: Vec<Entry<Meal>> = Vec::new();
    let mut cur = p0;
    let mut i: u128 = 0;
    while i < n
        invariant
            i <= n,
            pos < cur <= s@.len(),
            spec_parse_u128(s@, pos as int) == Some((n, p0 as int)),
            (match sp_meal_items(s@, cur as int, (n - i) as nat) {
                Some((rest, p2)) => sp_meal_items(s@, p0 as int, n as nat) == Some((
                    entries@.map_values(|e: Entry<Meal>| e@) + rest,
                    p2,
                )),
                None => sp_meal_items(s@, p0 as int, n as nat) is None,
            }),
        decreases n - i,
    {
        let ghost acc0 = entries@.map_values(|e: Entry<Meal>| e@);
        match p_meal(s, cur) {
            None => {
                proof {
                    assert(sp_meal_items(s@, cur as int, (n - i) as nat) is None);
                }
                return None;
            },
            Some((e, p)) => {
                let ghost ev = e@;
                entries.push(e);
                proof {
                    let acc1 = entries@.map_values(|e2: Entry<Meal>| e2@);
                    assert(acc1 =~= acc0.push(ev));
                    match sp_meal_items(s@, p as int, (n - i - 1) as nat) {
                        Some((rest, p2)) => {
                            assert(sp_meal_items(s@, cur as int, (n - i) as nat) == Some((
                                seq![ev] + rest,
                                p2,
                            )));
                            assert(acc0 + (seq![ev] + rest) =~= acc1 + rest);
                        },
                        None => {
                            assert(sp_meal_items(s@, cur as int, (n - i) as nat) is None);
                        },
                    }
                }
                cur = p;
                i = i + 1;
            },
        }
    }
    proof {
        assert(sp_meal_items(s@, cur as int, 0) == Some((
            Seq::<(u128, MealV)>::empty(),
            cur as int,
        )));
        let acc = entries@.map_values(|e: Entry<Meal>| e@);
        assert(acc + Seq::<(u128, MealV)>::empty() =~= acc);
    }
    Some((IdMap { entries }, cur))
}

// ------------------------------------------------------------------
// well-formedness checks and the decoder
// ------------------------------------------------------------------

fn check_distinct<V: View>(m: &IdMap<V>) -> (r: bool)
    ensures
        r == keys_distinct(m@),
{
    let n = m.entries.len();
    for i in 0..n
        invariant
            n == m@.len(),
            keys_distinct(m@.take(i as int)),
    {
        for j in 0..i
            invariant
                i < n,
                n == m@.len(),
                forall|k: int| 0 <= k < j ==> (#[trigger] m@[k]).0 != m@[i as int].0,
        {
            proof {
                assert(m@[j as int] == m.entries[j as int]@);
                assert(m@[i as int] == m.entries[i as int]@);
            }
            if m.entries[j].id == m.entries[i].id {
                proof {
                    assert(m@[j as int].0 == m@[i as int].0);
                    assert(!keys_distinct(m@));
                }
                return false;
            }
        }
        proof {
            assert(keys_distinct(m@.take(i + 1))) by {
                assert(forall|k: int| 0 <= k < i + 1 ==> m@.take(i + 1)[k] == m@[k]);
            }
        }
    }
    proof {
        assert(m@.take(n as int) =~= m@);
    }
    true
}

/// Whether the identifiers of a dataset are distinct at every level.
pub fn check_data_wf(d: &Data) -> (r: bool)
    ensures
        r == d@.wf(),
{
    if !check_distinct(&d.components) {
        return false;
    }
    if !check_distinct(&d.meals) {
        return false;
    }
    let n = d.components.entries.len();
    for ci in 0..n
        invariant
            n == d@.components.len(),
            keys_distinct(d@.components),
            keys_distinct(d@.meals),
            forall|k: int| 0 <= k < ci ==> (#[trigger] d@.components[k]).1.wf(),
    {
        proof {
            assert(d@.components[ci as int] == d.components.entries[ci as int]@);
        }
        let e = &d.components.entries[ci];
        if !check_distinct(&e.val.variants) {
            proof {
                assert(!d@.components[ci as int].1.wf());
            }
            return false;
        }
        if !check_distinct(&e.val.options) {
            proof {
                assert(!d@.components[ci as int].1.wf());
            }
            return false;
        }
        proof {
            assert(d@.components[ci as int].1.wf());
        }
    }
    let nm = d.meals.entries.len();
    for mi in 0..nm
        invariant
            nm == d@.meals.len(),
            keys_distinct(d@.components),
            keys_distinct(d@.meals),
            forall|k: int| 0 <= k < d@.components.len() ==> (#[trigger] d@.components[k]).1.wf(),
            forall|k: int| 0 <= k < mi ==> (#[trigger] d@.meals[k]).1.wf(),
    {
        proof {
            assert(d@.meals[mi as int] == d.meals.entries[mi as int]@);
        }
        let e = &d.meals.entries[mi];
        if !check_distinct(&e.val.components) {
            proof {
                assert(!d@.meals[mi as int].1.wf());
            }
            return false;
        }
        proof {
            assert(d@.meals[mi as int].1.wf());
        }
    }
    true
}

/// Parse a dataset from an input text; the result is exactly what
/// [`spec_decode`] says of that text.
pub fn decode(s: &Vec<char>) -> (r: Option<Data>)
    ensures
        match r {
            Some(d) => spec_decode(s@) == Some(d@) && d.wf(),
            None => spec_decode(s@) is None,
        },
{
    let len = s.len();
    if len < 5 || !(s[0] == 'm') || !(s[1] == 'o') || !(s[2] == 'w') || !(s[3] == '1') || !(s[4]
        == '\n') {
        proof {
            if len >= 5 {
                assert(s@.subrange(0, 5) != enc_magic()) by {
                    if s@.subrange(0, 5) == enc_magic() {
                        assert(s@[0] == enc_magic()[0]);
                        assert(s@[1] == enc_magic()[1]);
                        assert(s@[2] == enc_magic()[2]);
                        assert(s@[3] == enc_magic()[3]);
                        assert(s@[4] == enc_magic()[4]);
                    }
                }
            }
        }
        return None;
    }
    proof {
        assert(s@.subrange(0, 5) =~= enc_magic());
    }
    let (year, p1) = match parse_i32(s, 5) {
        None => {
            return None;
        },
        Some(x) => x,
    };
    let (m128, p2) = match parse_u128(s, p1) {
        None => {
            return None;
        },
        Some(x) => x,
    };
    if m128 > u32::MAX as u128 {
        return None;
    }
    let month = m128 as u32;
    let (components, p3) = match p_components(s, p2) {
        None => {
            return None;
        },
        Some(x) => x,
    };
    let (meals, p4) = match p_meals(s, p3) {
        None => {
            return None;
        },
        Some(x) => x,
    };
    if p4 != len {
        return None;
    }
    let d = Data { year, month, components, meals };
    if !check_data_wf(&d) {
        return None;
    }
    Some(d)
}

/// Any dataset held in memory is encodable: every collection is a
/// vector, whose length is bounded by the machine.
pub proof fn lemma_data_encodable(d: &Data)
    ensures
        encodable(d@),
{
    broadcast use vstd::std_specs::vec::axiom_spec_len;

    assert(vstd::std_specs::vec::spec_vec_len(&d.components.entries) == d@.components.len());
    assert(vstd::std_specs::vec::spec_vec_len(&d.meals.entries) == d@.meals.len());
    assert forall|i: int| 0 <= i < d@.components.len() implies (
    #[trigger] d@.components[i]).1.variants.len() <= u128::MAX && d@.components[
        i
    ].1.options.len() <= u128::MAX by {
        let c = d.components.entries@[i].val;
        assert(d@.components[i] == d.components.entries@[i]@);
        assert(vstd::std_specs::vec::spec_vec_len(&c.variants.entries) == c.variants@.len());
        assert(vstd::std_specs::vec::spec_vec_len(&c.options.entries) == c.options@.len());
    }
    assert forall|i: int| 0 <= i < d@.meals.len() implies (
    #[trigger] d@.meals[i]).1.components.len() <= u128::MAX by {
        let m = d.meals.entries@[i].val;
        assert(d@.meals[i] == d.meals.entries@[i]@);
        assert(vstd::std_specs::vec::spec_vec_len(&m.components.entries) == m.components@.len());
    }
}

} // verus!
