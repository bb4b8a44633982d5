use mealplan::commands::{ComponentCmd, ComponentCmdError, ComponentCmdSuccess, MealCmdError};
use mealplan::idmap::IdMap;
use mealplan::model::{Component, Data, Meal, MealComponent, OptionEntry, Variant};
use mealplan::session::{GlobalCmdError, Session, State};

fn s(x: &str) -> String {
    x.to_string()
}

fn loaded_session(year: i32, month: u32) -> Session {
    let mut sess = Session::new();
    assert!(sess.install_new(year, month).is_ok());
    sess
}

fn component_id_by_name(sess: &Session, name: &str) -> u128 {
    let comps = sess.get_components().unwrap();
    for e in comps.entries.iter() {
        if e.val.name == name {
            return e.id;
        }
    }
    panic!("component {} not found", name);
}

fn variant_id_by_name(sess: &Session, component: u128, name: &str) -> u128 {
    let comps = sess.get_components().unwrap();
    for e in comps.entries.iter() {
        if e.id == component {
            for v in e.val.variants.entries.iter() {
                if v.val.name == name {
                    return v.id;
                }
            }
        }
    }
    panic!("variant {} not found", name);
}

#[test]
fn get_state_reports_period() {
    let mut sess = Session::new();
    assert_eq!(sess.get_state(), State::Select);
    sess.install_new(2024, 3).unwrap();
    assert_eq!(sess.get_state(), State::Loaded { year: 2024, month: 3 });
    sess.close();
    assert_eq!(sess.get_state(), State::Select);
}

#[test]
fn new_while_loaded_is_dataset_is_active() {
    let mut sess = loaded_session(2024, 3);
    // regardless of the requested period
    assert_eq!(sess.install_new(2025, 7), Err(GlobalCmdError::DatasetIsActive));
    assert_eq!(sess.install_new(1999, 1), Err(GlobalCmdError::DatasetIsActive));
    assert_eq!(
        sess.prepare_new("/nonexistent-mealplan-base", false),
        Err(GlobalCmdError::DatasetIsActive)
    );
    assert_eq!(
        sess.prepare_new("/nonexistent-mealplan-base", true),
        Err(GlobalCmdError::DatasetIsActive)
    );
    // the loaded dataset is untouched
    assert_eq!(sess.get_state(), State::Loaded { year: 2024, month: 3 });
}

#[test]
fn open_with_invalid_month_is_no_dataset() {
    let sess = Session::new();
    assert_eq!(
        sess.prepare_open("/nonexistent-mealplan-base", 2024, 0),
        Err(GlobalCmdError::NoDataset)
    );
    assert_eq!(
        sess.prepare_open("/nonexistent-mealplan-base", 2024, 13),
        Err(GlobalCmdError::NoDataset)
    );
    // a loaded session answers the same for an invalid month
    let sess2 = loaded_session(2024, 3);
    assert_eq!(
        sess2.prepare_open("/nonexistent-mealplan-base", 2024, 0),
        Err(GlobalCmdError::NoDataset)
    );
}

#[test]
fn add_component_trims_and_rejects_empty() {
    let mut sess = loaded_session(2024, 3);
    assert_eq!(
        sess.add_component(&s("   "), &vec![], &vec![]),
        Err(ComponentCmdError::EmptyName)
    );
    assert_eq!(
        sess.add_component(&s("Side"), &vec![s("Rice"), s("  ")], &vec![]),
        Err(ComponentCmdError::EmptyName)
    );
    sess.add_component(&s("  Side  "), &vec![s(" Rice "), s("Fries")], &vec![]).unwrap();
    let comps = sess.get_components().unwrap();
    assert_eq!(comps.entries.len(), 1);
    assert_eq!(comps.entries[0].val.name, "Side");
    let names: Vec<&str> =
        comps.entries[0].val.variants.entries.iter().map(|e| e.val.name.as_str()).collect();
    assert!(names.contains(&"Rice"));
    assert!(names.contains(&"Fries"));
    assert_eq!(names.len(), 2);
}

#[test]
fn add_component_not_active() {
    let mut sess = Session::new();
    assert_eq!(
        sess.add_component(&s("Side"), &vec![], &vec![]),
        Err(ComponentCmdError::DatasetNotActive)
    );
}

#[test]
fn duplicate_variant_name_is_idempotent() {
    let mut sess = loaded_session(2024, 3);
    sess.add_component(&s("Side"), &vec![s("Rice")], &vec![]).unwrap();
    let side = component_id_by_name(&sess, "Side");
    let rice = variant_id_by_name(&sess, side, "Rice");
    // equal after trim: still a success, dataset and identifiers unchanged
    assert!(sess.add_variant(side, &s("  Rice ")).is_ok());
    let comps = sess.get_components().unwrap();
    assert_eq!(comps.entries[0].val.variants.entries.len(), 1);
    assert_eq!(comps.entries[0].val.variants.entries[0].id, rice);
    assert_eq!(comps.entries[0].val.variants.entries[0].val.name, "Rice");
}

#[test]
fn add_variant_errors() {
    let mut sess = loaded_session(2024, 3);
    sess.add_component(&s("Side"), &vec![], &vec![]).unwrap();
    let side = component_id_by_name(&sess, "Side");
    assert_eq!(sess.add_variant(side, &s("  ")), Err(ComponentCmdError::EmptyName));
    assert_eq!(sess.add_variant(side ^ 1, &s("Rice")), Err(ComponentCmdError::NotFound));
    let mut idle = Session::new();
    assert_eq!(idle.add_variant(side, &s("Rice")), Err(ComponentCmdError::DatasetNotActive));
}

#[test]
fn add_option_dedup_and_errors() {
    let mut sess = loaded_session(2024, 3);
    sess.add_component(&s("Drink"), &vec![], &vec![s("Large")]).unwrap();
    let drink = component_id_by_name(&sess, "Drink");
    assert!(sess.add_option(drink, &s(" Large ")).is_ok());
    let comps = sess.get_components().unwrap();
    assert_eq!(comps.entries[0].val.options.entries.len(), 1);
    assert_eq!(sess.add_option(drink, &s(" ")), Err(ComponentCmdError::EmptyName));
    assert_eq!(sess.add_option(drink ^ 1, &s("Small")), Err(ComponentCmdError::NotFound));
    assert!(sess.add_option(drink, &s("Small")).is_ok());
    let comps = sess.get_components().unwrap();
    assert_eq!(comps.entries[0].val.options.entries.len(), 2);
}

#[test]
fn meal_scenario_with_referential_integrity() {
    // the full scenario: dataset (2024, 3), component "Side" with
    // variants Rice and Fries, meal "Burger" using Side=Rice
    let mut sess = loaded_session(2024, 3);
    sess.add_component(&s("Side"), &vec![s("Rice"), s("Fries")], &vec![]).unwrap();
    let side = component_id_by_name(&sess, "Side");
    let rice = variant_id_by_name(&sess, side, "Rice");
    let fries = variant_id_by_name(&sess, side, "Fries");
    sess.add_meal(&s("Burger"), &s("BRG"), &vec![(side, Some(rice))]).unwrap();

    // Rice is actively used: StillInUse, variant stays and is unmarked
    assert_eq!(sess.remove_variant(side, rice), Err(ComponentCmdError::StillInUse));
    let comps = sess.get_components().unwrap();
    let rice_entry = comps.entries[0].val.variants.entries.iter().find(|e| e.id == rice);
    assert!(rice_entry.is_some());
    assert!(!rice_entry.unwrap().val.delete);

    // Fries is unused and not passively retained: removed outright
    assert_eq!(sess.remove_variant(side, fries), Ok(false));
    let comps = sess.get_components().unwrap();
    assert!(comps.entries[0].val.variants.entries.iter().all(|e| e.id != fries));
    assert_eq!(comps.entries[0].val.variants.entries.len(), 1);
}

#[test]
fn remove_variant_errors() {
    let mut sess = loaded_session(2024, 3);
    sess.add_component(&s("Side"), &vec![s("Rice")], &vec![]).unwrap();
    let side = component_id_by_name(&sess, "Side");
    let rice = variant_id_by_name(&sess, side, "Rice");
    assert_eq!(sess.remove_variant(side ^ 1, rice), Err(ComponentCmdError::NotFound));
    assert_eq!(sess.remove_variant(side, rice ^ 1), Err(ComponentCmdError::DoesNotExist));
    let mut idle = Session::new();
    assert_eq!(idle.remove_variant(side, rice), Err(ComponentCmdError::DatasetNotActive));
}

#[test]
fn tombstoned_variant_is_scheduled_until_purge() {
    // a dataset loaded from disk can carry a tombstoned variant
    let mut d = Data::new(2024, 3);
    let mut variants: IdMap<Variant> = IdMap::new();
    variants.insert(7, Variant { name: s("Old"), delete: true });
    variants.insert(8, Variant::new(s("New")));
    d.components.insert(
        1,
        Component::new(s("Side"), variants, IdMap::new()),
    );
    let payload = mealplan::codec_data::encode(&d);
    let mut sess = Session::new();
    assert_eq!(sess.install_open(2024, 3, &payload), Ok(false));

    // unused but passively retained: scheduled, still listed
    assert_eq!(sess.remove_variant(1, 7), Ok(true));
    let comps = sess.get_components().unwrap();
    let old = comps.entries[0].val.variants.entries.iter().find(|e| e.id == 7);
    assert!(old.is_some());
    assert!(old.unwrap().val.delete);

    // the purge at the next dataset-creation boundary drops it for good
    sess.purge_loaded().unwrap();
    let comps = sess.get_components().unwrap();
    assert!(comps.entries[0].val.variants.entries.iter().all(|e| e.id != 7));
    let still = comps.entries[0].val.variants.entries.iter().find(|e| e.id == 8);
    assert!(still.is_some());
}

#[test]
fn tombstoned_option_is_scheduled_until_purge() {
    let mut d = Data::new(2024, 3);
    let mut options: IdMap<OptionEntry> = IdMap::new();
    options.insert(9, OptionEntry { name: s("Stale"), delete: true });
    d.components.insert(2, Component::new(s("Drink"), IdMap::new(), options));
    let payload = mealplan::codec_data::encode(&d);
    let mut sess = Session::new();
    assert_eq!(sess.install_open(2024, 3, &payload), Ok(false));
    assert_eq!(sess.remove_option(2, 9), Ok(true));
    sess.purge_loaded().unwrap();
    let comps = sess.get_components().unwrap();
    assert!(comps.entries[0].val.options.entries.is_empty());
}

#[test]
fn remove_option_never_still_in_use() {
    let mut sess = loaded_session(2024, 3);
    sess.add_component(&s("Drink"), &vec![], &vec![s("Large")]).unwrap();
    let drink = component_id_by_name(&sess, "Drink");
    let large = {
        let comps = sess.get_components().unwrap();
        comps.entries[0].val.options.entries[0].id
    };
    // options are never actively used by meals: removal succeeds
    sess.add_meal(&s("Soda"), &s("SOD"), &vec![(drink, None)]).unwrap();
    assert_eq!(sess.remove_option(drink, large), Ok(false));
}

#[test]
fn add_meal_component_not_found_no_partial_insert() {
    let mut sess = loaded_session(2024, 3);
    sess.add_component(&s("Side"), &vec![s("Rice")], &vec![]).unwrap();
    let side = component_id_by_name(&sess, "Side");
    let rice = variant_id_by_name(&sess, side, "Rice");
    let meals_before = sess.data.as_ref().unwrap().meals.entries.len();
    assert_eq!(
        sess.add_meal(&s("Burger"), &s("BRG"), &vec![(side, Some(rice)), (side ^ 1, None)]),
        Err(MealCmdError::ComponentNotFound)
    );
    assert_eq!(sess.data.as_ref().unwrap().meals.entries.len(), meals_before);
}

#[test]
fn add_meal_variant_not_found_no_partial_insert() {
    let mut sess = loaded_session(2024, 3);
    sess.add_component(&s("Side"), &vec![s("Rice")], &vec![]).unwrap();
    let side = component_id_by_name(&sess, "Side");
    let rice = variant_id_by_name(&sess, side, "Rice");
    let meals_before = sess.data.as_ref().unwrap().meals.entries.len();
    assert_eq!(
        sess.add_meal(&s("Burger"), &s("BRG"), &vec![(side, Some(rice ^ 1))]),
        Err(MealCmdError::VariantNotFound)
    );
    assert_eq!(sess.data.as_ref().unwrap().meals.entries.len(), meals_before);
}

#[test]
fn add_meal_name_checks() {
    let mut sess = loaded_session(2024, 3);
    assert_eq!(sess.add_meal(&s("  "), &s("BRG"), &vec![]), Err(MealCmdError::EmptyName));
    assert_eq!(sess.add_meal(&s("Burger"), &s(" "), &vec![]), Err(MealCmdError::EmptyShort));
    let mut idle = Session::new();
    assert_eq!(
        idle.add_meal(&s("Burger"), &s("BRG"), &vec![]),
        Err(MealCmdError::DatasetNotActive)
    );
    assert!(sess.add_meal(&s(" Burger "), &s(" BRG "), &vec![]).is_ok());
    let meal = &sess.data.as_ref().unwrap().meals.entries[0].val;
    assert_eq!(meal.name, "Burger");
    assert_eq!(meal.short, "BRG");
}

#[test]
fn save_then_open_round_trips() {
    let mut sess = loaded_session(2024, 3);
    sess.add_component(&s("Side"), &vec![s("Rice"), s("Fries")], &vec![s("Hot")]).unwrap();
    let side = component_id_by_name(&sess, "Side");
    let rice = variant_id_by_name(&sess, side, "Rice");
    sess.add_meal(&s("Burger"), &s("BRG"), &vec![(side, Some(rice))]).unwrap();
    let before = sess.save_payload().unwrap();

    let mut reopened = Session::new();
    assert_eq!(reopened.install_open(2024, 3, &before), Ok(false));
    assert_eq!(reopened.get_state(), State::Loaded { year: 2024, month: 3 });
    // the reopened dataset saves to the identical payload
    let after = reopened.save_payload().unwrap();
    assert_eq!(before, after);
}

#[test]
fn empty_dataset_round_trips() {
    let mut sess = loaded_session(2024, 3);
    let payload = sess.save_payload().unwrap();
    sess.close();
    assert_eq!(sess.install_open(2024, 3, &payload), Ok(false));
    assert_eq!(sess.get_state(), State::Loaded { year: 2024, month: 3 });
    let comps = sess.get_components().unwrap();
    assert!(comps.entries.is_empty());
    assert!(sess.data.as_ref().unwrap().meals.entries.is_empty());
}

#[test]
fn open_mismatch_is_reported_but_does_not_block() {
    let sess0 = loaded_session(2024, 3);
    let payload = sess0.save_payload().unwrap();
    let mut sess = Session::new();
    // a file found under 2025/4 that declares (2024, 3) inside
    assert_eq!(sess.install_open(2025, 4, &payload), Ok(true));
    // the decoded period wins in the session state
    assert_eq!(sess.get_state(), State::Loaded { year: 2024, month: 3 });
}

#[test]
fn install_open_refuses_garbage() {
    let mut sess = Session::new();
    let garbage: Vec<char> = "not a dataset".chars().collect();
    assert_eq!(sess.install_open(2024, 3, &garbage), Err(GlobalCmdError::DecodeError));
    assert_eq!(sess.get_state(), State::Select);
}

#[test]
fn save_without_dataset_is_not_active() {
    let sess = Session::new();
    assert!(matches!(sess.save_payload(), Err(GlobalCmdError::DatasetNotActive)));
    let mut sess2 = Session::new();
    assert_eq!(sess2.purge_loaded(), Err(GlobalCmdError::DatasetNotActive));
}

#[test]
fn resolve_period_rolls_over_december() {
    assert_eq!(Session::resolve_period(2024, 5, false), (2024, 5));
    assert_eq!(Session::resolve_period(2024, 5, true), (2024, 6));
    assert_eq!(Session::resolve_period(2024, 12, true), (2025, 1));
    assert_eq!(Session::resolve_period(2024, 12, false), (2024, 12));
}

#[test]
fn command_layer_maps_results() {
    let mut sess = loaded_session(2024, 3);
    let r = ComponentCmd::AddComponent {
        name: s("Side"),
        variants: vec![s("Rice")],
        options: vec![],
    }
    .execute(&mut sess);
    assert!(matches!(r, Ok(ComponentCmdSuccess::AddedComponent)));
    let side = component_id_by_name(&sess, "Side");
    let rice = variant_id_by_name(&sess, side, "Rice");
    let r = ComponentCmd::GetComponents.execute(&mut sess);
    match r {
        Ok(ComponentCmdSuccess::GotComponents { data }) => {
            assert_eq!(data.entries.len(), 1);
        },
        _ => panic!("expected components"),
    }
    let r = ComponentCmd::RemoveVariant { component: side, variant: rice }.execute(&mut sess);
    assert!(matches!(r, Ok(ComponentCmdSuccess::RemovedVariant { scheduled: false })));
    let r = ComponentCmd::RemoveVariant { component: side, variant: rice }.execute(&mut sess);
    assert!(matches!(r, Err(ComponentCmdError::DoesNotExist)));
}

#[test]
fn meal_new_keeps_last_link_per_component() {
    let links = vec![(5u128, None::<u128>), (5u128, Some(77u128))];
    let meal = Meal::new(s("Stew"), s("STW"), &links);
    assert_eq!(meal.components.entries.len(), 1);
    assert_eq!(meal.components.entries[0].id, 5);
    assert_eq!(meal.components.entries[0].val.variant, Some(77));
    let link = MealComponent::new(Some(3));
    assert_eq!(link.variant, Some(3));
    assert!(!link.delete);
}

#[test]
fn prepare_new_resolves_a_valid_period() {
    // with nothing loaded and an empty base directory, creation is
    // offered for the clock's current or following month
    let sess = Session::new();
    match sess.prepare_new("/nonexistent-mealplan-base", false) {
        Ok((_, month)) => assert!((1..=12).contains(&month)),
        Err(e) => panic!("unexpected error: {:?}", e),
    }
    match sess.prepare_new("/nonexistent-mealplan-base", true) {
        Ok((_, month)) => assert!((1..=12).contains(&month)),
        Err(e) => panic!("unexpected error: {:?}", e),
    }
}

#[test]
fn fresh_identifiers_are_distinct_in_practice() {
    let mut sess = loaded_session(2024, 3);
    sess.add_component(&s("A"), &vec![s("x"), s("y"), s("z")], &vec![]).unwrap();
    sess.add_component(&s("B"), &vec![], &vec![]).unwrap();
    let comps = sess.get_components().unwrap();
    assert_eq!(comps.entries.len(), 2);
    assert_ne!(comps.entries[0].id, comps.entries[1].id);
    let a = comps.entries.iter().find(|e| e.val.name == "A").unwrap();
    let mut ids: Vec<u128> = a.val.variants.entries.iter().map(|e| e.id).collect();
    ids.sort();
    ids.dedup();
    assert_eq!(ids.len(), 3);
}
