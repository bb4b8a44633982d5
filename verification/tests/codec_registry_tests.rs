use mealplan::codec_data::{decode, encode};
use mealplan::idmap::IdMap;
use mealplan::model::{Component, Data, Variant};
use mealplan::registry::{dataset_file_name, dataset_tmp_name, AvailableDatasets};

fn s(x: &str) -> String {
    x.to_string()
}

fn chars(x: &str) -> Vec<char> {
    x.chars().collect()
}

#[test]
fn empty_dataset_encodes_exactly() {
    let d = Data::new(2024, 3);
    assert_eq!(encode(&d), chars("mow1\n2024\n3\n0\n0\n"));
}

#[test]
fn negative_year_encodes_with_sign() {
    let d = Data::new(-44, 12);
    assert_eq!(encode(&d), chars("mow1\n-44\n12\n0\n0\n"));
}

#[test]
fn one_component_encodes_exactly() {
    let mut d = Data::new(2024, 3);
    let mut variants: IdMap<Variant> = IdMap::new();
    variants.insert(7, Variant::new(s("Rice")));
    d.components.insert(1, Component::new(s("Side"), variants, IdMap::new()));
    assert_eq!(
        encode(&d),
        chars("mow1\n2024\n3\n1\n1\n4\nSide\n0\n1\n7\n4\nRice\n0\n0\n0\n")
    );
}

#[test]
fn decode_inverts_encode() {
    let mut d = Data::new(2024, 3);
    let mut variants: IdMap<Variant> = IdMap::new();
    variants.insert(7, Variant::new(s("Ri\nce")));
    variants.insert(9, Variant { name: s("Old"), delete: true });
    d.components.insert(1, Component::new(s("Side"), variants, IdMap::new()));
    let payload = encode(&d);
    let back = decode(&payload).unwrap();
    assert_eq!(back.year, 2024);
    assert_eq!(back.month, 3);
    assert_eq!(back.components.entries.len(), 1);
    let c = &back.components.entries[0];
    assert_eq!(c.id, 1);
    assert_eq!(c.val.name, "Side");
    assert_eq!(c.val.variants.entries.len(), 2);
    assert_eq!(c.val.variants.entries[0].id, 7);
    assert_eq!(c.val.variants.entries[0].val.name, "Ri\nce");
    assert!(!c.val.variants.entries[0].val.delete);
    assert_eq!(c.val.variants.entries[1].id, 9);
    assert!(c.val.variants.entries[1].val.delete);
    // and encoding the decoded dataset is the identity on the payload
    assert_eq!(encode(&back), payload);
}

#[test]
fn decode_rejects_malformed_inputs() {
    assert!(decode(&chars("")).is_none());
    assert!(decode(&chars("mow1\n")).is_none());
    assert!(decode(&chars("rust\n2024\n3\n0\n0\n")).is_none());
    assert!(decode(&chars("mow1\n2024\n13x\n0\n0\n")).is_none());
    // trailing bytes after a complete dataset are refused
    assert!(decode(&chars("mow1\n2024\n3\n0\n0\nextra")).is_none());
    // a number too large for the month
    assert!(decode(&chars("mow1\n2024\n5000000000\n0\n0\n")).is_none());
}

#[test]
fn decode_rejects_duplicate_identifiers() {
    // two components under the same identifier
    let text = "mow1\n2024\n3\n2\n5\n1\nA\n0\n0\n0\n5\n1\nB\n0\n0\n0\n0\n";
    assert!(decode(&chars(text)).is_none());
    // the same text with distinct identifiers is accepted
    let ok = "mow1\n2024\n3\n2\n5\n1\nA\n0\n0\n0\n6\n1\nB\n0\n0\n0\n0\n";
    assert!(decode(&chars(ok)).is_some());
}

#[test]
fn dataset_paths_are_canonical() {
    assert_eq!(dataset_file_name("/data", 2024, 3), "/data/2024/3.ron");
    assert_eq!(dataset_tmp_name("/data", 2024, 3), "/data/2024/3.ron.tmp");
    assert_eq!(dataset_file_name("/data", -44, 12), "/data/-44/12.ron");
    assert_eq!(dataset_file_name("b", 0, 1), "b/0/1.ron");
}

#[test]
fn from_scan_groups_and_flags() {
    // present: 2023-11, 2023-12, 2024-02; today is 2024-03
    let present = vec![(2023, 11), (2023, 12), (2024, 2)];
    let r = AvailableDatasets::from_scan(&present, 2024, 3);
    assert_eq!(r.data.len(), 2);
    assert_eq!(r.data[0].year, 2023);
    assert_eq!(r.data[0].months, vec![11, 12]);
    assert_eq!(r.data[1].year, 2024);
    assert_eq!(r.data[1].months, vec![2]);
    // today's own period is absent: no current year or month reported,
    // creation possible
    assert_eq!(r.current_year, None);
    assert_eq!(r.current_month, None);
    assert!(r.can_create_now);
    assert!(r.can_create_next);
}

#[test]
fn from_scan_current_period_present() {
    let present = vec![(2024, 3), (2024, 4)];
    let r = AvailableDatasets::from_scan(&present, 2024, 3);
    assert_eq!(r.current_year, Some(2024));
    assert_eq!(r.current_month, Some(3));
    assert!(!r.can_create_now);
    assert!(!r.can_create_next);
}

#[test]
fn from_scan_december_rollover() {
    let present = vec![(2025, 1)];
    let r = AvailableDatasets::from_scan(&present, 2024, 12);
    assert_eq!(r.current_year, None);
    assert_eq!(r.current_month, None);
    assert!(r.can_create_now);
    // the next period is January of the following year, and it exists
    assert!(!r.can_create_next);
}

#[test]
fn from_scan_empty() {
    let present: Vec<(i32, u32)> = vec![];
    let r = AvailableDatasets::from_scan(&present, 2024, 6);
    assert!(r.data.is_empty());
    assert_eq!(r.current_year, None);
    assert_eq!(r.current_month, None);
    assert!(r.can_create_now);
    assert!(r.can_create_next);
}
