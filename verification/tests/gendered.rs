use name_popularity::{Gender, GenderedData, NameData};

#[test]
fn get_addresses_each_slot() {
    let pair = GenderedData { male: 1u32, female: 2u32 };
    assert_eq!(*pair.get(Gender::Male), 1);
    assert_eq!(*pair.get(Gender::Female), 2);
}

#[test]
fn insert_leaves_other_slot_alone() {
    let mut pair = GenderedData { male: 1u32, female: 2u32 };
    pair.insert(Gender::Male, 10);
    assert_eq!(pair.male, 10);
    assert_eq!(pair.female, 2);
    pair.insert(Gender::Female, 20);
    assert_eq!(pair.male, 10);
    assert_eq!(pair.female, 20);
}

#[test]
fn get_mut_writes_through() {
    let mut pair = GenderedData { male: 1u32, female: 2u32 };
    *pair.get_mut(Gender::Female) = 7;
    assert_eq!(pair.male, 1);
    assert_eq!(pair.female, 7);
}

#[test]
fn iter_is_male_then_female() {
    let pair = GenderedData { male: 'a', female: 'b' };
    let items = pair.iter();
    assert_eq!(items.len(), 2);
    assert_eq!(items[0].0, Gender::Male);
    assert_eq!(*items[0].1, 'a');
    assert_eq!(items[1].0, Gender::Female);
    assert_eq!(*items[1].1, 'b');
}

#[test]
fn values_in_slot_order() {
    let pair = GenderedData { male: 5u32, female: 9u32 };
    let values = pair.values();
    assert_eq!(*values[0], 5);
    assert_eq!(*values[1], 9);
}

#[test]
fn map_applies_per_slot() {
    let pair = GenderedData { male: 2u32, female: 3u32 };
    let doubled = pair.map(|_, v| v.wrapping_mul(2));
    assert_eq!(doubled.male, 4);
    assert_eq!(doubled.female, 6);
}

#[test]
fn map_sees_the_gender_tag() {
    let pair = GenderedData { male: 0u32, female: 0u32 };
    let tagged = pair.map(|g, _| g);
    assert_eq!(tagged.male, Gender::Male);
    assert_eq!(tagged.female, Gender::Female);
}

#[test]
fn as_ref_borrows_both_slots() {
    let pair = GenderedData { male: "m".to_string(), female: "f".to_string() };
    let refs = pair.as_ref();
    assert_eq!(refs.male, "m");
    assert_eq!(refs.female, "f");
}

#[test]
fn default_name_data_slots_are_distinct() {
    let pair: GenderedData<NameData> = Default::default();
    assert_ne!(pair.male, pair.female);
    assert_eq!(pair.male.gender, Gender::Male);
    assert_eq!(pair.female.gender, Gender::Female);
    assert_eq!(pair.male.count, 0);
    assert_eq!(pair.male.rank, None);
    assert_eq!(pair.female.count, 0);
    assert_eq!(pair.female.rank, None);
}
