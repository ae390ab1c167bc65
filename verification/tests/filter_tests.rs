use achievement_overlay::achievement::Achievement;
use achievement_overlay::store::AchievementStore;

fn named_catalog() -> Vec<Achievement> {
    vec![
        Achievement { id: 1, name: "Alpha".to_string(), related: vec![2] },
        Achievement { id: 2, name: "Big Win".to_string(), related: vec![] },
        Achievement { id: 3, name: "Crown".to_string(), related: vec![] },
    ]
}

#[test]
fn filter_empty_search_shows_all_in_catalog_order() {
    let store = AchievementStore::from_catalog(named_catalog()).unwrap();
    let visible = store.filtered_ids(&String::new(), false);
    assert_eq!(visible, vec![1, 2, 3]);
}

#[test]
fn filter_search_matches_substring_of_name() {
    let store = AchievementStore::from_catalog(named_catalog()).unwrap();
    let visible = store.filtered_ids(&"row".to_string(), false);
    assert_eq!(visible, vec![3]);
}

#[test]
fn filter_search_is_case_insensitive_both_ways() {
    let store = AchievementStore::from_catalog(named_catalog()).unwrap();
    // Upper-case query against a mixed-case name.
    let visible = store.filtered_ids(&"G W".to_string(), false);
    assert_eq!(visible, vec![2]);
    // Lower-case query folding the names down.
    let visible = store.filtered_ids(&"alpha".to_string(), false);
    assert_eq!(visible, vec![1]);
}

#[test]
fn filter_only_incomplete_excludes_completed_and_disabled() {
    let mut store = AchievementStore::from_catalog(named_catalog()).unwrap();
    // Completing 1 disables its related peer 2.
    store.toggle(1);
    // 2's name matches the search, but it is disabled and stays hidden.
    let visible = store.filtered_ids(&"b".to_string(), true);
    assert_eq!(visible, Vec::<i64>::new());
    // Without only-incomplete the disabled match is still listed.
    let visible = store.filtered_ids(&"b".to_string(), false);
    assert_eq!(visible, vec![2]);
    // With only-incomplete and no search, only the untouched entry remains.
    let visible = store.filtered_ids(&String::new(), true);
    assert_eq!(visible, vec![3]);
}

#[test]
fn filter_same_inputs_same_view() {
    let mut store = AchievementStore::from_catalog(named_catalog()).unwrap();
    store.toggle(2);
    let first = store.filtered_ids(&"n".to_string(), true);
    let second = store.filtered_ids(&"n".to_string(), true);
    assert_eq!(first, second);
    assert_eq!(first, vec![3]);
}
