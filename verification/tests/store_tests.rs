use achievement_overlay::achievement::Achievement;
use achievement_overlay::store::{AchievementStore, CatalogError, SyncAction};

fn sample_catalog() -> Vec<Achievement> {
    vec![
        Achievement { id: 1, name: "A".to_string(), related: vec![2] },
        Achievement { id: 2, name: "B".to_string(), related: vec![] },
        Achievement { id: 3, name: "C".to_string(), related: vec![] },
    ]
}

#[test]
fn from_catalog_accepts_unique_ids() {
    let store = AchievementStore::from_catalog(sample_catalog()).unwrap();
    assert_eq!(store.len(), 3);
    assert_eq!(store.id_at(0), 1);
    assert_eq!(store.id_at(1), 2);
    assert_eq!(store.id_at(2), 3);
    assert_eq!(store.name_at(1), "B");
    for i in 0..3 {
        let st = store.state_at(i);
        assert!(!st.completed);
        assert!(!st.disabled);
    }
    assert_eq!(store.lookup(2), Some(1));
    assert_eq!(store.lookup(42), None);
}

#[test]
fn from_catalog_rejects_duplicate_id() {
    let catalog = vec![
        Achievement { id: 7, name: "first".to_string(), related: vec![] },
        Achievement { id: 7, name: "second".to_string(), related: vec![] },
    ];
    let r = AchievementStore::from_catalog(catalog);
    assert!(matches!(r, Err(CatalogError::DuplicateId)));
}

#[test]
fn from_catalog_drops_self_reference() {
    let catalog = vec![
        Achievement { id: 1, name: "loop".to_string(), related: vec![1, 2] },
        Achievement { id: 2, name: "peer".to_string(), related: vec![] },
    ];
    let mut store = AchievementStore::from_catalog(catalog).unwrap();
    let act = store.toggle(1);
    assert_eq!(act, SyncAction::MarkComplete(1));
    let st1 = store.state_at(0);
    assert!(st1.completed);
    assert!(!st1.disabled);
    let st2 = store.state_at(1);
    assert!(!st2.completed);
    assert!(st2.disabled);
}

#[test]
fn toggle_cascades_to_related() {
    let mut store = AchievementStore::from_catalog(sample_catalog()).unwrap();
    let act = store.toggle(1);
    assert_eq!(act, SyncAction::MarkComplete(1));
    let st1 = store.state_at(0);
    assert!(st1.completed);
    assert!(!st1.disabled);
    let st2 = store.state_at(1);
    assert!(!st2.completed);
    assert!(st2.disabled);
    let st3 = store.state_at(2);
    assert!(!st3.completed);
    assert!(!st3.disabled);
}

#[test]
fn toggle_off_keeps_peer_disabled() {
    let mut store = AchievementStore::from_catalog(sample_catalog()).unwrap();
    store.toggle(1);
    let act = store.toggle(1);
    assert_eq!(act, SyncAction::MarkIncomplete(1));
    let st1 = store.state_at(0);
    assert!(!st1.completed);
    assert!(!st1.disabled);
    let st2 = store.state_at(1);
    assert!(!st2.completed);
    assert!(st2.disabled);
}

#[test]
fn toggle_round_trip_restores_entry() {
    let mut store = AchievementStore::from_catalog(sample_catalog()).unwrap();
    let before = store.state_at(2);
    store.toggle(3);
    store.toggle(3);
    assert_eq!(store.state_at(2), before);
}

#[test]
fn toggle_ignores_unknown_related() {
    let catalog = vec![
        Achievement { id: 1, name: "solo".to_string(), related: vec![99] },
        Achievement { id: 2, name: "other".to_string(), related: vec![] },
    ];
    let mut store = AchievementStore::from_catalog(catalog).unwrap();
    let act = store.toggle(1);
    assert_eq!(act, SyncAction::MarkComplete(1));
    assert!(store.state_at(0).completed);
    let st2 = store.state_at(1);
    assert!(!st2.completed);
    assert!(!st2.disabled);
}

#[test]
fn toggle_reenables_disabled_entry() {
    let mut store = AchievementStore::from_catalog(sample_catalog()).unwrap();
    store.toggle(1);
    assert!(store.state_at(1).disabled);
    let act = store.toggle(2);
    assert_eq!(act, SyncAction::MarkComplete(2));
    let st2 = store.state_at(1);
    assert!(st2.completed);
    assert!(!st2.disabled);
}

#[test]
fn apply_completed_marks_and_disables() {
    let mut store = AchievementStore::from_catalog(sample_catalog()).unwrap();
    store.apply_completed(&vec![1, 3]);
    let st1 = store.state_at(0);
    assert!(st1.completed);
    assert!(!st1.disabled);
    let st2 = store.state_at(1);
    assert!(!st2.completed);
    assert!(st2.disabled);
    let st3 = store.state_at(2);
    assert!(st3.completed);
    assert!(!st3.disabled);
}

#[test]
fn apply_completed_ignores_unknown_ids() {
    let mut store = AchievementStore::from_catalog(sample_catalog()).unwrap();
    store.apply_completed(&vec![42, 2]);
    let st1 = store.state_at(0);
    assert!(!st1.completed);
    assert!(!st1.disabled);
    let st2 = store.state_at(1);
    assert!(st2.completed);
    assert!(!st2.disabled);
}
