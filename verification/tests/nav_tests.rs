use achievement_overlay::achievement::Achievement;
use achievement_overlay::nav::{NavEvent, NavigationState};
use achievement_overlay::store::{AchievementStore, SyncAction};

fn nav_catalog() -> AchievementStore {
    let catalog = vec![
        Achievement { id: 1, name: "Alpha".to_string(), related: vec![2] },
        Achievement { id: 2, name: "Big Win".to_string(), related: vec![] },
        Achievement { id: 3, name: "Crown".to_string(), related: vec![] },
    ];
    AchievementStore::from_catalog(catalog).unwrap()
}

#[test]
fn text_input_appends_and_resets_cursor() {
    let mut store = nav_catalog();
    let mut nav = NavigationState::new();
    nav.handle_event(&mut store, NavEvent::Next);
    assert_eq!(nav.cursor, 1);
    let act = nav.handle_event(&mut store, NavEvent::Text("ab".to_string()));
    assert_eq!(act, None);
    assert_eq!(nav.search, "ab");
    assert_eq!(nav.cursor, 0);
    nav.handle_event(&mut store, NavEvent::Text("c".to_string()));
    assert_eq!(nav.search, "abc");
}

#[test]
fn backspace_removes_last_character() {
    let mut store = nav_catalog();
    let mut nav = NavigationState::new();
    nav.handle_event(&mut store, NavEvent::Text("ab".to_string()));
    let act = nav.handle_event(&mut store, NavEvent::Backspace);
    assert_eq!(act, None);
    assert_eq!(nav.search, "a");
    assert_eq!(nav.cursor, 0);
}

#[test]
fn backspace_on_empty_search_is_a_noop() {
    let mut store = nav_catalog();
    let mut nav = NavigationState::new();
    let act = nav.handle_event(&mut store, NavEvent::Backspace);
    assert_eq!(act, None);
    assert_eq!(nav.search, "");
}

#[test]
fn next_and_previous_clamp_to_view() {
    let mut store = nav_catalog();
    let mut nav = NavigationState::new();
    for _ in 0..5 {
        nav.handle_event(&mut store, NavEvent::Next);
        assert!(nav.cursor <= 2);
    }
    assert_eq!(nav.cursor, 2);
    for _ in 0..5 {
        nav.handle_event(&mut store, NavEvent::Previous);
    }
    assert_eq!(nav.cursor, 0);
}

#[test]
fn next_on_empty_view_stays_at_zero() {
    let mut store = nav_catalog();
    let mut nav = NavigationState::new();
    nav.handle_event(&mut store, NavEvent::Text("no such name".to_string()));
    let act = nav.handle_event(&mut store, NavEvent::Next);
    assert_eq!(act, None);
    assert_eq!(nav.cursor, 0);
}

#[test]
fn confirm_toggles_achievement_at_cursor() {
    let mut store = nav_catalog();
    let mut nav = NavigationState::new();
    nav.handle_event(&mut store, NavEvent::Text("crown".to_string()));
    let act = nav.handle_event(&mut store, NavEvent::Confirm);
    assert_eq!(act, Some(SyncAction::MarkComplete(3)));
    assert!(store.state_at(2).completed);
}

#[test]
fn confirm_on_empty_view_is_a_noop() {
    let mut store = nav_catalog();
    let mut nav = NavigationState::new();
    nav.handle_event(&mut store, NavEvent::Text("zzz".to_string()));
    let act = nav.handle_event(&mut store, NavEvent::Confirm);
    assert_eq!(act, None);
    for i in 0..3 {
        assert!(!store.state_at(i).completed);
    }
}

#[test]
fn click_toggles_row_independent_of_cursor() {
    let mut store = nav_catalog();
    let mut nav = NavigationState::new();
    assert_eq!(nav.cursor, 0);
    let act = nav.handle_event(&mut store, NavEvent::Click(2));
    assert_eq!(act, Some(SyncAction::MarkComplete(3)));
    assert!(store.state_at(2).completed);
    assert_eq!(nav.cursor, 0);
}

#[test]
fn click_outside_view_is_a_noop() {
    let mut store = nav_catalog();
    let mut nav = NavigationState::new();
    let act = nav.handle_event(&mut store, NavEvent::Click(7));
    assert_eq!(act, None);
    for i in 0..3 {
        assert!(!store.state_at(i).completed);
    }
}

#[test]
fn hover_moves_cursor_within_view() {
    let mut store = nav_catalog();
    let mut nav = NavigationState::new();
    nav.handle_event(&mut store, NavEvent::Hover(1));
    assert_eq!(nav.cursor, 1);
    nav.handle_event(&mut store, NavEvent::Hover(99));
    assert_eq!(nav.cursor, 1);
}

#[test]
fn set_only_incomplete_reclamps_cursor() {
    let mut store = nav_catalog();
    let mut nav = NavigationState::new();
    // Complete 2 and 3 so the incomplete view shrinks to just achievement 1.
    store.toggle(2);
    store.toggle(3);
    nav.handle_event(&mut store, NavEvent::Next);
    nav.handle_event(&mut store, NavEvent::Next);
    assert_eq!(nav.cursor, 2);
    nav.set_only_incomplete(&store, true);
    assert!(nav.only_incomplete);
    assert_eq!(nav.cursor, 0);
}

#[test]
fn toggle_twice_through_confirm_restores_state() {
    let mut store = nav_catalog();
    let mut nav = NavigationState::new();
    nav.handle_event(&mut store, NavEvent::Text("alpha".to_string()));
    let first = nav.handle_event(&mut store, NavEvent::Confirm);
    assert_eq!(first, Some(SyncAction::MarkComplete(1)));
    let second = nav.handle_event(&mut store, NavEvent::Confirm);
    assert_eq!(second, Some(SyncAction::MarkIncomplete(1)));
    let st1 = store.state_at(0);
    assert!(!st1.completed);
    assert!(!st1.disabled);
}
