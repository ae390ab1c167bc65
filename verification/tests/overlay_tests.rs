use achievement_overlay::achievement::Achievement;
use achievement_overlay::hotkey::HotkeySignal;
use achievement_overlay::nav::NavEvent;
use achievement_overlay::overlay::OverlayState;
use achievement_overlay::store::AchievementStore;

#[test]
fn consume_reads_and_resets_the_flag() {
    let mut signal = HotkeySignal::new();
    signal.flip();
    assert!(signal.consume());
    assert!(!signal.consume());
}

#[test]
fn paired_presses_cancel_out() {
    let mut signal = HotkeySignal::new();
    signal.flip();
    signal.flip();
    assert!(!signal.consume());
}

#[test]
fn odd_presses_while_hidden_show_the_overlay() {
    let mut signal = HotkeySignal::new();
    let mut overlay = OverlayState::new();
    // One press hides the initially visible window.
    signal.flip();
    overlay.on_frame_signal(&mut signal);
    assert!(!overlay.visible);
    // Three presses between frames leave the flag set: the window shows.
    for _ in 0..3 {
        signal.flip();
    }
    overlay.on_frame_signal(&mut signal);
    assert!(overlay.visible);
    // Two presses between frames cancel out: the window stays visible.
    for _ in 0..2 {
        signal.flip();
    }
    overlay.on_frame_signal(&mut signal);
    assert!(overlay.visible);
}

#[test]
fn becoming_visible_resets_navigation() {
    let catalog = vec![
        Achievement { id: 1, name: "Alpha".to_string(), related: vec![] },
        Achievement { id: 2, name: "Beta".to_string(), related: vec![] },
    ];
    let mut store = AchievementStore::from_catalog(catalog).unwrap();
    let mut signal = HotkeySignal::new();
    let mut overlay = OverlayState::new();
    overlay.nav.handle_event(&mut store, NavEvent::Text("beta".to_string()));
    overlay.nav.set_only_incomplete(&store, true);
    assert_eq!(overlay.nav.search, "beta");
    // Hide, then show again: the navigation state comes back fresh.
    signal.flip();
    overlay.on_frame_signal(&mut signal);
    assert!(!overlay.visible);
    assert_eq!(overlay.nav.search, "beta");
    signal.flip();
    overlay.on_frame_signal(&mut signal);
    assert!(overlay.visible);
    assert_eq!(overlay.nav.search, "");
    assert_eq!(overlay.nav.cursor, 0);
    assert!(!overlay.nav.only_incomplete);
}

#[test]
fn quiet_frame_changes_nothing() {
    let mut signal = HotkeySignal::new();
    let mut overlay = OverlayState::new();
    overlay.on_frame_signal(&mut signal);
    assert!(overlay.visible);
    assert!(!overlay.authenticated);
}

#[test]
fn login_success_is_sticky() {
    let mut overlay = OverlayState::new();
    overlay.record_login(false);
    assert!(!overlay.authenticated);
    overlay.record_login(true);
    assert!(overlay.authenticated);
    overlay.record_login(false);
    assert!(overlay.authenticated);
}
