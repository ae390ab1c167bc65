//! The per-frame controller state: window visibility driven by the hotkey
//! signal, the session flag, and the navigation state that visibility
//! transitions reset.

use vstd::prelude::*;

use crate::hotkey::{after_flips, lemma_flip_parity, HotkeySignal};
use crate::nav::NavigationState;

verus! {

/// The overlay as the UI loop sees it each frame: whether the window is
/// shown, whether a session exists, and the navigation state. While the
/// window is hidden the caller processes no input; once a session is open it
/// stays open for the life of the process.
pub struct OverlayState {
    pub visible: bool,
    pub authenticated: bool,
    pub nav: NavigationState,
}

impl OverlayState {
    /// The window starts shown, with no session and fresh navigation.
    pub fn new() -> (s: OverlayState)
        ensures
            s.visible,
            !s.authenticated,
            s.nav.is_reset(),
    {
        OverlayState { visible: true, authenticated: false, nav: NavigationState::new() }
    }

    /// The per-frame read of the hotkey signal. A set flag flips the
    /// window's visibility, and when the flip shows the window the
    /// navigation state is reset; a clear flag changes nothing. The flag is
    /// consumed either way.
    pub fn on_frame_signal(&mut self, signal: &mut HotkeySignal)
        ensures
            !final(signal).is_signaled(),
            final(self).authenticated == old(self).authenticated,
            old(signal).is_signaled() ==> final(self).visible == !old(self).visible,
            !old(signal).is_signaled() ==> *final(self) == *old(self),
            old(signal).is_signaled() && !old(self).visible ==> final(self).nav.is_reset(),
            old(signal).is_signaled() && old(self).visible ==> final(self).nav == old(self).nav,
    {
        let was = signal.consume();
        if was {
            self.visible = !self.visible;
            if self.visible {
                self.nav.reset();
            }
        }
    }

    /// Records a login attempt's outcome: success opens the session, failure
    /// leaves the user on the login form. A session never closes.
    pub fn record_login(&mut self, success: bool)
        ensures
            final(self).authenticated == (old(self).authenticated || success),
            final(self).visible == old(self).visible,
            final(self).nav == old(self).nav,
    {
        if success {
            self.authenticated = true;
        }
    }
}

/// Visibility edge law: `n` hotkey presses accumulated on a consumed (clear)
/// flag leave it set exactly when `n` is odd. Together with
/// [`OverlayState::on_frame_signal`], `n` presses while the overlay sits
/// hidden make it visible on the next frame if and only if `n` is odd, and
/// becoming visible resets the navigation state.
pub proof fn lemma_hidden_presses_show(n: nat)
    ensures
        after_flips(false, n) == (n % 2 == 1),
{
    lemma_flip_parity(false, n);
}

} // verus!
