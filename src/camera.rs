use vstd::prelude::*;

verus! {

/// Whether mouse motion steers the camera. While it does, the window hides
/// the cursor; the window itself is told by whoever owns it.
pub struct MouseLook {
    enabled: bool,
}

impl MouseLook {
    pub closed spec fn is_enabled(&self) -> bool {
        self.enabled
    }

    pub fn new(enabled: bool) -> (r: Self)
        ensures
            r.is_enabled() == enabled,
    {
        MouseLook { enabled }
    }

    pub fn set(&mut self, value: bool)
        ensures
            final(self).is_enabled() == value,
    {
        self.enabled = value;
    }

    /// Whether the cursor should be shown: exactly when mouse look is off.
    pub fn cursor_visible(&self) -> (r: bool)
        ensures
            r == !self.is_enabled(),
    {
        !self.enabled
    }

    pub fn enabled(&self) -> (r: bool)
        ensures
            r == self.is_enabled(),
    {
        self.enabled
    }
}

} // verus!
