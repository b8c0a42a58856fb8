//! What the tray and the capture share.
use crate::text;
use vstd::prelude::*;

verus! {

/// The device that is captured from, and whether the capture has to begin anew.
pub struct CaptureCtl {
    /// The device that was chosen; none for the default one.
    pub selected_device: Option<String>,
    pub restart: bool,
}

impl CaptureCtl {
    /// With a device chosen from the start, where there is one.
    pub fn new(initial: Option<String>) -> (r: Self)
        ensures
            text::opt_view(r.selected_device) == text::opt_view(initial),
            !r.restart,
    {
        CaptureCtl { selected_device: initial, restart: false }
    }

    /// Chooses a device, or the default one, and has the capture begin anew.
    pub fn choose_device(&mut self, name: Option<&str>)
        ensures
            text::opt_view(final(self).selected_device) == text::opt_str(name),
            final(self).restart,
    {
        self.selected_device = match name {
            Some(n) => Some(text::owned(n)),
            None => None,
        };
        self.restart = true;
    }

    /// The device that the next capture asks for. Taking it settles the wish to begin anew.
    pub fn take_selection(&mut self) -> (r: Option<String>)
        ensures
            text::opt_view(r) == text::opt_view(old(self).selected_device),
            text::opt_view(final(self).selected_device) == text::opt_view(
                old(self).selected_device,
            ),
            !final(self).restart,
    {
        self.restart = false;
        match &self.selected_device {
            Some(n) => Some(text::owned(n.as_str())),
            None => None,
        }
    }
}

} // verus!
