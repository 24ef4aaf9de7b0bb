pub mod asset_management;
pub mod rendering;
pub mod window;
pub mod app_handler;

use vstd::prelude::*;

verus! {

#[verifier::external_type_specification]
#[verifier::external_body]
pub struct ExFeatures(wgpu::Features);

/// Relies on wgpu's `Features::empty`: the set with no optional GPU feature.
#[verifier::external_body]
fn no_features() -> (r: wgpu::Features) {
    wgpu::Features::empty()
}

/// How frames are paced and which GPU features the device is asked for.
#[derive(Debug, Clone, Copy)]
pub struct RenderSettings {
    /// Presentation waits for the display's refresh.
    pub vsync: bool,
    /// A cap in frames per second, honoured only when vsync is off.
    pub max_framerate: Option<u32>,
    /// GPU features requested when the device is created.
    pub required_features: wgpu::Features,
}

impl Default for RenderSettings {
    /// Vsync on, no cap, no optional feature.
    fn default() -> (r: RenderSettings)
        ensures
            r.vsync,
            r.max_framerate.is_none(),
    {
        RenderSettings { vsync: true, max_framerate: None, required_features: no_features() }
    }
}

/// A token that records whether the event loop has been asked to quit.
pub struct QuitToken {
    requested: bool,
}

impl QuitToken {
    pub closed spec fn view(&self) -> bool {
        self.requested
    }

    /// A token on which no quit has been requested.
    pub fn new() -> (r: QuitToken)
        ensures
            !r@,
    {
        QuitToken { requested: false }
    }

    pub fn is_requested(&self) -> (r: bool)
        ensures
            r == self@,
    {
        self.requested
    }
}

/// Asks the event loop to quit, closing all windows.
pub fn request_quit(token: &mut QuitToken)
    ensures
        final(token)@,
{
    token.requested = true;
}

} // verus!
