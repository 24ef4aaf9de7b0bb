use vstd::prelude::*;

verus! {

#[verifier::external_type_specification]
#[verifier::external_body]
pub struct ExTextureFormat(wgpu::TextureFormat);

/// What `TextureFormat::add_srgb_suffix` returns for a format.
pub uninterp spec fn srgb_form(f: wgpu::TextureFormat) -> wgpu::TextureFormat;

/// What `TextureFormat::remove_srgb_suffix` returns for a format.
pub uninterp spec fn linear_form(f: wgpu::TextureFormat) -> wgpu::TextureFormat;

/// Relies on wgpu's `TextureFormat::add_srgb_suffix`: the sRGB variant of the
/// format, or the format itself where it has none.
#[verifier::external_body]
fn add_srgb_suffix(f: wgpu::TextureFormat) -> (r: wgpu::TextureFormat)
    ensures
        r == srgb_form(f),
{
    f.add_srgb_suffix()
}

/// Relies on wgpu's `TextureFormat::remove_srgb_suffix`: the variant of the
/// format without sRGB encoding, or the format itself where it has none.
#[verifier::external_body]
fn remove_srgb_suffix(f: wgpu::TextureFormat) -> (r: wgpu::TextureFormat)
    ensures
        r == linear_form(f),
{
    f.remove_srgb_suffix()
}

/// How the surface paces presentation.
#[derive(Clone, Copy, Debug, PartialEq, Eq, Structural)]
pub enum PresentMode {
    /// Presentation waits for the display's refresh.
    AutoVsync,
    /// Presentation does not wait.
    AutoNoVsync,
}

pub open spec fn present_mode_for(vsync: bool) -> PresentMode {
    if vsync {
        PresentMode::AutoVsync
    } else {
        PresentMode::AutoNoVsync
    }
}

/// A surface dimension as configured: at least 1.
pub open spec fn clamped(v: u32) -> u32 {
    if v == 0 {
        1
    } else {
        v
    }
}

/// The texture formats of a window's surface: the storage format and the
/// format its views are presented in.
#[derive(Clone, Copy, Debug)]
pub struct TargetProperties {
    pub format: wgpu::TextureFormat,
    pub view_format: wgpu::TextureFormat,
}

/// The target properties chosen for a surface whose preferred format is `f`:
/// views use its sRGB variant, storage the variant without sRGB encoding.
pub open spec fn target_for(f: wgpu::TextureFormat) -> TargetProperties {
    TargetProperties { format: linear_form(srgb_form(f)), view_format: srgb_form(f) }
}

/// The configuration of a window's surface.
#[derive(Clone, Copy, Debug)]
pub struct SurfaceConfig {
    pub width: u32,
    pub height: u32,
    pub target: TargetProperties,
    pub present_mode: PresentMode,
}

/// The present mode for a vsync setting.
pub fn present_mode(vsync: bool) -> (r: PresentMode)
    ensures
        r == present_mode_for(vsync),
{
    if vsync {
        PresentMode::AutoVsync
    } else {
        PresentMode::AutoNoVsync
    }
}

/// The configuration of a surface of the requested size, each dimension
/// raised to at least 1.
pub fn surface_config(
    width: u32,
    height: u32,
    target: TargetProperties,
    present_mode: PresentMode,
) -> (r: SurfaceConfig)
    ensures
        r.width == clamped(width),
        r.height == clamped(height),
        r.target == target,
        r.present_mode == present_mode,
{
    SurfaceConfig {
        width: if width == 0 {
            1
        } else {
            width
        },
        height: if height == 0 {
            1
        } else {
            height
        },
        target,
        present_mode,
    }
}

/// Where a window is in its life.
#[derive(Clone, Copy, Debug, PartialEq, Eq, Structural)]
pub enum WindowPhase {
    /// Constructed; no OS surface yet.
    Unbound,
    /// An OS surface is attached but not configured.
    Bound,
    /// The surface is sized and presentable.
    Configured,
    /// The window was closed; nothing more happens to it.
    Closed,
}

/// A window's surface state: its phase, title and surface configuration.
pub struct WindowState {
    phase: WindowPhase,
    title: String,
    config: Option<SurfaceConfig>,
}

/// The title a window has until one is set.
pub open spec fn default_title() -> Seq<char> {
    seq!['T', 'a', 'i', 'k', 'a', ' ', 'W', 'i', 'n', 'd', 'o', 'w']
}

impl WindowState {
    pub closed spec fn phase_view(&self) -> WindowPhase {
        self.phase
    }

    pub closed spec fn title_view(&self) -> Seq<char> {
        self.title@
    }

    pub closed spec fn config_view(&self) -> Option<SurfaceConfig> {
        self.config
    }

    /// A configured window has a surface configuration.
    pub open spec fn wf(&self) -> bool {
        self.phase_view() == WindowPhase::Configured ==> self.config_view().is_some()
    }

    /// An unbound window with the default title.
    pub fn new() -> (r: WindowState)
        ensures
            r.wf(),
            r.phase_view() == WindowPhase::Unbound,
            r.title_view() == default_title(),
            r.config_view().is_none(),
    {
        let title = "Taika Window";
        proof {
            reveal_strlit("Taika Window");
            assert(title@ =~= default_title());
        }
        WindowState { phase: WindowPhase::Unbound, title: title.to_owned(), config: None }
    }

    pub fn phase(&self) -> (r: WindowPhase)
        ensures
            r == self.phase_view(),
    {
        self.phase
    }

    pub fn get_title(&self) -> (r: &str)
        ensures
            r@ == self.title_view(),
    {
        self.title.as_str()
    }

    /// Records that the OS has handed over a surface.
    pub fn init(&mut self)
        requires
            old(self).phase_view() == WindowPhase::Unbound,
        ensures
            final(self).wf(),
            final(self).phase_view() == WindowPhase::Bound,
            final(self).title_view() == old(self).title_view(),
            final(self).config_view() == old(self).config_view(),
    {
        self.phase = WindowPhase::Bound;
    }

    /// Sets the title. Before the OS window exists the title is kept for its
    /// creation and `false` is returned; afterwards the title is left as it
    /// is and `true` says that the OS window must be retitled.
    pub fn set_title(&mut self, title: &str) -> (forward: bool)
        requires
            old(self).wf(),
        ensures
            final(self).wf(),
            forward == (old(self).phase_view() != WindowPhase::Unbound),
            final(self).title_view() == if forward {
                old(self).title_view()
            } else {
                title@
            },
            final(self).phase_view() == old(self).phase_view(),
            final(self).config_view() == old(self).config_view(),
    {
        if self.phase == WindowPhase::Unbound {
            self.title = title.to_owned();
            false
        } else {
            true
        }
    }

    /// Configures the surface from its inner size, the formats it supports
    /// (the preferred first) and the vsync setting. Each dimension is at
    /// least 1. Returns `None`, and changes nothing, when the surface offers
    /// no format.
    pub fn configure_surface(
        &mut self,
        width: u32,
        height: u32,
        formats: &Vec<wgpu::TextureFormat>,
        vsync: bool,
    ) -> (r: Option<SurfaceConfig>)
        requires
            old(self).wf(),
            old(self).phase_view() == WindowPhase::Bound || old(self).phase_view()
                == WindowPhase::Configured,
        ensures
            final(self).wf(),
            formats@.len() == 0 ==> r.is_none() && final(self).phase_view() == old(self).phase_view()
                && final(self).config_view() == old(self).config_view(),
            formats@.len() > 0 ==> r.is_some() && final(self).phase_view()
                == WindowPhase::Configured && final(self).config_view() == r,
            r.is_some() ==> r.unwrap().width == clamped(width) && r.unwrap().height == clamped(
                height,
            ) && r.unwrap().target == target_for(formats@[0]) && r.unwrap().present_mode
                == present_mode_for(vsync),
            final(self).title_view() == old(self).title_view(),
    {
        if formats.len() == 0 {
            return None;
        }
        let view_format = add_srgb_suffix(formats[0]);
        let format = remove_srgb_suffix(view_format);
        let config = surface_config(
            width,
            height,
            TargetProperties { format, view_format },
            present_mode(vsync),
        );
        self.config = Some(config);
        self.phase = WindowPhase::Configured;
        Some(config)
    }

    /// Resizes a configured surface; formats and present mode stay. Each
    /// dimension is at least 1. Returns the new configuration.
    pub fn resize_surface(&mut self, width: u32, height: u32) -> (r: SurfaceConfig)
        requires
            old(self).wf(),
            old(self).phase_view() == WindowPhase::Configured,
        ensures
            final(self).wf(),
            r.width == clamped(width),
            r.height == clamped(height),
            r.target == old(self).config_view().unwrap().target,
            r.present_mode == old(self).config_view().unwrap().present_mode,
            final(self).config_view() == Some(r),
            final(self).phase_view() == old(self).phase_view(),
            final(self).title_view() == old(self).title_view(),
    {
        let old_config = self.config.unwrap();
        let config = surface_config(width, height, old_config.target, old_config.present_mode);
        self.config = Some(config);
        config
    }

    /// The current surface configuration, once configured.
    pub fn get_surface_config(&self) -> (r: Option<SurfaceConfig>)
        ensures
            r == self.config_view(),
    {
        self.config
    }

    /// The target properties of the configured surface.
    pub fn get_target_properties(&self) -> (r: Option<TargetProperties>)
        ensures
            r.is_some() == self.config_view().is_some(),
            r.is_some() ==> r.unwrap() == self.config_view().unwrap().target,
    {
        match self.config {
            Some(c) => Some(c.target),
            None => None,
        }
    }

    /// Marks the window closed.
    pub fn close(&mut self)
        ensures
            final(self).wf(),
            final(self).phase_view() == WindowPhase::Closed,
            final(self).title_view() == old(self).title_view(),
            final(self).config_view() == old(self).config_view(),
    {
        self.phase = WindowPhase::Closed;
    }
}

} // verus!
