use taika::window::{present_mode, surface_config, PresentMode, TargetProperties, WindowPhase, WindowState};
use wgpu::TextureFormat;

fn configured(vsync: bool) -> WindowState {
    let mut w = WindowState::new();
    w.init();
    let formats = vec![TextureFormat::Bgra8Unorm, TextureFormat::Rgba8Unorm];
    w.configure_surface(800, 600, &formats, vsync).unwrap();
    w
}

#[test]
fn new_window_is_unbound_with_default_title() {
    let w = WindowState::new();
    assert_eq!(w.phase(), WindowPhase::Unbound);
    assert_eq!(w.get_title(), "Taika Window");
    assert!(w.get_target_properties().is_none());
}

#[test]
fn configure_picks_srgb_view_of_preferred_format() {
    let w = configured(true);
    assert_eq!(w.phase(), WindowPhase::Configured);
    let t = w.get_target_properties().unwrap();
    assert_eq!(t.view_format, TextureFormat::Bgra8UnormSrgb);
    assert_eq!(t.format, TextureFormat::Bgra8Unorm);
    let c = w.get_surface_config().unwrap();
    assert_eq!((c.width, c.height), (800, 600));
    assert_eq!(c.present_mode, PresentMode::AutoVsync);
}

#[test]
fn configure_strips_srgb_for_storage() {
    let mut w = WindowState::new();
    w.init();
    let formats = vec![TextureFormat::Rgba8UnormSrgb];
    let c = w.configure_surface(0, 7, &formats, false).unwrap();
    assert_eq!(c.target.format, TextureFormat::Rgba8Unorm);
    assert_eq!(c.target.view_format, TextureFormat::Rgba8UnormSrgb);
    assert_eq!((c.width, c.height), (1, 7));
    assert_eq!(c.present_mode, PresentMode::AutoNoVsync);
}

#[test]
fn configure_without_formats_changes_nothing() {
    let mut w = WindowState::new();
    w.init();
    assert!(w.configure_surface(10, 10, &Vec::new(), true).is_none());
    assert_eq!(w.phase(), WindowPhase::Bound);
    assert!(w.get_surface_config().is_none());
}

#[test]
fn resize_to_zero_gives_one_by_one() {
    let mut w = configured(false);
    let c = w.resize_surface(0, 0);
    assert_eq!((c.width, c.height), (1, 1));
    assert_eq!(c.present_mode, PresentMode::AutoNoVsync);
    assert_eq!(c.target.view_format, TextureFormat::Bgra8UnormSrgb);
    let stored = w.get_surface_config().unwrap();
    assert_eq!((stored.width, stored.height), (1, 1));
}

#[test]
fn resize_keeps_formats() {
    let mut w = configured(true);
    let c = w.resize_surface(1920, 1080);
    assert_eq!((c.width, c.height), (1920, 1080));
    assert_eq!(c.target.format, TextureFormat::Bgra8Unorm);
    assert_eq!(c.present_mode, PresentMode::AutoVsync);
}

#[test]
fn title_is_kept_only_before_binding() {
    let mut w = WindowState::new();
    assert!(!w.set_title("game"));
    assert_eq!(w.get_title(), "game");
    w.init();
    assert!(w.set_title("other"));
    assert_eq!(w.get_title(), "game");
}

#[test]
fn close_is_terminal_phase() {
    let mut w = configured(true);
    w.close();
    assert_eq!(w.phase(), WindowPhase::Closed);
}

#[test]
fn surface_config_raises_each_dimension_to_one() {
    let target = TargetProperties {
        format: TextureFormat::Rgba8Unorm,
        view_format: TextureFormat::Rgba8UnormSrgb,
    };
    let c = surface_config(0, 0, target, PresentMode::AutoVsync);
    assert_eq!((c.width, c.height), (1, 1));
    let c = surface_config(640, 0, target, PresentMode::AutoNoVsync);
    assert_eq!((c.width, c.height), (640, 1));
    assert_eq!(c.target.view_format, TextureFormat::Rgba8UnormSrgb);
    assert_eq!(c.present_mode, PresentMode::AutoNoVsync);
}

#[test]
fn present_mode_follows_vsync() {
    assert_eq!(present_mode(true), PresentMode::AutoVsync);
    assert_eq!(present_mode(false), PresentMode::AutoNoVsync);
}

#[test]
fn format_without_srgb_variant_is_kept() {
    let mut w = WindowState::new();
    w.init();
    let c = w
        .configure_surface(4, 4, &vec![TextureFormat::Rgba16Float], true)
        .unwrap();
    assert_eq!(c.target.format, TextureFormat::Rgba16Float);
    assert_eq!(c.target.view_format, TextureFormat::Rgba16Float);
}
