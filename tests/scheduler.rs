use taika::app_handler::{startup_steps, Action, AppState, StartupStep, WindowEventKind};
use taika::{request_quit, QuitToken, RenderSettings};

fn settings(vsync: bool, max_framerate: Option<u32>) -> RenderSettings {
    RenderSettings {
        vsync,
        max_framerate,
        ..RenderSettings::default()
    }
}

const MS: u64 = 1_000_000;

#[test]
fn default_settings() {
    let s = RenderSettings::default();
    assert!(s.vsync);
    assert_eq!(s.max_framerate, None);
    assert_eq!(s.required_features, wgpu::Features::empty());
}

#[test]
fn capped_frames_are_spaced() {
    let mut app = AppState::new(&settings(false, Some(30)));
    assert_eq!(app.add_window(77), Some(0));
    let redraw = WindowEventKind::RedrawRequested;
    assert_eq!(
        app.on_window_event(false, 77, redraw, 0),
        vec![Action::RunFrame(0), Action::ForwardEvent(0)]
    );
    assert_eq!(
        app.on_window_event(false, 77, redraw, 10 * MS),
        vec![Action::RequestRedraw(0), Action::ForwardEvent(0)]
    );
    assert_eq!(
        app.on_window_event(false, 77, redraw, 33_333_333),
        vec![Action::RequestRedraw(0), Action::ForwardEvent(0)]
    );
    assert_eq!(
        app.on_window_event(false, 77, redraw, 33_333_334),
        vec![Action::RunFrame(0), Action::ForwardEvent(0)]
    );
    assert_eq!(app.window(0).last_frame, 33_333_334);
}

#[test]
fn vsync_ignores_cap() {
    let mut app = AppState::new(&settings(true, Some(30)));
    app.add_window(1);
    for t in 0..3u64 {
        assert_eq!(
            app.on_window_event(false, 1, WindowEventKind::RedrawRequested, t),
            vec![Action::RunFrame(0), Action::ForwardEvent(0)]
        );
    }
}

#[test]
fn no_cap_runs_every_redraw() {
    let mut app = AppState::new(&settings(false, None));
    app.add_window(1);
    for t in 0..3u64 {
        assert_eq!(
            app.on_window_event(false, 1, WindowEventKind::RedrawRequested, t)[0],
            Action::RunFrame(0)
        );
    }
}

#[test]
fn close_then_quit_notifies_each_window_once() {
    let mut app = AppState::new(&settings(true, None));
    app.add_window(10);
    app.add_window(20);
    let mut actions = app.on_window_event(false, 10, WindowEventKind::CloseRequested, 0);
    assert_eq!(
        actions,
        vec![Action::NotifyClosed(0), Action::ExitLoop, Action::ForwardEvent(0)]
    );
    assert!(app.is_exiting());
    let mut token = QuitToken::new();
    request_quit(&mut token);
    assert!(token.is_requested());
    actions.extend(app.on_window_event(token.is_requested(), 10, WindowEventKind::RedrawRequested, 1));
    actions.extend(app.on_window_event(token.is_requested(), 10, WindowEventKind::RedrawRequested, 2));
    actions.extend(app.on_window_event(token.is_requested(), 20, WindowEventKind::RedrawRequested, 3));
    for w in 0..2usize {
        let closes = actions.iter().filter(|a| **a == Action::NotifyClosed(w)).count();
        assert_eq!(closes, 1);
        assert!(!actions.contains(&Action::RunFrame(w)));
    }
    assert!(app.window(0).closed && app.window(1).closed);
}

#[test]
fn quit_closes_all_open_windows() {
    let mut app = AppState::new(&settings(true, None));
    app.add_window(1);
    app.add_window(2);
    assert_eq!(
        app.on_window_event(true, 1, WindowEventKind::Other, 0),
        vec![Action::ExitLoop, Action::NotifyClosed(0), Action::NotifyClosed(1)]
    );
    assert_eq!(
        app.on_window_event(true, 2, WindowEventKind::Other, 0),
        vec![Action::ExitLoop]
    );
}

#[test]
fn closed_window_gets_no_more_work() {
    let mut app = AppState::new(&settings(true, None));
    app.add_window(5);
    app.on_window_event(false, 5, WindowEventKind::CloseRequested, 0);
    assert!(app
        .on_window_event(false, 5, WindowEventKind::RedrawRequested, 1)
        .is_empty());
}

#[test]
fn events_are_routed_to_their_window() {
    let mut app = AppState::new(&settings(true, None));
    app.add_window(3);
    app.add_window(4);
    assert_eq!(
        app.on_window_event(false, 4, WindowEventKind::Resized { width: 0, height: 9 }, 0),
        vec![
            Action::ResizeSurface { window: 1, width: 0, height: 9 },
            Action::ForwardEvent(1)
        ]
    );
    assert_eq!(
        app.on_window_event(false, 3, WindowEventKind::Focused(false), 0),
        vec![
            Action::NotifyFocus { window: 0, focused: false },
            Action::ForwardEvent(0)
        ]
    );
    assert_eq!(
        app.on_window_event(false, 3, WindowEventKind::Other, 0),
        vec![Action::ForwardEvent(0)]
    );
    assert!(app
        .on_window_event(false, 99, WindowEventKind::RedrawRequested, 0)
        .is_empty());
}

#[test]
fn duplicate_window_id_is_refused() {
    let mut app = AppState::new(&settings(true, None));
    assert_eq!(app.add_window(8), Some(0));
    assert_eq!(app.add_window(8), None);
    assert_eq!(app.window_count(), 1);
}

#[test]
fn startup_creates_configures_inits_then_redraws() {
    assert_eq!(
        startup_steps(2),
        vec![
            StartupStep::CreateWindow(0),
            StartupStep::CreateWindow(1),
            StartupStep::ConfigureSurface(0),
            StartupStep::ConfigureSurface(1),
            StartupStep::DeviceInit(0),
            StartupStep::DeviceInit(1),
            StartupStep::RequestRedraw(0),
            StartupStep::RequestRedraw(1),
        ]
    );
    assert!(startup_steps(0).is_empty());
}
