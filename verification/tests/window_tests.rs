use project_notes::model::WindowMode;
use project_notes::window::apply_ops;
use project_notes::window::apply_window_settings;
use project_notes::window::WindowConfig;
use project_notes::window::WindowOp;

fn start() -> WindowConfig {
    WindowConfig {
        fullscreen: true,
        decorations: false,
        maximized: true,
        centered: false,
        always_on_top: true,
    }
}

#[test]
fn windowed_plan_idempotent() {
    let plan = apply_window_settings(WindowMode::Windowed, false);
    let once = apply_ops(start(), &plan);
    let twice = apply_ops(once, &plan);
    assert_eq!(once, twice);
    assert!(!once.fullscreen);
    assert!(once.decorations);
    assert!(!once.maximized);
    assert!(once.centered);
    assert!(!once.always_on_top);
}

#[test]
fn always_on_top_change_leaves_mode_alone() {
    let a = apply_ops(
        start(),
        &apply_window_settings(WindowMode::FullscreenBorderless, true),
    );
    let b = apply_ops(a, &apply_window_settings(WindowMode::FullscreenBorderless, false));
    assert_eq!(a.fullscreen, b.fullscreen);
    assert_eq!(a.decorations, b.decorations);
    assert_eq!(a.maximized, b.maximized);
    assert_eq!(a.centered, b.centered);
    assert!(a.always_on_top);
    assert!(!b.always_on_top);
}

#[test]
fn plans_match_mode_table() {
    assert_eq!(
        apply_window_settings(WindowMode::FullscreenFramed, false),
        vec![
            WindowOp::SetFullscreen(false),
            WindowOp::SetDecorations(true),
            WindowOp::Maximize,
            WindowOp::SetAlwaysOnTop(false),
        ]
    );
    assert_eq!(
        apply_window_settings(WindowMode::Windowed, true),
        vec![
            WindowOp::SetFullscreen(false),
            WindowOp::SetDecorations(true),
            WindowOp::Unmaximize,
            WindowOp::Center,
            WindowOp::SetAlwaysOnTop(true),
        ]
    );
    assert_eq!(
        apply_window_settings(WindowMode::FullscreenBorderless, false),
        vec![
            WindowOp::SetDecorations(false),
            WindowOp::SetFullscreen(true),
            WindowOp::SetAlwaysOnTop(false),
        ]
    );
    assert_eq!(
        apply_window_settings(WindowMode::Borderless, true),
        vec![
            WindowOp::SetFullscreen(false),
            WindowOp::SetDecorations(false),
            WindowOp::Maximize,
            WindowOp::SetAlwaysOnTop(true),
        ]
    );
}
