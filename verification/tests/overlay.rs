use privscrn::config::VignetteConfig;
use privscrn::overlay::{AppCore, LoopState, Monitor, OverlayEvent, plan_windows};

fn monitors3() -> Vec<Monitor> {
    vec![
        Monitor { x: 0, y: 0, width: 1920, height: 1080 },
        Monitor { x: 1920, y: 0, width: 2560, height: 1440 },
        Monitor { x: -1280, y: 120, width: 1280, height: 800 },
    ]
}

#[test]
fn n_monitors_yield_n_windows_covering_their_geometry() {
    let monitors = monitors3();
    let plan = plan_windows(&monitors);
    assert_eq!(plan.len(), monitors.len());
    for (i, req) in plan.iter().enumerate() {
        assert_eq!(req.monitor_index, i);
        assert_eq!(req.x, monitors[i].x);
        assert_eq!(req.y, monitors[i].y);
        assert_eq!(req.width, monitors[i].width);
        assert_eq!(req.height, monitors[i].height);
        assert!(req.always_on_top);
        assert!(!req.decorations);
        assert!(!req.resizable);
        assert!(req.transparent);
    }
}

#[test]
fn zero_monitors_yield_zero_windows_and_the_loop_keeps_running() {
    let mut core = AppCore::new(VignetteConfig::default());
    let plan = core.on_resumed(&Vec::new());
    assert_eq!(plan.unwrap().len(), 0);
    assert_eq!(core.state, LoopState::Running);
    assert!(core.created);
}

#[test]
fn a_second_resume_creates_nothing_more() {
    let mut core = AppCore::new(VignetteConfig::default());
    let monitors = monitors3();
    let first = core.on_resumed(&monitors);
    assert_eq!(first.unwrap().len(), 3);
    let second = core.on_resumed(&monitors);
    assert!(second.is_none());
    assert_eq!(core.state, LoopState::Running);
}

#[test]
fn close_request_exits_the_application() {
    let mut core = AppCore::new(VignetteConfig::default());
    core.on_resumed(&monitors3());
    let exit = core.on_window_event(OverlayEvent::Other);
    assert!(!exit);
    assert_eq!(core.state, LoopState::Running);
    let exit = core.on_window_event(OverlayEvent::CloseRequested);
    assert!(exit);
    assert_eq!(core.state, LoopState::Exited);
}
