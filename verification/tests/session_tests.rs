use disp_center::backend::{detect_backend, BackendKind, DisplayBackend};
use disp_center::demo::DemoBackend;
use disp_center::monitor::{Monitor, MonitorConfig};
use disp_center::session::{ApplyOutcome, LayoutSession};

/// A backend whose live push succeeds but whose save always fails.
struct UnsavedBackend;

fn one_monitor() -> Monitor {
    Monitor {
        id: 0,
        name: String::from("DP-1"),
        description: String::from("Test panel"),
        width: 1920,
        height: 1080,
        refresh_chz: 6000,
        x: 0,
        y: 0,
        scale_pct: 100,
        transform: 0,
        enabled: true,
        dpms: true,
        focused: true,
        available_modes: vec![],
    }
}

impl DisplayBackend for UnsavedBackend {
    fn query_monitors(&self) -> Result<Vec<Monitor>, String> {
        Ok(vec![one_monitor()])
    }

    fn apply(&self, _configs: &[MonitorConfig]) -> Result<(), String> {
        Ok(())
    }

    fn persist(&self, _configs: &[MonitorConfig]) -> Result<String, String> {
        Err(String::from("disk full"))
    }

    fn set_primary(&self, _monitor_name: &str) -> Result<(), String> {
        Ok(())
    }

    fn identify(&self, _monitors: &[Monitor]) -> Result<(), String> {
        Ok(())
    }

    fn name(&self) -> &'static str {
        "Unsaved"
    }
}

/// A backend whose live push itself fails.
struct RefusingBackend;

impl DisplayBackend for RefusingBackend {
    fn query_monitors(&self) -> Result<Vec<Monitor>, String> {
        Ok(vec![one_monitor()])
    }

    fn apply(&self, _configs: &[MonitorConfig]) -> Result<(), String> {
        Err(String::from("compositor said no"))
    }

    fn persist(&self, _configs: &[MonitorConfig]) -> Result<String, String> {
        Ok(String::from("/tmp/never"))
    }

    fn set_primary(&self, _monitor_name: &str) -> Result<(), String> {
        Ok(())
    }

    fn identify(&self, _monitors: &[Monitor]) -> Result<(), String> {
        Ok(())
    }

    fn name(&self) -> &'static str {
        "Refusing"
    }
}

#[test]
fn adopting_a_set_installs_exactly_that_set() {
    let mut s = LayoutSession::new(DemoBackend::new());
    s.adopt_monitors(vec![one_monitor()]);
    assert_eq!(s.monitors.len(), 1);
    assert_eq!(s.baseline.len(), 1);
    assert_eq!(s.monitors[0].name, "DP-1");
    assert_eq!(s.primary, "DP-1");
    assert!(!s.has_changes());
}

#[test]
fn load_seeds_a_clean_session() {
    let mut s = LayoutSession::new(DemoBackend::new());
    s.load().expect("demo query succeeds");
    assert_eq!(s.monitors.len(), 3);
    assert_eq!(s.primary, "DP-1");
    assert!(!s.has_changes());
    assert_eq!((s.scale.num, s.scale.den), (140, 3960));
    assert_eq!((s.min_x, s.min_y), (0, 0));
}

#[test]
fn moving_one_pixel_dirties_and_revert_cleans() {
    let mut s = LayoutSession::new(DemoBackend::new());
    s.load().unwrap();
    // dragging DP-1 to (1, 5) snaps it onto HDMI-A-1's left edge at (0, 5)
    s.move_monitor(0, 1, 5);
    assert_eq!((s.monitors[0].x, s.monitors[0].y), (0, 5));
    assert!(s.has_changes());
    s.revert();
    assert!(!s.has_changes());
    assert_eq!((s.monitors[0].x, s.monitors[0].y), (0, 0));
}

#[test]
fn scale_change_beyond_tolerance_dirties() {
    let mut s = LayoutSession::new(DemoBackend::new());
    s.load().unwrap();
    // 0.01 is within tolerance, 0.02 is beyond it
    s.change_scale(0, 151);
    assert!(!s.has_changes());
    s.change_scale(0, 152);
    assert!(s.has_changes());
}

#[test]
fn resolution_change_updates_fields_and_dirties() {
    let mut s = LayoutSession::new(DemoBackend::new());
    s.load().unwrap();
    s.change_resolution(0, 4);
    assert_eq!(s.monitors[0].width, 1920);
    assert_eq!(s.monitors[0].height, 1080);
    assert_eq!(s.monitors[0].refresh_chz, 6000);
    assert!(s.has_changes());
    assert_eq!(s.monitors[0].current_mode_index(), 4);
}

#[test]
fn apply_on_demo_commits_and_reports_saved() {
    let mut s = LayoutSession::new(DemoBackend::new());
    s.load().unwrap();
    s.move_monitor(1, 4000, 10);
    assert!(s.has_changes());
    let outcome = s.apply();
    match &outcome {
        ApplyOutcome::Applied { path } => assert_eq!(path, "(demo mode - not saved)"),
        _ => panic!("demo apply should fully succeed"),
    }
    assert_eq!(outcome.status_message(), "Applied and saved to (demo mode - not saved)");
    assert!(!s.has_changes());
}

#[test]
fn apply_commits_baseline_even_when_save_fails() {
    let mut s = LayoutSession::new(UnsavedBackend);
    s.load().unwrap();
    s.change_scale(0, 125);
    assert!(s.has_changes());
    let outcome = s.apply();
    match &outcome {
        ApplyOutcome::AppliedNotSaved { error } => assert_eq!(error, "disk full"),
        _ => panic!("expected the applied-but-not-saved outcome"),
    }
    assert_eq!(outcome.status_message(), "Applied live but failed to save: disk full");
    // the live state did change, so the session is clean regardless
    assert!(!s.has_changes());
}

#[test]
fn failed_apply_leaves_the_session_dirty() {
    let mut s = LayoutSession::new(RefusingBackend);
    s.load().unwrap();
    s.change_scale(0, 125);
    let outcome = s.apply();
    match &outcome {
        ApplyOutcome::Failed { error } => assert_eq!(error, "compositor said no"),
        _ => panic!("expected the failed outcome"),
    }
    assert_eq!(outcome.status_message(), "Apply failed: compositor said no");
    assert!(s.has_changes());
    assert_eq!(s.baseline[0].scale_pct, 100);
}

#[test]
fn set_primary_updates_the_session() {
    let mut s = LayoutSession::new(DemoBackend::new());
    s.load().unwrap();
    s.set_primary(1).expect("demo accepts");
    assert_eq!(s.primary, "HDMI-A-1");
}

#[test]
fn canvas_projection_of_the_demo_layout() {
    let mut s = LayoutSession::new(DemoBackend::new());
    s.load().unwrap();
    // scale 140/3960 over a box anchored at the origin, margin 40
    let r0 = s.canvas_rect(0);
    assert_eq!(r0, (40, 40, 135, 76));
    // and back: the canvas origin maps to the virtual origin
    assert_eq!(s.virtual_from_canvas(40, 40), (0, 0));
}

#[test]
fn configs_cover_every_monitor_in_order() {
    let mut s = LayoutSession::new(DemoBackend::new());
    s.load().unwrap();
    let configs = s.configs_from_current();
    assert_eq!(configs.len(), 3);
    assert_eq!(configs[0].name, "DP-1");
    assert_eq!(configs[1].name, "HDMI-A-1");
    assert_eq!(configs[2].name, "eDP-1");
    assert_eq!(configs[2].scale_pct, 200);
}

#[test]
fn identify_and_name_pass_through() {
    let mut s = LayoutSession::new(DemoBackend::new());
    s.load().unwrap();
    assert!(s.identify().is_ok());
    assert_eq!(s.backend.name(), "Demo");
}

#[test]
fn detection_picks_the_compositor_or_fails_closed() {
    assert!(matches!(detect_backend(true, true, true), Ok(BackendKind::Hyprland)));
    assert_eq!(
        detect_backend(false, true, false).unwrap_err(),
        "Wayland compositor detected but not Hyprland. Only Hyprland is currently supported."
    );
    assert_eq!(
        detect_backend(false, false, true).unwrap_err(),
        "X11 detected. Only Hyprland is currently supported. X11/xrandr backend coming soon."
    );
    assert_eq!(detect_backend(false, false, false).unwrap_err(), "No display server detected.");
}
