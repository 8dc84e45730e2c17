use disp_center::monitor::{
    config_from_monitor, parse_monitor_line, Monitor, MonitorConfig, MonitorMode,
};
use disp_center::numfmt::{format_fixed2, format_i32, format_u32};

fn sample_monitor() -> Monitor {
    Monitor {
        id: 0,
        name: String::from("DP-1"),
        description: String::from("Test panel"),
        width: 3840,
        height: 2160,
        refresh_chz: 14400,
        x: 0,
        y: 0,
        scale_pct: 150,
        transform: 0,
        enabled: true,
        dpms: true,
        focused: true,
        available_modes: vec![
            MonitorMode { width: 3840, height: 2160, refresh_chz: 14400 },
            MonitorMode { width: 3840, height: 2160, refresh_chz: 6000 },
            MonitorMode { width: 1920, height: 1080, refresh_chz: 6000 },
        ],
    }
}

#[test]
fn mode_label_rounds_to_whole_hertz() {
    let m = MonitorMode { width: 1920, height: 1080, refresh_chz: 5997 };
    assert_eq!(m.label(), "1920x1080@60Hz");
    let m2 = MonitorMode { width: 3840, height: 2160, refresh_chz: 14400 };
    assert_eq!(m2.label(), "3840x2160@144Hz");
    // exact halves round to the even neighbour
    let half_even = MonitorMode { width: 1920, height: 1080, refresh_chz: 6050 };
    assert_eq!(half_even.label(), "1920x1080@60Hz");
    let half_odd = MonitorMode { width: 1920, height: 1080, refresh_chz: 6150 };
    assert_eq!(half_odd.label(), "1920x1080@62Hz");
}

#[test]
fn decimal_rendering_is_canonical() {
    assert_eq!(format_u32(0), "0");
    assert_eq!(format_u32(1080), "1080");
    assert_eq!(format_i32(-5), "-5");
    assert_eq!(format_i32(0), "0");
    assert_eq!(format_fixed2(6497), "64.97");
    assert_eq!(format_fixed2(5), "0.05");
    assert_eq!(format_fixed2(100), "1.00");
}

#[test]
fn hyprland_line_enabled() {
    let cfg = MonitorConfig {
        name: String::from("DP-1"),
        width: 3840,
        height: 2160,
        refresh_chz: 14400,
        x: 0,
        y: 0,
        scale_pct: 150,
        enabled: true,
    };
    assert_eq!(cfg.to_hyprland_line(), "monitor = DP-1, 3840x2160@144.00, 0x0, 1.50");
}

#[test]
fn hyprland_line_disabled() {
    let cfg = MonitorConfig {
        name: String::from("HDMI-A-1"),
        width: 1920,
        height: 1080,
        refresh_chz: 6000,
        x: 3840,
        y: 0,
        scale_pct: 100,
        enabled: false,
    };
    assert_eq!(cfg.to_hyprland_line(), "monitor = HDMI-A-1, disable");
}

#[test]
fn line_round_trip_preserves_every_field() {
    let cfg = MonitorConfig {
        name: String::from("eDP-1"),
        width: 2880,
        height: 1800,
        refresh_chz: 12000,
        x: -1920,
        y: 2160,
        scale_pct: 200,
        enabled: true,
    };
    let line = cfg.to_hyprland_line();
    assert_eq!(line, "monitor = eDP-1, 2880x1800@120.00, -1920x2160, 2.00");
    let back = parse_monitor_line(&line).expect("formatted line parses");
    assert_eq!(back.name, cfg.name);
    assert_eq!(back.width, cfg.width);
    assert_eq!(back.height, cfg.height);
    assert_eq!(back.refresh_chz, cfg.refresh_chz);
    assert_eq!(back.x, cfg.x);
    assert_eq!(back.y, cfg.y);
    assert_eq!(back.scale_pct, cfg.scale_pct);
    assert_eq!(back.enabled, cfg.enabled);
}

#[test]
fn line_round_trip_fractional_refresh() {
    let cfg = MonitorConfig {
        name: String::from("DP-3"),
        width: 2560,
        height: 1440,
        refresh_chz: 16499,
        x: 100,
        y: -50,
        scale_pct: 125,
        enabled: true,
    };
    let line = cfg.to_hyprland_line();
    assert_eq!(line, "monitor = DP-3, 2560x1440@164.99, 100x-50, 1.25");
    let back = parse_monitor_line(&line).expect("formatted line parses");
    assert_eq!(back.refresh_chz, 16499);
    assert_eq!(back.x, 100);
    assert_eq!(back.y, -50);
}

#[test]
fn disable_line_reads_back_name_and_state() {
    let back = parse_monitor_line("monitor = DP-1, disable").expect("disable line parses");
    assert_eq!(back.name, "DP-1");
    assert!(!back.enabled);
}

#[test]
fn malformed_lines_do_not_parse() {
    assert!(parse_monitor_line("hello").is_none());
    assert!(parse_monitor_line("monitor = DP-1").is_none());
    assert!(parse_monitor_line("monitor = DP-1, 12x").is_none());
    assert!(parse_monitor_line("monitor = DP-1, 1920x1080@60, 0x0, 1.50").is_none());
}

#[test]
fn current_mode_index_matches_within_one_hertz() {
    let mut m = sample_monitor();
    assert_eq!(m.current_mode_index(), 0);
    // driver jitter under 1 Hz still matches the catalogue entry
    m.refresh_chz = 14350;
    assert_eq!(m.current_mode_index(), 0);
    // a full hertz away no longer matches the first entry
    m.refresh_chz = 6000;
    assert_eq!(m.current_mode_index(), 1);
    // nothing matches: defaults to 0
    m.width = 800;
    assert_eq!(m.current_mode_index(), 0);
}

#[test]
fn mode_labels_cover_the_catalogue() {
    let m = sample_monitor();
    let labels = m.mode_labels();
    assert_eq!(labels.len(), 3);
    assert_eq!(labels[0], "3840x2160@144Hz");
    assert_eq!(labels[2], "1920x1080@60Hz");
}

#[test]
fn config_derivation_copies_the_editable_fields() {
    let m = sample_monitor();
    let c = config_from_monitor(&m);
    assert_eq!(c.name, "DP-1");
    assert_eq!(c.width, 3840);
    assert_eq!(c.refresh_chz, 14400);
    assert_eq!(c.scale_pct, 150);
    assert!(c.enabled);
}
