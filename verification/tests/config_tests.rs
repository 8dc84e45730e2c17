use disp_center::layouts::{
    active_layouts_from_conf, align_variant_string, clean_layout_string, load_from_hyprland,
    parse_evdev_catalogue, parse_input_conf, parse_setxkbmap_query, rewrite_input_conf,
    sort_catalogue, sync_strings, ActiveLayout, AvailableLayout,
};
use disp_center::notif::choose_launch_target;
use disp_center::xkb_labels::{fallback_key_label, key_labels, layout_display_name, KeyInfo};
use disp_center::webapp::{
    build_desktop_entry, iface_from_line, is_vpn_iface, sort_webapps, webapp_from_desktop_entry,
    WebApp,
};

fn catalogue() -> Vec<AvailableLayout> {
    vec![
        AvailableLayout {
            code: String::from("us"),
            variant: String::new(),
            description: String::from("English (US)"),
        },
        AvailableLayout {
            code: String::from("ru"),
            variant: String::from("phonetic"),
            description: String::from("Russian (phonetic)"),
        },
    ]
}

#[test]
fn input_conf_keys_are_read_with_spaces_removed() {
    let content = "input {\n    kb_layout = us, ru\n    kb_variant = , phonetic\n}\n";
    let (lay, var) = parse_input_conf(content);
    assert_eq!(lay, "us,ru");
    assert_eq!(var, ",phonetic");
}

#[test]
fn later_keys_win() {
    let content = "kb_layout = us\nkb_layout = de\n";
    let (lay, var) = parse_input_conf(content);
    assert_eq!(lay, "de");
    assert_eq!(var, "");
}

#[test]
fn active_layouts_come_from_the_conf() {
    let avail = catalogue();
    let content = "kb_layout = us, ru\nkb_variant = , phonetic\n";
    let active = active_layouts_from_conf(&avail, content).unwrap();
    assert_eq!(active.len(), 2);
    assert_eq!(active[0].code, "us");
    assert_eq!(active[0].description, "English (US)");
    assert_eq!(active[1].code, "ru");
    assert_eq!(active[1].variant, "phonetic");
}

#[test]
fn empty_codes_are_skipped_without_shifting_variants() {
    let avail = catalogue();
    let content = "kb_layout = ,ru\nkb_variant = ,phonetic\n";
    let active = active_layouts_from_conf(&avail, content).unwrap();
    assert_eq!(active.len(), 1);
    assert_eq!(active[0].code, "ru");
    assert_eq!(active[0].variant, "phonetic");
}

#[test]
fn conf_without_layouts_yields_nothing() {
    let avail = catalogue();
    assert!(active_layouts_from_conf(&avail, "monitor = DP-1, disable\n").is_none());
    assert!(active_layouts_from_conf(&avail, "kb_layout = ,\n").is_none());
}

#[test]
fn evdev_catalogue_sections() {
    let content = "\
! layout
  us              English (US)
  ru              Russian

! variant
  phonetic        ru: Russian (phonetic)
  intl            us: English (US, intl., with dead keys)

! option
  grp             Switching to another layout
";
    let entries = parse_evdev_catalogue(content);
    assert_eq!(entries.len(), 4);
    assert_eq!(entries[0].code, "us");
    assert_eq!(entries[0].variant, "");
    assert_eq!(entries[0].description, "English (US)");
    assert_eq!(entries[2].code, "ru");
    assert_eq!(entries[2].variant, "phonetic");
    assert_eq!(entries[2].description, "Russian (phonetic)");
    assert_eq!(entries[3].code, "us");
    assert_eq!(entries[3].variant, "intl");
}

#[test]
fn desktop_entries_read_back_as_webapps() {
    let content = "\
[Desktop Entry]
Name=Gmail
Exec=launch-webapp \"--secure\" --name \"gmail\" \"https://mail.google.com\"
Icon=webapp-gmail
";
    let app = webapp_from_desktop_entry(content, "fallback", String::from("/tmp/gmail.desktop"))
        .expect("launcher entries are recognised");
    assert_eq!(app.name, "Gmail");
    assert_eq!(app.icon, "webapp-gmail");
    assert_eq!(app.slug, "gmail");
    assert_eq!(app.url, "https://mail.google.com");
    assert!(app.secure);
    assert!(!app.vpn_required);
    assert_eq!(app.desktop_file, "/tmp/gmail.desktop");
}

#[test]
fn layout_strings_are_cleaned_before_writing() {
    assert_eq!(clean_layout_string("us,ru"), "us,ru");
    assert_eq!(clean_layout_string(",ru"), "ru");
    assert_eq!(clean_layout_string("us, ,"), "us");
    assert_eq!(clean_layout_string(" , "), "");
}

#[test]
fn variants_stay_aligned_with_layouts() {
    // "us,ru" with ",phonetic" must keep us -> "" and ru -> "phonetic";
    // dropping the empty entry would shift the pairing
    assert_eq!(align_variant_string(",phonetic", 2), ",phonetic");
    assert_eq!(align_variant_string("phonetic", 2), "phonetic,");
    assert_eq!(align_variant_string("a,b,c", 2), "a,b");
    assert_eq!(align_variant_string("", 2), ",");
}

#[test]
fn conf_rewrite_replaces_only_the_key_lines() {
    let content = "input {\n    kb_layout = us\n    kb_variant =\n    follow_mouse = 1\n}";
    let out = rewrite_input_conf(content, "us,ru", ",phonetic");
    assert_eq!(
        out,
        "input {\n    kb_layout = us,ru\n    kb_variant = ,phonetic\n    follow_mouse = 1\n}\n"
    );
}

#[test]
fn launch_targets_prefer_the_desktop_entry() {
    assert_eq!(choose_launch_target("Signal", "signal.desktop").as_deref(), Some("signal"));
    assert_eq!(choose_launch_target("Signal", "").as_deref(), Some("Signal"));
    assert_eq!(choose_launch_target("", ""), None);
}

#[test]
fn vpn_interfaces_are_recognised_from_link_lines() {
    let line = "3: wg0: <POINTOPOINT,NOARP,UP,LOWER_UP> mtu 1420";
    assert_eq!(iface_from_line(line).as_deref(), Some("wg0"));
    let line2 = "4: veth1@if2: <BROADCAST> mtu 1500";
    assert_eq!(iface_from_line(line2).as_deref(), Some("veth1"));
    assert_eq!(iface_from_line("no colons here"), None);
    assert!(is_vpn_iface("wg0"));
    assert!(is_vpn_iface("tailscale0"));
    assert!(!is_vpn_iface("eth0"));
}

#[test]
fn foreign_desktop_entries_are_ignored() {
    let content = "[Desktop Entry]\nName=Files\nExec=nautilus\n";
    assert!(webapp_from_desktop_entry(content, "x", String::new()).is_none());
}

#[test]
fn key_labels_filter_and_reference() {
    // identical letters differ only in case: the US reference is withheld
    let (base, english) = key_labels("a", Some("a"));
    assert_eq!(base, "a");
    assert_eq!(english, "");
    // a different script shows the uppercased US reference alongside
    let (base2, english2) = key_labels("\u{444}", Some("a"));
    assert_eq!(base2, "\u{444}");
    assert_eq!(english2, "A");
    // control characters are dropped and an empty cap becomes a space
    let (base3, english3) = key_labels("\u{7}", None);
    assert_eq!(base3, " ");
    assert_eq!(english3, "");
}

#[test]
fn fallback_labels_mark_modifiers() {
    assert_eq!(fallback_key_label(""), (String::from("?"), false));
    assert_eq!(fallback_key_label("Shift"), (String::from("Shift"), true));
    let k = KeyInfo {
        base: String::from("Tab"),
        english: String::new(),
        width_qu: 6,
        is_modifier: true,
    };
    assert_eq!(k.width_qu, 6);
}

#[test]
fn layout_names_fall_back_to_code_and_variant() {
    assert_eq!(layout_display_name("Russian (phonetic)", "ru", "phonetic"), "Russian (phonetic)");
    assert_eq!(layout_display_name("", "ru", "phonetic"), "ru (phonetic)");
    assert_eq!(layout_display_name("", "us", ""), "us");
}

#[test]
fn conf_rewrite_preserves_line_structure() {
    // a newline-terminated file gains no blank line
    assert_eq!(rewrite_input_conf("a\n", "us", ""), "a\n");
    // carriage returns are consumed like the line iteration they mirror
    assert_eq!(
        rewrite_input_conf("a\r\nkb_layout = x\r\n", "us,ru", ",phonetic"),
        "a\nkb_layout = us,ru\n"
    );
}

#[test]
fn sync_strings_keep_layout_variant_pairs_together() {
    let entries = vec![
        ActiveLayout {
            code: String::new(),
            variant: String::from("dead"),
            description: String::new(),
        },
        ActiveLayout {
            code: String::from("ru"),
            variant: String::from("phonetic"),
            description: String::new(),
        },
        ActiveLayout {
            code: String::from("us"),
            variant: String::new(),
            description: String::new(),
        },
    ];
    // the blank-code entry takes its variant with it: ru keeps phonetic
    let (l, v) = sync_strings(&entries).expect("two entries survive");
    assert_eq!(l, "ru,us");
    assert_eq!(v, "phonetic,");
    let empty = vec![ActiveLayout {
        code: String::from("  "),
        variant: String::new(),
        description: String::new(),
    }];
    assert!(sync_strings(&empty).is_none());
}

#[test]
fn catalogues_sort_by_folded_description() {
    fn entry(desc: &str) -> AvailableLayout {
        AvailableLayout {
            code: String::from("x"),
            variant: String::new(),
            description: String::from(desc),
        }
    }
    let sorted = sort_catalogue(vec![entry("beta"), entry("Alpha"), entry("alpha 2")]);
    let names: Vec<&str> = sorted.iter().map(|a| a.description.as_str()).collect();
    assert_eq!(names, ["Alpha", "alpha 2", "beta"]);
}

#[test]
fn webapps_sort_by_folded_name() {
    fn app(name: &str) -> WebApp {
        WebApp {
            name: String::from(name),
            slug: String::new(),
            url: String::new(),
            secure: false,
            vpn_iface: String::new(),
            vpn_required: false,
            icon: String::new(),
            desktop_file: String::new(),
        }
    }
    let sorted = sort_webapps(vec![app("Zulu"), app("echo"), app("Alpha")]);
    let names: Vec<&str> = sorted.iter().map(|a| a.name.as_str()).collect();
    assert_eq!(names, ["Alpha", "echo", "Zulu"]);
}

#[test]
fn compositor_reports_decide_the_active_layouts() {
    let avail = catalogue();
    assert!(load_from_hyprland(&avail, None, None).is_none());
    assert!(load_from_hyprland(&avail, Some(String::new()), None).is_none());
    let active = load_from_hyprland(
        &avail,
        Some(String::from("us,ru")),
        Some(String::from(",phonetic")),
    )
    .expect("a non-empty report parses");
    assert_eq!(active.len(), 2);
    assert_eq!(active[1].description, "Russian (phonetic)");
}

#[test]
fn keyboard_state_queries_parse() {
    let out = "rules:      evdev\nmodel:      pc105\nlayout:     us,ru\nvariant:    ,phonetic\n";
    let (lay, var) = parse_setxkbmap_query(out);
    assert_eq!(lay, "us,ru");
    assert_eq!(var, ",phonetic");
    let none = parse_setxkbmap_query("rules: evdev\n");
    assert_eq!(none.0, "");
}

#[test]
fn desktop_entries_are_rendered_exactly() {
    let text = build_desktop_entry(
        "Gmail",
        "https://mail.google.com",
        "launch-webapp \"--name\" \"gmail\" \"https://mail.google.com\"",
        "webapp-gmail",
        "gmail",
    );
    assert_eq!(
        text,
        "[Desktop Entry]\nVersion=1.0\nType=Application\nName=Gmail\nComment=Web app for https://mail.google.com\nExec=launch-webapp \"--name\" \"gmail\" \"https://mail.google.com\"\nIcon=webapp-gmail\nStartupWMClass=brave-gmail\nTerminal=false\nCategories=Network;WebBrowser;\n"
    );
}
