use disp_center::layouts::{describe, parse_layout_variant_csv, AvailableLayout};
use disp_center::notif::{action_for_notification, build_notification, epoch_from_dunst, icon_for_app};
use disp_center::strutil::{contains, find_sub, str_eq, trim_spaces};
use disp_center::theme::{load_theme_palette, parse_hex_color, theme_var};
use disp_center::webapp::{
    build_exec_line, collapse_dashes, extract_url, host_ok, parse_exec_flag, slug_from_name,
    transliterate, validate_webapp_request, WebAppError,
};

fn catalogue() -> Vec<AvailableLayout> {
    vec![
        AvailableLayout {
            code: String::from("us"),
            variant: String::new(),
            description: String::from("English (US)"),
        },
        AvailableLayout {
            code: String::from("ru"),
            variant: String::from("phonetic"),
            description: String::from("Russian (phonetic)"),
        },
    ]
}

#[test]
fn describe_prefers_the_catalogue() {
    let avail = catalogue();
    assert_eq!(describe(&avail, "us", ""), "English (US)");
    assert_eq!(describe(&avail, "ru", "phonetic"), "Russian (phonetic)");
}

#[test]
fn describe_falls_back_to_the_code() {
    let avail = catalogue();
    assert_eq!(describe(&avail, "fr", ""), "fr");
    assert_eq!(describe(&avail, "fr", "azerty"), "fr (azerty)");
}

#[test]
fn csv_pairs_variants_positionally() {
    let avail = catalogue();
    let parsed = parse_layout_variant_csv(&avail, "us, ru", ",phonetic").unwrap();
    assert_eq!(parsed.len(), 2);
    assert_eq!(parsed[0].code, "us");
    assert_eq!(parsed[0].variant, "");
    assert_eq!(parsed[0].description, "English (US)");
    assert_eq!(parsed[1].code, "ru");
    assert_eq!(parsed[1].variant, "phonetic");
    assert_eq!(parsed[1].description, "Russian (phonetic)");
}

#[test]
fn csv_keeps_unmatched_codes() {
    let avail = catalogue();
    let parsed = parse_layout_variant_csv(&avail, "de", "").unwrap();
    assert_eq!(parsed.len(), 1);
    assert_eq!(parsed[0].description, "de");
}

#[test]
fn layout_display_shows_the_description() {
    let avail = catalogue();
    assert_eq!(avail[0].display(), "English (US)");
}

#[test]
fn string_helpers_behave() {
    assert!(str_eq("abc", "abc"));
    assert!(!str_eq("abc", "abd"));
    assert_eq!(trim_spaces("  x y \t"), "x y");
    assert!(contains("hello world", "lo wo"));
    assert!(!contains("hello", "zz"));
    assert_eq!(find_sub("abcabc", "cab"), Some(2));
    assert_eq!(find_sub("abc", "zz"), None);
}

#[test]
fn icons_fold_case() {
    let signal = icon_for_app("Signal");
    assert_eq!(signal, icon_for_app("signal"));
    let fallback = icon_for_app("some-random-tool");
    assert_eq!(fallback, icon_for_app("dunstctl"));
    assert_ne!(signal, fallback);
}

#[test]
fn actions_for_known_notifications() {
    assert_eq!(action_for_notification("x", "System Update", ""), "smplos-update");
    assert_eq!(action_for_notification("Launch-Webapp", "", ""), "__OPEN_WEBAPP_LOG__");
    assert_eq!(
        action_for_notification("app", "Web App Launch Error", ""),
        "__OPEN_WEBAPP_LOG__"
    );
    assert_eq!(
        action_for_notification("app", "oops", "see launch-webapp.log for details"),
        "__OPEN_WEBAPP_LOG__"
    );
    assert_eq!(action_for_notification("app", "hello", "world"), "");
}

#[test]
fn notification_record_carries_icon_and_action() {
    let n = build_notification(
        7,
        String::from("Signal"),
        String::from("signal.desktop"),
        String::from("Message"),
        String::from("hi"),
        String::from("Jan 01"),
        String::from("9:00 AM"),
    );
    assert_eq!(n.id, 7);
    assert_eq!(n.icon, icon_for_app("signal"));
    assert_eq!(n.action, "");
}

#[test]
fn dunst_epoch_reconstruction() {
    // booted 500 s ago, notification fired 200 s after boot
    assert_eq!(epoch_from_dunst(1000, 500, 200_000_000), 700);
}

#[test]
fn exec_flags_parse_quoted_and_unquoted() {
    let exec = "launch-webapp --name \"gmail\" \"https://mail.google.com\"";
    assert_eq!(parse_exec_flag(exec, "--name").as_deref(), Some("gmail"));
    let exec2 = "launch-webapp --name gmail https://mail.google.com";
    assert_eq!(parse_exec_flag(exec2, "--name").as_deref(), Some("gmail"));
    assert_eq!(parse_exec_flag(exec2, "--vpn-interface"), None);
    // when the flag itself is quoted, the match lands inside the quotes and
    // the "value" seen is the text up to the next quote
    let exec3 = "launch-webapp \"--name\" \"gmail\"";
    assert_eq!(parse_exec_flag(exec3, "--name").as_deref(), Some(" "));
}

#[test]
fn urls_come_from_the_last_argument() {
    let exec = "launch-webapp \"--name\" \"gmail\" \"https://mail.google.com\"";
    assert_eq!(extract_url(exec).as_deref(), Some("https://mail.google.com"));
    let exec2 = "launch-webapp --name gmail https://mail.google.com";
    assert_eq!(extract_url(exec2).as_deref(), Some("https://mail.google.com"));
}

#[test]
fn slugs_are_sanitised() {
    assert_eq!(transliterate("abc"), "abc");
    assert_eq!(collapse_dashes("a--b---c"), "a-b-c");
    assert_eq!(slug_from_name("My  App!"), "my-app");
    assert_eq!(slug_from_name("---"), "");
    assert_eq!(slug_from_name("Caf\u{e9} 9"), "caf-9");
}

#[test]
fn webapp_requests_validate_through_the_url_parser() {
    match validate_webapp_request("Mail", "example.com") {
        Ok((url, host)) => {
            assert_eq!(url, "https://example.com");
            assert_eq!(host, "example.com");
        },
        Err(_) => panic!("a bare domain is accepted"),
    }
    match validate_webapp_request("Mail", "https://mail.google.com/inbox") {
        Ok((_, host)) => assert_eq!(host, "mail.google.com"),
        Err(_) => panic!("a full URL is accepted"),
    }
    assert!(matches!(validate_webapp_request("  ", "x"), Err(WebAppError::EmptyName)));
    assert!(matches!(validate_webapp_request("a", " "), Err(WebAppError::EmptyUrl)));
    assert!(matches!(validate_webapp_request("a", "http://["), Err(WebAppError::InvalidUrl)));
    assert!(
        matches!(validate_webapp_request("a", "httpx://foo.com"), Err(WebAppError::BadSchemeOrHost))
    );
    assert_eq!(WebAppError::EmptyName.message(), "Name cannot be empty");
}

#[test]
fn host_rules() {
    assert!(host_ok("example.com", false));
    assert!(host_ok("LOCALHOST", false));
    assert!(host_ok("localhost", false));
    assert!(!host_ok("intranet", false));
    assert!(host_ok("10.0.0.1", true));
}

#[test]
fn exec_lines_are_rebuilt_exactly() {
    let line = build_exec_line(true, "wg0", true, "mail", "https://m.example");
    assert_eq!(
        line,
        "launch-webapp \"--secure\" \"--vpn-interface\" \"wg0\" \"--vpn-required\" \"--name\" \"mail\" \"https://m.example\""
    );
    let plain = build_exec_line(false, "", false, "mail", "https://m.example");
    assert_eq!(plain, "launch-webapp \"--name\" \"mail\" \"https://m.example\"");
}

#[test]
fn theme_vars_take_the_last_assignment() {
    let content = "$theme-bg: #112233;\n  $theme-bg : #445566 !important;\n$other: x;\n";
    assert_eq!(theme_var(content, "bg").as_deref(), Some("#445566"));
    assert_eq!(theme_var(content, "fg"), None);
}

#[test]
fn palettes_fall_back_role_by_role() {
    let content = "$theme-bg: #445566;\n$theme-red: nonsense;\n";
    let p = load_theme_palette(content);
    assert_eq!((p.bg.r, p.bg.g, p.bg.b), (0x44, 0x55, 0x66));
    // an unreadable value falls back to the built-in colour
    assert_eq!((p.red.r, p.red.g, p.red.b), (0xf3, 0x8b, 0xa8));
    // an absent key falls back too
    assert_eq!((p.cyan.r, p.cyan.g, p.cyan.b), (0x94, 0xe2, 0xd5));
}

#[test]
fn hex_colors_parse() {
    let c = parse_hex_color("#1e1e2e").unwrap();
    assert_eq!((c.r, c.g, c.b), (0x1e, 0x1e, 0x2e));
    let c2 = parse_hex_color("  #A6E3A1 ").unwrap();
    assert_eq!((c2.r, c2.g, c2.b), (0xa6, 0xe3, 0xa1));
    assert!(parse_hex_color("#12345").is_none());
    assert!(parse_hex_color("zzzzzz").is_none());
}
