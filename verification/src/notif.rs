//! Notification bookkeeping: the record shown per notification, the icon
//! picked for an application, and the action a well-known notification is
//! given so it stays actionable from the list.

use vstd::prelude::*;
use crate::strutil::{contains, contains_seq, str_eq};

verus! {

/// One notification as shown in the list.
pub struct Notification {
    pub id: i32,
    pub appname: String,
    pub desktop_entry: String,
    pub icon: String,
    pub summary: String,
    pub body: String,
    pub date: String,
    pub time: String,
    pub action: String,
}

/// What `str::to_lowercase` returns for the given characters.
pub uninterp spec fn lower_of(s: Seq<char>) -> Seq<char>;

/// Relies on str::to_lowercase: Unicode lowercasing, a function of the
/// characters alone.
#[verifier::external_body]
pub(crate) fn lowercase(s: &str) -> (r: String)
    ensures
        r@ == lower_of(s@),
{
    s.to_lowercase()
}

/// The icon glyph shown for an application, from its folded (lowercased)
/// name.
pub open spec fn spec_icon_for(folded: Seq<char>) -> Seq<char> {
    if folded == "signal"@ {
        "\u{f0361}"@
    } else if folded == "discord"@ {
        "\u{f066f}"@
    } else if folded == "brave"@ || folded == "brave-browser"@ {
        "\u{f059f}"@
    } else if folded == "spotify"@ {
        "\u{f04c7}"@
    } else if folded == "thunderbird"@ {
        "\u{f01f0}"@
    } else if folded == "steam"@ {
        "\u{f04d3}"@
    } else if folded == "notify-send"@ || folded == "dunstctl"@ {
        "\u{f009a}"@
    } else if folded == "volume"@ || folded == "volume-ctl"@ {
        "\u{f057e}"@
    } else if folded == "brightness"@ || folded == "brightness-ctl"@ {
        "\u{f00df}"@
    } else {
        "\u{f009a}"@
    }
}

/// Pick the icon glyph for an already-folded application name.
pub fn icon_for_folded(folded: &str) -> (r: String)
    ensures
        r@ == spec_icon_for(folded@),
{
    let r: &str = if str_eq(folded, "signal") {
        "\u{f0361}"
    } else if str_eq(folded, "discord") {
        "\u{f066f}"
    } else if str_eq(folded, "brave") || str_eq(folded, "brave-browser") {
        "\u{f059f}"
    } else if str_eq(folded, "spotify") {
        "\u{f04c7}"
    } else if str_eq(folded, "thunderbird") {
        "\u{f01f0}"
    } else if str_eq(folded, "steam") {
        "\u{f04d3}"
    } else if str_eq(folded, "notify-send") || str_eq(folded, "dunstctl") {
        "\u{f009a}"
    } else if str_eq(folded, "volume") || str_eq(folded, "volume-ctl") {
        "\u{f057e}"
    } else if str_eq(folded, "brightness") || str_eq(folded, "brightness-ctl") {
        "\u{f00df}"
    } else {
        "\u{f009a}"
    };
    String::from_str(r)
}

/// Pick the icon glyph for an application name, case-insensitively.
pub fn icon_for_app(app: &str) -> (r: String)
    ensures
        r@ == spec_icon_for(lower_of(app@)),
{
    let folded = lowercase(app);
    icon_for_folded(folded.as_str())
}

/// The action a notification is given: well-known summaries map to shell
/// commands, and web-app launch failures open the launch log (matched by
/// folded application name, or by folded summary or body text as a
/// fallback); everything else gets no action.
pub open spec fn spec_action(a: Seq<char>, s: Seq<char>, b: Seq<char>) -> Seq<char> {
    if s == "System Update"@ {
        "smplos-update"@
    } else if lower_of(a) == "launch-webapp"@ || contains_seq(
        lower_of(s),
        "web app launch error"@,
    ) || contains_seq(lower_of(b), "launch-webapp.log"@) {
        "__OPEN_WEBAPP_LOG__"@
    } else {
        ""@
    }
}

/// Map well-known notifications to the command that acts on them.
pub fn action_for_notification(appname: &str, summary: &str, body: &str) -> (r: String)
    ensures
        r@ == spec_action(appname@, summary@, body@),
{
    if str_eq(summary, "System Update") {
        return String::from_str("smplos-update");
    }
    let a = lowercase(appname);
    let s = lowercase(summary);
    let b = lowercase(body);
    if str_eq(a.as_str(), "launch-webapp") || contains(s.as_str(), "web app launch error")
        || contains(b.as_str(), "launch-webapp.log") {
        return String::from_str("__OPEN_WEBAPP_LOG__");
    }
    String::from_str("")
}

/// Assemble a notification record from the plain values a history query
/// yields, deriving its icon and action.
pub fn build_notification(
    id: i32,
    appname: String,
    desktop_entry: String,
    summary: String,
    body: String,
    date: String,
    time: String,
) -> (r: Notification)
    ensures
        r.id == id,
        r.appname@ == appname@,
        r.desktop_entry@ == desktop_entry@,
        r.summary@ == summary@,
        r.body@ == body@,
        r.date@ == date@,
        r.time@ == time@,
        r.icon@ == spec_icon_for(lower_of(appname@)),
        r.action@ == spec_action(appname@, summary@, body@),
{
    let icon = icon_for_app(appname.as_str());
    let action = action_for_notification(appname.as_str(), summary.as_str(), body.as_str());
    Notification { id, appname, desktop_entry, icon, summary, body, date, time, action }
}

/// `s` with every trailing `.desktop` suffix removed.
pub open spec fn spec_strip_desktop(s: Seq<char>) -> Seq<char>
    decreases s.len(),
{
    if s.len() >= 8 && s.subrange(s.len() - 8, s.len() as int) == ".desktop"@ {
        spec_strip_desktop(s.take(s.len() - 8))
    } else {
        s
    }
}

/// What opening a notification launches: the desktop entry with its
/// `.desktop` suffixes stripped when one is named, else the application
/// name, else nothing.
pub open spec fn spec_launch_target(appname: Seq<char>, desktop_entry: Seq<char>) -> Option<
    Seq<char>,
> {
    if desktop_entry.len() > 0 {
        Some(spec_strip_desktop(desktop_entry))
    } else if appname.len() > 0 {
        Some(appname)
    } else {
        None
    }
}

/// Pick what a notification's open action should focus or launch.
pub fn choose_launch_target(appname: &str, desktop_entry: &str) -> (r: Option<String>)
    ensures
        match r {
            Some(t) => spec_launch_target(appname@, desktop_entry@) == Some(t@),
            None => spec_launch_target(appname@, desktop_entry@) is None,
        },
{
    proof {
        reveal_strlit(".desktop");
    }
    if desktop_entry.unicode_len() > 0 {
        let mut t = desktop_entry.to_owned();
        while crate::strutil::ends_with(t.as_str(), ".desktop")
            invariant
                spec_strip_desktop(t@) == spec_strip_desktop(desktop_entry@),
            decreases t@.len(),
        {
            proof {
                reveal_strlit(".desktop");
            }
            let tn = t.as_str().unicode_len();
            let shorter = crate::strutil::substring_owned(t.as_str(), 0, tn - 8);
            proof {
                assert(t@.subrange(0, tn - 8) =~= t@.take(t@.len() - 8));
            }
            t = shorter;
        }
        proof {
            reveal_strlit(".desktop");
            assert(spec_strip_desktop(t@) == t@);
        }
        Some(t)
    } else if appname.unicode_len() > 0 {
        Some(appname.to_owned())
    } else {
        None
    }
}

/// Reconstruct a notification's wall-clock timestamp from the machine's
/// clock and uptime: the raw value is microseconds since boot, so its age
/// is the uptime minus the raw seconds, subtracted from the present.
pub fn epoch_from_dunst(now: i64, uptime_s: i64, raw_timestamp_us: i64) -> (r: i64)
    requires
        0 <= now < 0x100_0000_0000,
        0 <= uptime_s < 0x100_0000_0000,
        0 <= raw_timestamp_us,
    ensures
        r == now - (uptime_s - raw_timestamp_us / 1_000_000),
{
    proof {
        vstd::arithmetic::div_mod::lemma_div_pos_is_pos(raw_timestamp_us as int, 1_000_000);
        vstd::arithmetic::div_mod::lemma_div_is_ordered_by_denominator(
            raw_timestamp_us as int,
            1,
            1_000_000,
        );
    }
    now - (uptime_s - raw_timestamp_us / 1_000_000)
}

} // verus!
