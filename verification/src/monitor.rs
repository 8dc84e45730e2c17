//! The monitor model: a physical output as reported by the compositor, its
//! available modes, and the configuration subset handed to a backend.
//!
//! Refresh rates are stored in centihertz (hundredths of a hertz) and the
//! per-monitor render scale in hundredths of the multiplier, so every value
//! the persisted format renders with two decimal places is held exactly.

use vstd::prelude::*;
use crate::{abs_int, COORD_LIMIT};
use crate::numfmt::{
    format_fixed2, format_i32, format_u32, lemma_udec_val, spec_dec_val, spec_digit_char,
    spec_digit_run_end, spec_digit_val, spec_fixed2, spec_idec, spec_udec,
};
use crate::strutil::spec_find_char;

verus! {

/// Upper bound on a stored refresh rate, in centihertz.
pub const REFRESH_LIMIT_CHZ: i32 = 100_000_000;

/// Upper bound on a stored render scale, in hundredths.
pub const SCALE_LIMIT_PCT: i32 = 10_000;

/// A single available display mode: resolution plus refresh rate.
pub struct MonitorMode {
    pub width: i32,
    pub height: i32,
    /// Refresh rate in centihertz: `14400` is 144.00 Hz.
    pub refresh_chz: i32,
}

/// Mathematical value of a `MonitorMode`.
#[verifier::ext_equal]
pub ghost struct MonitorModeV {
    pub width: int,
    pub height: int,
    pub refresh_chz: int,
}

impl View for MonitorMode {
    type V = MonitorModeV;

    open spec fn view(&self) -> MonitorModeV {
        MonitorModeV {
            width: self.width as int,
            height: self.height as int,
            refresh_chz: self.refresh_chz as int,
        }
    }
}

impl Clone for MonitorMode {
    fn clone(&self) -> (r: Self)
        ensures
            r == *self,
    {
        MonitorMode { width: self.width, height: self.height, refresh_chz: self.refresh_chz }
    }
}

/// A well-formed mode: positive resolution, positive bounded refresh rate.
pub open spec fn mode_wf(m: MonitorModeV) -> bool {
    &&& 0 < m.width <= COORD_LIMIT
    &&& 0 < m.height <= COORD_LIMIT
    &&& 0 < m.refresh_chz <= REFRESH_LIMIT_CHZ
}

/// A refresh rate in centihertz rounded to whole hertz: nearest wins, and
/// an exact half goes to the even neighbour.
pub open spec fn spec_label_hz(chz: int) -> int {
    let q = chz / 100;
    let rem = chz % 100;
    if rem > 50 {
        q + 1
    } else if rem < 50 {
        q
    } else if q % 2 == 0 {
        q
    } else {
        q + 1
    }
}

/// The label of a mode: `WIDTHxHEIGHT@HZHz`, with the refresh rate rounded
/// to the nearest whole hertz (halves to even).
pub open spec fn spec_mode_label(m: MonitorModeV) -> Seq<char> {
    spec_udec(m.width as nat) + "x"@ + spec_udec(m.height as nat) + "@"@ + spec_udec(
        spec_label_hz(m.refresh_chz) as nat,
    ) + "Hz"@
}

/// A mode "is" a monitor's live mode when the resolution matches exactly
/// and the refresh rate lies within 1 Hz, tolerating driver-reported jitter.
pub open spec fn mode_matches(m: MonitorModeV, width: int, height: int, refresh_chz: int) -> bool {
    m.width == width && m.height == height && abs_int(m.refresh_chz - refresh_chz) < 100
}

impl MonitorMode {
    /// Human-readable mode label, e.g. `1920x1080@60Hz`.
    pub fn label(&self) -> (r: String)
        requires
            mode_wf(self@),
        ensures
            r@ == spec_mode_label(self@),
    {
        let mut r = format_u32(self.width as u32);
        r.append("x");
        let h = format_u32(self.height as u32);
        r.append(h.as_str());
        r.append("@");
        let q = self.refresh_chz / 100;
        let rem = self.refresh_chz % 100;
        let rounded = if rem > 50 {
            q + 1
        } else if rem < 50 {
            q
        } else if q % 2 == 0 {
            q
        } else {
            q + 1
        };
        let hz = format_u32(rounded as u32);
        r.append(hz.as_str());
        r.append("Hz");
        proof {
            reveal_strlit("x");
            reveal_strlit("@");
            reveal_strlit("Hz");
        }
        assert(r@ =~= spec_mode_label(self@));
        r
    }
}

/// One physical display as reported by the compositor.
pub struct Monitor {
    /// Numeric id assigned by enumeration order.
    pub id: i32,
    /// Compositor-assigned stable identity, e.g. `DP-1`; unique in a session.
    pub name: String,
    /// Human description, e.g. the panel's make and model.
    pub description: String,
    /// Active resolution.
    pub width: i32,
    pub height: i32,
    /// Active refresh rate in centihertz.
    pub refresh_chz: i32,
    /// Position in the shared virtual coordinate space.
    pub x: i32,
    pub y: i32,
    /// Render scale in hundredths: `150` is a 1.50 multiplier.
    pub scale_pct: i32,
    /// Rotation/flip code, 0-7, passed through opaquely.
    pub transform: i32,
    pub enabled: bool,
    pub dpms: bool,
    pub focused: bool,
    /// Compositor-reported catalogue of modes, read-only.
    pub available_modes: Vec<MonitorMode>,
}

/// Mathematical value of a `Monitor`.
#[verifier::ext_equal]
pub ghost struct MonitorV {
    pub id: int,
    pub name: Seq<char>,
    pub description: Seq<char>,
    pub width: int,
    pub height: int,
    pub refresh_chz: int,
    pub x: int,
    pub y: int,
    pub scale_pct: int,
    pub transform: int,
    pub enabled: bool,
    pub dpms: bool,
    pub focused: bool,
    pub available_modes: Seq<MonitorModeV>,
}

impl View for Monitor {
    type V = MonitorV;

    open spec fn view(&self) -> MonitorV {
        MonitorV {
            id: self.id as int,
            name: self.name@,
            description: self.description@,
            width: self.width as int,
            height: self.height as int,
            refresh_chz: self.refresh_chz as int,
            x: self.x as int,
            y: self.y as int,
            scale_pct: self.scale_pct as int,
            transform: self.transform as int,
            enabled: self.enabled,
            dpms: self.dpms,
            focused: self.focused,
            available_modes: self.available_modes@.map_values(|m: MonitorMode| m@),
        }
    }
}

impl Clone for Monitor {
    fn clone(&self) -> (r: Self)
        ensures
            r@ == self@,
    {
        let modes = self.available_modes.clone();
        proof {
            assert(modes@ =~= self.available_modes@);
        }
        let r = Monitor {
            id: self.id,
            name: self.name.clone(),
            description: self.description.clone(),
            width: self.width,
            height: self.height,
            refresh_chz: self.refresh_chz,
            x: self.x,
            y: self.y,
            scale_pct: self.scale_pct,
            transform: self.transform,
            enabled: self.enabled,
            dpms: self.dpms,
            focused: self.focused,
            available_modes: modes,
        };
        proof {
            assert(r@ =~~= self@);
        }
        r
    }
}

/// A well-formed monitor: everything inside the engine's bounds, positive
/// size whenever enabled, positive refresh and scale, a small transform
/// code, and a well-formed mode catalogue.
pub open spec fn monitor_wf(m: MonitorV) -> bool {
    &&& 0 <= m.id
    &&& -COORD_LIMIT <= m.x <= COORD_LIMIT
    &&& -COORD_LIMIT <= m.y <= COORD_LIMIT
    &&& 0 <= m.width <= COORD_LIMIT
    &&& 0 <= m.height <= COORD_LIMIT
    &&& m.enabled ==> 0 < m.width && 0 < m.height
    &&& 0 < m.refresh_chz <= REFRESH_LIMIT_CHZ
    &&& 0 < m.scale_pct <= SCALE_LIMIT_PCT
    &&& 0 <= m.transform <= 7
    &&& forall|i: int| 0 <= i < m.available_modes.len() ==> mode_wf(#[trigger] m.available_modes[i])
}

/// Some entry of the monitor's mode catalogue matches its live state.
pub open spec fn spec_has_matching_mode(m: MonitorV) -> bool {
    exists|i: int|
        0 <= i < m.available_modes.len() && mode_matches(
            #[trigger] m.available_modes[i],
            m.width,
            m.height,
            m.refresh_chz,
        )
}

impl Monitor {
    /// Index of the first catalogue entry matching the live state (exact
    /// resolution, refresh within 1 Hz), or 0 when none matches.
    pub fn current_mode_index(&self) -> (idx: usize)
        ensures
            spec_has_matching_mode(self@) ==> idx < self@.available_modes.len() && mode_matches(
                self@.available_modes[idx as int],
                self@.width,
                self@.height,
                self@.refresh_chz,
            ) && forall|j: int|
                0 <= j < idx ==> !mode_matches(
                    #[trigger] self@.available_modes[j],
                    self@.width,
                    self@.height,
                    self@.refresh_chz,
                ),
            !spec_has_matching_mode(self@) ==> idx == 0,
    {
        let n = self.available_modes.len();
        let mut i: usize = 0;
        while i < n
            invariant
                n == self.available_modes@.len(),
                0 <= i <= n,
                forall|j: int|
                    0 <= j < i ==> !mode_matches(
                        #[trigger] self@.available_modes[j],
                        self@.width,
                        self@.height,
                        self@.refresh_chz,
                    ),
            decreases n - i,
        {
            let md = &self.available_modes[i];
            let delta = md.refresh_chz as i64 - self.refresh_chz as i64;
            let gap = if delta < 0 {
                -delta
            } else {
                delta
            };
            if md.width == self.width && md.height == self.height && gap < 100 {
                assert(mode_matches(
                    self@.available_modes[i as int],
                    self@.width,
                    self@.height,
                    self@.refresh_chz,
                ));
                return i;
            }
            i = i + 1;
        }
        0
    }

    /// The labels of all catalogue entries, in order.
    pub fn mode_labels(&self) -> (r: Vec<String>)
        requires
            monitor_wf(self@),
        ensures
            r@.len() == self@.available_modes.len(),
            forall|i: int|
                0 <= i < r@.len() ==> (#[trigger] r@[i])@ == spec_mode_label(
                    self@.available_modes[i],
                ),
    {
        let mut r: Vec<String> = Vec::new();
        let n = self.available_modes.len();
        let mut i: usize = 0;
        while i < n
            invariant
                n == self.available_modes@.len(),
                monitor_wf(self@),
                0 <= i <= n,
                r@.len() == i,
                forall|k: int|
                    0 <= k < i ==> (#[trigger] r@[k])@ == spec_mode_label(
                        self@.available_modes[k],
                    ),
            decreases n - i,
        {
            assert(mode_wf(self@.available_modes[i as int]));
            r.push(self.available_modes[i].label());
            i = i + 1;
        }
        r
    }
}

/// Configuration to apply to a single monitor: the mutable subset of a
/// `Monitor` a backend needs to realise a desired state.
pub struct MonitorConfig {
    pub name: String,
    pub width: i32,
    pub height: i32,
    /// Refresh rate in centihertz.
    pub refresh_chz: i32,
    pub x: i32,
    pub y: i32,
    /// Render scale in hundredths.
    pub scale_pct: i32,
    pub enabled: bool,
}

/// Mathematical value of a `MonitorConfig`.
#[verifier::ext_equal]
pub ghost struct MonitorConfigV {
    pub name: Seq<char>,
    pub width: int,
    pub height: int,
    pub refresh_chz: int,
    pub x: int,
    pub y: int,
    pub scale_pct: int,
    pub enabled: bool,
}

impl View for MonitorConfig {
    type V = MonitorConfigV;

    open spec fn view(&self) -> MonitorConfigV {
        MonitorConfigV {
            name: self.name@,
            width: self.width as int,
            height: self.height as int,
            refresh_chz: self.refresh_chz as int,
            x: self.x as int,
            y: self.y as int,
            scale_pct: self.scale_pct as int,
            enabled: self.enabled,
        }
    }
}

impl Clone for MonitorConfig {
    fn clone(&self) -> (r: Self)
        ensures
            r@ == self@,
    {
        let r = MonitorConfig {
            name: self.name.clone(),
            width: self.width,
            height: self.height,
            refresh_chz: self.refresh_chz,
            x: self.x,
            y: self.y,
            scale_pct: self.scale_pct,
            enabled: self.enabled,
        };
        proof {
            assert(r@ =~= self@);
        }
        r
    }
}

/// A well-formed config: the same bounds a well-formed monitor guarantees
/// for the fields a config carries.
pub open spec fn config_wf(c: MonitorConfigV) -> bool {
    &&& -COORD_LIMIT <= c.x <= COORD_LIMIT
    &&& -COORD_LIMIT <= c.y <= COORD_LIMIT
    &&& 0 <= c.width <= COORD_LIMIT
    &&& 0 <= c.height <= COORD_LIMIT
    &&& 0 < c.refresh_chz <= REFRESH_LIMIT_CHZ
    &&& 0 < c.scale_pct <= SCALE_LIMIT_PCT
}

/// The config a monitor's current state describes.
pub open spec fn spec_config_of(m: MonitorV) -> MonitorConfigV {
    MonitorConfigV {
        name: m.name,
        width: m.width,
        height: m.height,
        refresh_chz: m.refresh_chz,
        x: m.x,
        y: m.y,
        scale_pct: m.scale_pct,
        enabled: m.enabled,
    }
}

/// Derive the configuration a monitor's current state describes.
pub fn config_from_monitor(m: &Monitor) -> (r: MonitorConfig)
    ensures
        r@ == spec_config_of(m@),
{
    let r = MonitorConfig {
        name: m.name.clone(),
        width: m.width,
        height: m.height,
        refresh_chz: m.refresh_chz,
        x: m.x,
        y: m.y,
        scale_pct: m.scale_pct,
        enabled: m.enabled,
    };
    proof {
        assert(r@ =~= spec_config_of(m@));
    }
    r
}

/// The persisted configuration line for one monitor:
/// `monitor = NAME, disable` when disabled, otherwise
/// `monitor = NAME, WxH@REFRESH, XxY, SCALE` with the refresh rate and the
/// scale rendered with two decimal places.
pub open spec fn spec_config_line(c: MonitorConfigV) -> Seq<char> {
    if !c.enabled {
        "monitor = "@ + c.name + ", disable"@
    } else {
        "monitor = "@ + c.name + ", "@ + spec_udec(c.width as nat) + "x"@ + spec_udec(
            c.height as nat,
        ) + "@"@ + spec_fixed2(c.refresh_chz) + ", "@ + spec_idec(c.x) + "x"@ + spec_idec(c.y)
            + ", "@ + spec_fixed2(c.scale_pct)
    }
}

impl MonitorConfig {
    /// Render this config as one persisted configuration line.
    pub fn to_hyprland_line(&self) -> (r: String)
        requires
            config_wf(self@),
        ensures
            r@ == spec_config_line(self@),
    {
        proof {
            reveal_strlit("monitor = ");
            reveal_strlit(", disable");
            reveal_strlit(", ");
            reveal_strlit("x");
            reveal_strlit("@");
        }
        let mut r = String::from_str("monitor = ");
        r.append(self.name.as_str());
        if !self.enabled {
            r.append(", disable");
            assert(r@ =~= spec_config_line(self@));
            return r;
        }
        r.append(", ");
        let w = format_u32(self.width as u32);
        r.append(w.as_str());
        r.append("x");
        let h = format_u32(self.height as u32);
        r.append(h.as_str());
        r.append("@");
        let rr = format_fixed2(self.refresh_chz);
        r.append(rr.as_str());
        r.append(", ");
        let xs = format_i32(self.x);
        r.append(xs.as_str());
        r.append("x");
        let ys = format_i32(self.y);
        r.append(ys.as_str());
        r.append(", ");
        let ss = format_fixed2(self.scale_pct);
        r.append(ss.as_str());
        assert(r@ =~= spec_config_line(self@));
        r
    }
}

/// A name that can survive the persisted line format: it holds no comma,
/// so the line's field separators stay unambiguous.
pub open spec fn line_name_ok(name: Seq<char>) -> bool {
    forall|i: int| 0 <= i < name.len() ==> name[i] != ','
}

/// `s` is the persisted line of the enabled, well-formed config `c` whose
/// name is comma-free: the sources the round trip is promised for.
pub open spec fn roundtrip_source(s: Seq<char>, c: MonitorConfigV) -> bool {
    &&& config_wf(c)
    &&& c.enabled
    &&& line_name_ok(c.name)
    &&& s == spec_config_line(c)
}

/// `s` is the persisted line of a disabled monitor with the comma-free
/// name `name`.
pub open spec fn disable_line_source(s: Seq<char>, name: Seq<char>) -> bool {
    line_name_ok(name) && s == "monitor = "@ + name + ", disable"@
}

/// Everything the line parser observes about a disable line: the prefix,
/// where the name ends, and that `disable` fills the rest.
proof fn lemma_parse_positions_disable(s: Seq<char>, name: Seq<char>)
    requires
        disable_line_source(s, name),
    ensures
        s.len() == 19 + name.len(),
        s.subrange(0, 10) == "monitor = "@,
        spec_find_char(s, 10, ',') == 10 + name.len(),
        s.subrange(10, 10 + name.len() as int) == name,
        s[10 + name.len() as int + 1] == ' ',
        s.subrange(12 + name.len() as int, s.len() as int) == "disable"@,
{
    reveal_strlit("monitor = ");
    reveal_strlit(", disable");
    reveal_strlit("disable");
    let a_ne = 10 + name.len() as int;
    assert(s.subrange(0, 10) =~= "monitor = "@);
    assert(s.subrange(10, a_ne) =~= name);
    assert(s[a_ne] == ',');
    assert(s[a_ne + 1] == ' ');
    assert(s.subrange(a_ne + 2, s.len() as int) =~= "disable"@);
    assert(forall|k: int| 10 <= k < a_ne ==> s[k] == name[k - 10] && s[k] != ',');
    crate::strutil::lemma_find_char_at(s, 10, ',', a_ne);
}

/// Everything the line parser observes about the persisted line of an
/// enabled, well-formed, comma-free-named config: where each field starts
/// and ends, what separates them, and what each region reads back as.
#[verifier::rlimit(100)]
#[verifier::spinoff_prover]
proof fn lemma_parse_positions(s: Seq<char>, c: MonitorConfigV)
    requires
        roundtrip_source(s, c),
    ensures
        ({
            let a_ne: int = 10 + c.name.len() as int;
            let a_w: int = a_ne + 2;
            let a_w_end: int = a_w + spec_udec(c.width as nat).len() as int;
            let a_h: int = a_w_end + 1;
            let a_h_end: int = a_h + spec_udec(c.height as nat).len() as int;
            let a_r: int = a_h_end + 1;
            let a_rip: int = a_r + spec_udec((c.refresh_chz / 100) as nat).len() as int;
            let a_r_end: int = a_rip + 3;
            let a_x: int = a_r_end + 2;
            let a_x_end: int = a_x + spec_idec(c.x).len() as int;
            let a_y: int = a_x_end + 1;
            let a_y_end: int = a_y + spec_idec(c.y).len() as int;
            let a_s: int = a_y_end + 2;
            let a_sip: int = a_s + spec_udec((c.scale_pct / 100) as nat).len() as int;
            &&& s.len() == a_sip + 3
            &&& s.len() >= 10
            &&& s.subrange(0, 10) == "monitor = "@
            &&& spec_find_char(s, 10, ',') == a_ne
            &&& a_w + 7 != s.len()
            &&& s.subrange(10, a_ne) == c.name
            &&& s[a_ne + 1] == ' '
            &&& spec_digit_run_end(s, a_w) == a_w_end
            &&& spec_dec_val(s.subrange(a_w, a_w_end)) == c.width
            &&& (a_w_end == a_w + 1 || s[a_w] != '0')
            &&& a_w_end < s.len() && s[a_w_end] == 'x'
            &&& spec_digit_run_end(s, a_h) == a_h_end
            &&& spec_dec_val(s.subrange(a_h, a_h_end)) == c.height
            &&& (a_h_end == a_h + 1 || s[a_h] != '0')
            &&& a_h_end < s.len() && s[a_h_end] == '@'
            &&& spec_digit_run_end(s, a_r) == a_rip
            &&& spec_dec_val(s.subrange(a_r, a_rip)) * 100 + spec_digit_val(s[a_rip + 1]) * 10
                + spec_digit_val(s[a_rip + 2]) == c.refresh_chz
            &&& (a_rip == a_r + 1 || s[a_r] != '0')
            &&& a_rip + 3 <= s.len() && s[a_rip] == '.' && spec_digit_val(s[a_rip + 1]) >= 0
                && spec_digit_val(s[a_rip + 2]) >= 0
            &&& spec_dec_val(s.subrange(a_r, a_rip)) <= c.refresh_chz
            &&& a_r_end + 1 < s.len() && s[a_r_end] == ',' && s[a_r_end + 1] == ' '
            &&& (c.x < 0 <==> s[a_x] == '-')
            &&& ({
                let d0 = if c.x < 0 {
                    a_x + 1
                } else {
                    a_x
                };
                &&& spec_digit_run_end(s, d0) == a_x_end
                &&& spec_dec_val(s.subrange(d0, a_x_end)) == abs_int(c.x)
                &&& (a_x_end == d0 + 1 || s[d0] != '0')
            })
            &&& a_x_end < s.len() && s[a_x_end] == 'x'
            &&& (c.y < 0 <==> s[a_y] == '-')
            &&& ({
                let d0 = if c.y < 0 {
                    a_y + 1
                } else {
                    a_y
                };
                &&& spec_digit_run_end(s, d0) == a_y_end
                &&& spec_dec_val(s.subrange(d0, a_y_end)) == abs_int(c.y)
                &&& (a_y_end == d0 + 1 || s[d0] != '0')
            })
            &&& a_y_end + 1 < s.len() && s[a_y_end] == ',' && s[a_y_end + 1] == ' '
            &&& spec_digit_run_end(s, a_s) == a_sip
            &&& spec_dec_val(s.subrange(a_s, a_sip)) * 100 + spec_digit_val(s[a_sip + 1]) * 10
                + spec_digit_val(s[a_sip + 2]) == c.scale_pct
            &&& (a_sip == a_s + 1 || s[a_s] != '0')
            &&& s[a_sip] == '.' && spec_digit_val(s[a_sip + 1]) >= 0 && spec_digit_val(
                s[a_sip + 2],
            ) >= 0
            &&& spec_dec_val(s.subrange(a_s, a_sip)) <= c.scale_pct
        }),
{
    reveal_strlit("monitor = ");
    reveal_strlit(", ");
    reveal_strlit("x");
    reveal_strlit("@");
    let wd = spec_udec(c.width as nat);
    let hd = spec_udec(c.height as nat);
    let rf = spec_fixed2(c.refresh_chz);
    let xd = spec_idec(c.x);
    let yd = spec_idec(c.y);
    let sf = spec_fixed2(c.scale_pct);
    let rip = spec_udec((c.refresh_chz / 100) as nat);
    let sip = spec_udec((c.scale_pct / 100) as nat);
    lemma_udec_val(c.width as nat);
    lemma_udec_val(c.height as nat);
    lemma_udec_val((c.refresh_chz / 100) as nat);
    lemma_udec_val((c.scale_pct / 100) as nat);
    lemma_udec_val(abs_int(c.x) as nat);
    lemma_udec_val(abs_int(c.y) as nat);

    let a_ne: int = 10 + c.name.len() as int;
    let a_w: int = a_ne + 2;
    let a_w_end: int = a_w + wd.len() as int;
    let a_h: int = a_w_end + 1;
    let a_h_end: int = a_h + hd.len() as int;
    let a_r: int = a_h_end + 1;
    let a_rip: int = a_r + rip.len() as int;
    let a_r_end: int = a_rip + 3;
    let a_x: int = a_r_end + 2;
    let a_x_end: int = a_x + xd.len() as int;
    let a_y: int = a_x_end + 1;
    let a_y_end: int = a_y + yd.len() as int;
    let a_s: int = a_y_end + 2;
    let a_sip: int = a_s + sip.len() as int;

    assert(rf =~= rip + seq![
        '.',
        spec_digit_char((c.refresh_chz / 10) % 10),
        spec_digit_char(c.refresh_chz % 10),
    ]);
    assert(sf =~= sip + seq![
        '.',
        spec_digit_char((c.scale_pct / 10) % 10),
        spec_digit_char(c.scale_pct % 10),
    ]);
    assert(s.len() == a_sip + 3);

    assert(s.subrange(0, 10) =~= "monitor = "@);
    assert(s.subrange(10, a_ne) =~= c.name);
    assert(s[a_ne] == ',' && s[a_ne + 1] == ' ');
    crate::strutil::lemma_find_char_at(s, 10, ',', a_ne);
    assert(s.subrange(a_w, a_w_end) =~= wd);
    assert(s[a_w_end] == 'x');
    assert(s.subrange(a_h, a_h_end) =~= hd);
    assert(s[a_h_end] == '@');
    assert(s.subrange(a_r, a_rip) =~= rip);
    assert(s[a_rip] == '.');
    assert(s[a_rip + 1] == spec_digit_char((c.refresh_chz / 10) % 10));
    assert(s[a_rip + 2] == spec_digit_char(c.refresh_chz % 10));
    assert(s[a_r_end] == ',' && s[a_r_end + 1] == ' ');
    assert(s.subrange(a_x, a_x_end) =~= xd);
    assert(s[a_x_end] == 'x');
    assert(s.subrange(a_y, a_y_end) =~= yd);
    assert(s[a_y_end] == ',' && s[a_y_end + 1] == ' ');
    assert(s.subrange(a_s, a_sip) =~= sip);
    assert(s[a_sip] == '.');
    assert(s[a_sip + 1] == spec_digit_char((c.scale_pct / 10) % 10));
    assert(s[a_sip + 2] == spec_digit_char(c.scale_pct % 10));

    // the name holds no comma, so the first comma is the separator
    assert(forall|k: int| 10 <= k < a_ne ==> s[k] == c.name[k - 10] && s[k] != ',');

    // "disable" cannot follow the separator: a digit does
    assert(spec_digit_val(s[a_w]) >= 0) by {
        assert(s[a_w] == wd[0]);
    }
    assert(a_w + 7 != s.len());

    // each numeric region is a maximal digit run with the right value
    assert(forall|k: int| a_w <= k < a_w_end ==> spec_digit_val(#[trigger] s[k]) >= 0) by {
        assert(forall|k: int| a_w <= k < a_w_end ==> s[k] == wd[k - a_w]);
    }
    crate::numfmt::lemma_digit_run_end_at(s, a_w, a_w_end);
    assert(spec_dec_val(s.subrange(a_w, a_w_end)) == c.width);

    assert(forall|k: int| a_h <= k < a_h_end ==> spec_digit_val(#[trigger] s[k]) >= 0) by {
        assert(forall|k: int| a_h <= k < a_h_end ==> s[k] == hd[k - a_h]);
    }
    crate::numfmt::lemma_digit_run_end_at(s, a_h, a_h_end);
    assert(spec_dec_val(s.subrange(a_h, a_h_end)) == c.height);

    assert(forall|k: int| a_r <= k < a_rip ==> spec_digit_val(#[trigger] s[k]) >= 0) by {
        assert(forall|k: int| a_r <= k < a_rip ==> s[k] == rip[k - a_r]);
    }
    crate::numfmt::lemma_digit_run_end_at(s, a_r, a_rip);
    assert(spec_dec_val(s.subrange(a_r, a_rip)) == c.refresh_chz / 100);
    crate::numfmt::lemma_digit_char_val((c.refresh_chz / 10) % 10);
    crate::numfmt::lemma_digit_char_val(c.refresh_chz % 10);
    assert((c.refresh_chz / 100) * 100 + ((c.refresh_chz / 10) % 10) * 10 + c.refresh_chz % 10
        == c.refresh_chz) by {
        vstd::arithmetic::div_mod::lemma_fundamental_div_mod(c.refresh_chz, 100);
        vstd::arithmetic::div_mod::lemma_breakdown(c.refresh_chz, 10, 10);
    }
    assert(spec_dec_val(s.subrange(a_r, a_rip)) <= c.refresh_chz) by {
        vstd::arithmetic::div_mod::lemma_div_is_ordered_by_denominator(c.refresh_chz, 1, 100);
    }

    // signed fields: sign presence mirrors the sign of the value
    if c.x < 0 {
        assert(xd == seq!['-'] + spec_udec((-c.x) as nat));
        assert(s[a_x] == '-');
        assert(forall|k: int| a_x + 1 <= k < a_x_end ==> spec_digit_val(#[trigger] s[k]) >= 0) by {
            assert(forall|k: int|
                a_x + 1 <= k < a_x_end ==> s[k] == spec_udec((-c.x) as nat)[k - a_x - 1]);
        }
        crate::numfmt::lemma_digit_run_end_at(s, a_x + 1, a_x_end);
        assert(s.subrange(a_x + 1, a_x_end) =~= spec_udec((-c.x) as nat));
        assert(spec_dec_val(s.subrange(a_x + 1, a_x_end)) == abs_int(c.x));
    } else {
        assert(xd == spec_udec(c.x as nat));
        assert(s[a_x] == xd[0]);
        assert(spec_digit_val(s[a_x]) >= 0);
        assert(s[a_x] != '-');
        assert(forall|k: int| a_x <= k < a_x_end ==> spec_digit_val(#[trigger] s[k]) >= 0) by {
            assert(forall|k: int| a_x <= k < a_x_end ==> s[k] == xd[k - a_x]);
        }
        crate::numfmt::lemma_digit_run_end_at(s, a_x, a_x_end);
        assert(spec_dec_val(s.subrange(a_x, a_x_end)) == abs_int(c.x));
    }
    if c.y < 0 {
        assert(yd == seq!['-'] + spec_udec((-c.y) as nat));
        assert(s[a_y] == '-');
        assert(forall|k: int| a_y + 1 <= k < a_y_end ==> spec_digit_val(#[trigger] s[k]) >= 0) by {
            assert(forall|k: int|
                a_y + 1 <= k < a_y_end ==> s[k] == spec_udec((-c.y) as nat)[k - a_y - 1]);
        }
        crate::numfmt::lemma_digit_run_end_at(s, a_y + 1, a_y_end);
        assert(s.subrange(a_y + 1, a_y_end) =~= spec_udec((-c.y) as nat));
        assert(spec_dec_val(s.subrange(a_y + 1, a_y_end)) == abs_int(c.y));
    } else {
        assert(yd == spec_udec(c.y as nat));
        assert(s[a_y] == yd[0]);
        assert(spec_digit_val(s[a_y]) >= 0);
        assert(s[a_y] != '-');
        assert(forall|k: int| a_y <= k < a_y_end ==> spec_digit_val(#[trigger] s[k]) >= 0) by {
            assert(forall|k: int| a_y <= k < a_y_end ==> s[k] == yd[k - a_y]);
        }
        crate::numfmt::lemma_digit_run_end_at(s, a_y, a_y_end);
        assert(spec_dec_val(s.subrange(a_y, a_y_end)) == abs_int(c.y));
    }

    assert(forall|k: int| a_s <= k < a_sip ==> spec_digit_val(#[trigger] s[k]) >= 0) by {
        assert(forall|k: int| a_s <= k < a_sip ==> s[k] == sip[k - a_s]);
    }
    crate::numfmt::lemma_digit_run_end_at(s, a_s, a_sip);
    assert(spec_dec_val(s.subrange(a_s, a_sip)) == c.scale_pct / 100);
    crate::numfmt::lemma_digit_char_val((c.scale_pct / 10) % 10);
    crate::numfmt::lemma_digit_char_val(c.scale_pct % 10);
    assert((c.scale_pct / 100) * 100 + ((c.scale_pct / 10) % 10) * 10 + c.scale_pct % 10
        == c.scale_pct) by {
        vstd::arithmetic::div_mod::lemma_fundamental_div_mod(c.scale_pct, 100);
        vstd::arithmetic::div_mod::lemma_breakdown(c.scale_pct, 10, 10);
    }
    assert(spec_dec_val(s.subrange(a_s, a_sip)) <= c.scale_pct) by {
        vstd::arithmetic::div_mod::lemma_div_is_ordered_by_denominator(c.scale_pct, 1, 100);
    }
}

/// Read one persisted configuration line back into a config. The round
/// trip through the persisted format is the identity: for every enabled,
/// well-formed config with a comma-free name, parsing the rendered line
/// returns exactly that config, field for field. A `monitor = NAME, disable`
/// line with a comma-free name reads back as a disabled config carrying
/// that name; a disable line fixes no numeric fields, so only the name and
/// the state are promised for it.
#[verifier::rlimit(100)]
#[verifier::spinoff_prover]
pub fn parse_monitor_line(s: &str) -> (r: Option<MonitorConfig>)
    ensures
        forall|c: MonitorConfigV|
            roundtrip_source(s@, c) ==> match r {
                Some(pc) => pc@ == c,
                None => false,
            },
        forall|nm: Seq<char>|
            disable_line_source(s@, nm) ==> match r {
                Some(pc) => pc@.name == nm && !pc@.enabled,
                None => false,
            },
{
    proof {
        reveal_strlit("monitor = ");
        reveal_strlit("disable");
    }
    let n = s.unicode_len();
    if !crate::strutil::starts_with(s, "monitor = ") {
        proof {
            assert forall|c: MonitorConfigV| roundtrip_source(s@, c) implies false by {
                lemma_parse_positions(s@, c);
            }
            assert forall|nm: Seq<char>| disable_line_source(s@, nm) implies false by {
                lemma_parse_positions_disable(s@, nm);
            }
        }
        return None;
    }
    let j = crate::strutil::find_char(s, 10, ',');
    if j >= n {
        proof {
            assert forall|c: MonitorConfigV| roundtrip_source(s@, c) implies false by {
                lemma_parse_positions(s@, c);
            }
            assert forall|nm: Seq<char>| disable_line_source(s@, nm) implies false by {
                lemma_parse_positions_disable(s@, nm);
            }
        }
        return None;
    }
    let name = crate::strutil::substring_owned(s, 10, j);
    if n - j < 2 {
        proof {
            assert forall|c: MonitorConfigV| roundtrip_source(s@, c) implies false by {
                lemma_parse_positions(s@, c);
            }
            assert forall|nm: Seq<char>| disable_line_source(s@, nm) implies false by {
                lemma_parse_positions_disable(s@, nm);
            }
        }
        return None;
    }
    if s.get_char(j + 1) != ' ' {
        proof {
            assert forall|c: MonitorConfigV| roundtrip_source(s@, c) implies false by {
                lemma_parse_positions(s@, c);
            }
            assert forall|nm: Seq<char>| disable_line_source(s@, nm) implies false by {
                lemma_parse_positions_disable(s@, nm);
            }
        }
        return None;
    }
    let k = j + 2;
    if n - k == 7 {
        let rest = s.substring_char(k, n);
        if crate::strutil::str_eq(rest, "disable") {
            let pc = MonitorConfig {
                name,
                width: 0,
                height: 0,
                refresh_chz: 0,
                x: 0,
                y: 0,
                scale_pct: 0,
                enabled: false,
            };
            proof {
                assert forall|c: MonitorConfigV| roundtrip_source(s@, c) implies false by {
                    lemma_parse_positions(s@, c);
                }
                assert forall|nm: Seq<char>| disable_line_source(s@, nm) implies pc@.name == nm
                    && !pc@.enabled by {
                    lemma_parse_positions_disable(s@, nm);
                }
            }
            return Some(pc);
        }
    }
    proof {
        // past this point the input cannot be a disable line, so the
        // disable clause of the contract holds vacuously at every exit below
        assert forall|nm: Seq<char>| disable_line_source(s@, nm) implies false by {
            lemma_parse_positions_disable(s@, nm);
        }
    }
    let (wv, p1) = match crate::numfmt::scan_u32(s, k, COORD_LIMIT as u32) {
        Some(p) => p,
        None => {
            proof {
                assert forall|c: MonitorConfigV| roundtrip_source(s@, c) implies false by {
                    lemma_parse_positions(s@, c);
                }
            }
            return None;
        },
    };
    if p1 >= n || s.get_char(p1) != 'x' {
        proof {
            assert forall|c: MonitorConfigV| roundtrip_source(s@, c) implies false by {
                lemma_parse_positions(s@, c);
            }
        }
        return None;
    }
    let (hv, p2) = match crate::numfmt::scan_u32(s, p1 + 1, COORD_LIMIT as u32) {
        Some(p) => p,
        None => {
            proof {
                assert forall|c: MonitorConfigV| roundtrip_source(s@, c) implies false by {
                    lemma_parse_positions(s@, c);
                }
            }
            return None;
        },
    };
    if p2 >= n || s.get_char(p2) != '@' {
        proof {
            assert forall|c: MonitorConfigV| roundtrip_source(s@, c) implies false by {
                lemma_parse_positions(s@, c);
            }
        }
        return None;
    }
    let (rv, p3) = match crate::numfmt::scan_fixed2(s, p2 + 1, REFRESH_LIMIT_CHZ as u32) {
        Some(p) => p,
        None => {
            proof {
                assert forall|c: MonitorConfigV| roundtrip_source(s@, c) implies false by {
                    lemma_parse_positions(s@, c);
                }
            }
            return None;
        },
    };
    if n - p3 < 2 || s.get_char(p3) != ',' || s.get_char(p3 + 1) != ' ' {
        proof {
            assert forall|c: MonitorConfigV| roundtrip_source(s@, c) implies false by {
                lemma_parse_positions(s@, c);
            }
        }
        return None;
    }
    let (xv, p4) = match crate::numfmt::scan_i32(s, p3 + 2, COORD_LIMIT as u32) {
        Some(p) => p,
        None => {
            proof {
                assert forall|c: MonitorConfigV| roundtrip_source(s@, c) implies false by {
                    lemma_parse_positions(s@, c);
                }
            }
            return None;
        },
    };
    if p4 >= n || s.get_char(p4) != 'x' {
        proof {
            assert forall|c: MonitorConfigV| roundtrip_source(s@, c) implies false by {
                lemma_parse_positions(s@, c);
            }
        }
        return None;
    }
    let (yv, p5) = match crate::numfmt::scan_i32(s, p4 + 1, COORD_LIMIT as u32) {
        Some(p) => p,
        None => {
            proof {
                assert forall|c: MonitorConfigV| roundtrip_source(s@, c) implies false by {
                    lemma_parse_positions(s@, c);
                }
            }
            return None;
        },
    };
    if n - p5 < 2 || s.get_char(p5) != ',' || s.get_char(p5 + 1) != ' ' {
        proof {
            assert forall|c: MonitorConfigV| roundtrip_source(s@, c) implies false by {
                lemma_parse_positions(s@, c);
            }
        }
        return None;
    }
    let (sv, p6) = match crate::numfmt::scan_fixed2(s, p5 + 2, SCALE_LIMIT_PCT as u32) {
        Some(p) => p,
        None => {
            proof {
                assert forall|c: MonitorConfigV| roundtrip_source(s@, c) implies false by {
                    lemma_parse_positions(s@, c);
                }
            }
            return None;
        },
    };
    if p6 != n {
        proof {
            assert forall|c: MonitorConfigV| roundtrip_source(s@, c) implies false by {
                lemma_parse_positions(s@, c);
            }
        }
        return None;
    }
    let pc = MonitorConfig {
        name,
        width: wv as i32,
        height: hv as i32,
        refresh_chz: rv as i32,
        x: xv,
        y: yv,
        scale_pct: sv as i32,
        enabled: true,
    };
    proof {
        assert forall|c: MonitorConfigV| roundtrip_source(s@, c) implies pc@ == c by {
            lemma_parse_positions(s@, c);
            assert(pc@ =~= c);
        }
    }
    Some(pc)
}

/// One monitor's editable state differs from another's beyond the dirty
/// tolerances: any position, size or enablement mismatch, a refresh rate
/// more than 0.1 Hz away, or a scale more than 0.01 away.
pub open spec fn monitor_edit_differs(a: MonitorV, b: MonitorV) -> bool {
    ||| a.x != b.x
    ||| a.y != b.y
    ||| a.width != b.width
    ||| a.height != b.height
    ||| abs_int(a.refresh_chz - b.refresh_chz) > 10
    ||| abs_int(a.scale_pct - b.scale_pct) > 1
    ||| a.enabled != b.enabled
}

/// An edited monitor set differs from its baseline: a count mismatch, or
/// some monitor whose editable state moved beyond the tolerances.
pub open spec fn sets_differ(cur: Seq<MonitorV>, base: Seq<MonitorV>) -> bool {
    ||| cur.len() != base.len()
    ||| exists|i: int|
        0 <= i < cur.len() && monitor_edit_differs(#[trigger] cur[i], #[trigger] base[i])
}

/// Views of a monitor vector.
pub open spec fn views_of(ms: Seq<Monitor>) -> Seq<MonitorV> {
    ms.map_values(|m: Monitor| m@)
}

} // verus!
